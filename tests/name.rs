use kioku::{generate_name, generate_name_seeded, name_from_indices};

fn list(ws: &[&str]) -> Vec<String> {
    ws.iter().map(|w| w.to_string()).collect()
}

#[test]
fn name_has_requested_words_from_list() {
    let w = list(&["alpha", "beta", "gamma"]);
    for n in 1..6usize {
        let name = generate_name(&w, n);
        let parts: Vec<&str> = name.split('-').collect();
        assert_eq!(parts.len(), n);
        assert_eq!(name.matches('-').count(), n - 1);
        assert!(parts.iter().all(|p| w.iter().any(|x| x == p)));
    }
}

#[test]
fn zero_words_is_empty() {
    assert_eq!(generate_name(&list(&["alpha", "beta"]), 0), "");
    assert_eq!(generate_name(&Vec::new(), 0), "");
}

#[test]
fn one_word_list_repeats_it() {
    assert_eq!(generate_name(&list(&["solo"]), 3), "solo-solo-solo");
    assert_eq!(generate_name(&list(&["solo"]), 1), "solo");
}

#[test]
fn seeded_generation_is_reproducible() {
    let w = list(&["alpha", "beta"]);
    let a = generate_name_seeded(&w, 8, 42);
    let b = generate_name_seeded(&w, 8, 42);
    assert_eq!(a, b);
    assert_eq!(a.split('-').count(), 8);
    assert!(a.split('-').all(|p| p == "alpha" || p == "beta"));
}

#[test]
fn indices_pick_and_join() {
    let w = list(&["alpha", "beta"]);
    assert_eq!(name_from_indices(&w, &vec![1, 0, 1]), "beta-alpha-beta");
    assert_eq!(name_from_indices(&w, &vec![0]), "alpha");
    assert_eq!(name_from_indices(&w, &vec![]), "");
}
