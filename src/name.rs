use vstd::prelude::*;
use rand::Rng;
use rand::SeedableRng;
use rand::rngs::StdRng;

verus! {

#[verifier::external_type_specification]
#[verifier::external_body]
pub struct ExStdRng(StdRng);

/// Words joined into one label, a `'-'` between each two.
pub open spec fn join_dash(ws: Seq<Seq<char>>) -> Seq<char>
    decreases ws.len(),
{
    if ws.len() == 0 {
        Seq::empty()
    } else if ws.len() == 1 {
        ws[0]
    } else {
        join_dash(ws.drop_last()) + seq!['-'] + ws.last()
    }
}

/// Whether each index picks a word of a list of `n`.
pub open spec fn indices_below(idx: Seq<usize>, n: int) -> bool {
    forall|k: int| 0 <= k < idx.len() ==> #[trigger] idx[k] < n
}

/// The words that the indices pick, in order.
pub open spec fn picked(words: Seq<String>, idx: Seq<usize>) -> Seq<Seq<char>> {
    idx.map_values(|i: usize| words[i as int]@)
}

/// The label that the indices pick from the list.
pub open spec fn label_of(words: Seq<String>, idx: Seq<usize>) -> Seq<char> {
    join_dash(picked(words, idx))
}

/// How many times `c` occurs in `s`.
pub open spec fn count_char(s: Seq<char>, c: char) -> nat
    decreases s.len(),
{
    if s.len() == 0 {
        0
    } else {
        count_char(s.drop_last(), c) + if s.last() == c { 1nat } else { 0nat }
    }
}

proof fn lemma_count_concat(a: Seq<char>, b: Seq<char>, c: char)
    ensures
        count_char(a + b, c) == count_char(a, c) + count_char(b, c),
    decreases b.len(),
{
    if b.len() == 0 {
        assert(a + b =~= a);
    } else {
        lemma_count_concat(a, b.drop_last(), c);
        assert((a + b).drop_last() =~= a + b.drop_last());
    }
}

proof fn lemma_count_absent(s: Seq<char>, c: char)
    requires
        !s.contains(c),
    ensures
        count_char(s, c) == 0,
    decreases s.len(),
{
    if s.len() > 0 {
        assert(!s.drop_last().contains(c)) by {
            if s.drop_last().contains(c) {
                let i = choose|i: int| 0 <= i < s.drop_last().len() && s.drop_last()[i] == c;
                assert(s[i] == c);
            }
        }
        lemma_count_absent(s.drop_last(), c);
        assert(s[s.len() - 1] != c);
    }
}

proof fn lemma_join_dash_count(ws: Seq<Seq<char>>)
    requires
        ws.len() > 0,
        forall|k: int| 0 <= k < ws.len() ==> !(#[trigger] ws[k]).contains('-'),
    ensures
        count_char(join_dash(ws), '-') == ws.len() - 1,
    decreases ws.len(),
{
    if ws.len() == 1 {
        lemma_count_absent(ws[0], '-');
    } else {
        let init = ws.drop_last();
        assert forall|k: int| 0 <= k < init.len() implies !(#[trigger] init[k]).contains('-') by {
            assert(init[k] == ws[k]);
        }
        lemma_join_dash_count(init);
        lemma_count_concat(join_dash(init), seq!['-'], '-');
        lemma_count_concat(join_dash(init) + seq!['-'], ws.last(), '-');
        assert(!ws[ws.len() - 1].contains('-'));
        lemma_count_absent(ws.last(), '-');
        let dash = seq!['-'];
        assert(dash.last() == '-');
        assert(dash.drop_last() =~= Seq::<char>::empty());
        assert(count_char(dash.drop_last(), '-') == 0);
        assert(count_char(dash, '-') == 1);
    }
}

/// A label of `n` words, drawn from a list whose words hold no `'-'`, holds
/// exactly `n - 1` separators, and each of its words is a word of the list.
pub proof fn lemma_label_shape(words: Seq<String>, idx: Seq<usize>)
    requires
        indices_below(idx, words.len() as int),
        forall|k: int| 0 <= k < words.len() ==> !(#[trigger] words[k])@.contains('-'),
    ensures
        idx.len() > 0 ==> count_char(label_of(words, idx), '-') == idx.len() - 1,
        idx.len() == 0 ==> label_of(words, idx) == Seq::<char>::empty(),
        picked(words, idx).len() == idx.len(),
        forall|k: int|
            0 <= k < idx.len() ==> words.map_values(|w: String| w@).contains(
                #[trigger] picked(words, idx)[k],
            ),
{
    let ws = picked(words, idx);
    let all = words.map_values(|w: String| w@);
    assert forall|k: int| 0 <= k < idx.len() implies all.contains(#[trigger] ws[k]) by {
        assert(all[idx[k] as int] == ws[k]);
    }
    if idx.len() > 0 {
        assert forall|k: int| 0 <= k < ws.len() implies !(#[trigger] ws[k]).contains('-') by {
            assert(ws[k] == words[idx[k] as int]@);
        }
        lemma_join_dash_count(ws);
    }
}

/// Relies on `rand::rng` and `Rng::random_range`: a number in `0..n` from the
/// thread's generator.
#[verifier::external_body]
fn draw_below(n: usize) -> (r: usize)
    requires
        n > 0,
    ensures
        r < n,
{
    rand::rng().random_range(0..n)
}

/// Relies on `SeedableRng::seed_from_u64` for `StdRng`: a generator whose draws
/// the seed fixes.
#[verifier::external_body]
fn seeded_rng(seed: u64) -> (r: StdRng) {
    StdRng::seed_from_u64(seed)
}

/// Relies on `Rng::random_range` on a `StdRng`: a number in `0..n`.
#[verifier::external_body]
fn draw_below_from(rng: &mut StdRng, n: usize) -> (r: usize)
    requires
        n > 0,
    ensures
        r < n,
{
    rng.random_range(0..n)
}

/// The label that `indices` pick from `wordlist`.
pub fn name_from_indices(wordlist: &Vec<String>, indices: &Vec<usize>) -> (r: String)
    requires
        indices_below(indices@, wordlist@.len() as int),
    ensures
        r@ == label_of(wordlist@, indices@),
{
    let mut out = String::new();
    let mut i: usize = 0;
    while i < indices.len()
        invariant
            indices_below(indices@, wordlist@.len() as int),
            i <= indices@.len(),
            out@ == join_dash(picked(wordlist@, indices@.take(i as int))),
        decreases indices@.len() - i,
    {
        let word = wordlist[indices[i]].as_str();
        let ghost before = picked(wordlist@, indices@.take(i as int));
        let ghost after = picked(wordlist@, indices@.take(i + 1));
        assert(after =~= before.push(word@));
        assert(after.drop_last() =~= before);
        if i > 0 {
            out.append("-");
            proof {
                reveal_strlit("-");
            }
        }
        out.append(word);
        i += 1;
    }
    assert(indices@.take(indices@.len() as int) =~= indices@);
    out
}

/// Draws a label of `num_words` words, each picked uniformly from `wordlist`
/// by the thread's random generator.
pub fn generate_name(wordlist: &Vec<String>, num_words: usize) -> (r: String)
    requires
        num_words > 0 ==> wordlist@.len() > 0,
    ensures
        exists|idx: Seq<usize>|
            idx.len() == num_words && indices_below(idx, wordlist@.len() as int) && r@
                == label_of(wordlist@, idx),
        num_words == 0 ==> r@ == Seq::<char>::empty(),
{
    let mut indices: Vec<usize> = Vec::new();
    let mut i: usize = 0;
    while i < num_words
        invariant
            num_words > 0 ==> wordlist@.len() > 0,
            i <= num_words,
            indices@.len() == i,
            indices_below(indices@, wordlist@.len() as int),
        decreases num_words - i,
    {
        indices.push(draw_below(wordlist.len()));
        i += 1;
    }
    name_from_indices(wordlist, &indices)
}

/// Draws a label as `generate_name` does, with the draws taken from a
/// `StdRng` seeded with `seed` in place of the thread's generator.
pub fn generate_name_seeded(wordlist: &Vec<String>, num_words: usize, seed: u64) -> (r: String)
    requires
        num_words > 0 ==> wordlist@.len() > 0,
    ensures
        exists|idx: Seq<usize>|
            idx.len() == num_words && indices_below(idx, wordlist@.len() as int) && r@
                == label_of(wordlist@, idx),
        num_words == 0 ==> r@ == Seq::<char>::empty(),
{
    let mut rng = seeded_rng(seed);
    let mut indices: Vec<usize> = Vec::new();
    let mut i: usize = 0;
    while i < num_words
        invariant
            num_words > 0 ==> wordlist@.len() > 0,
            i <= num_words,
            indices@.len() == i,
            indices_below(indices@, wordlist@.len() as int),
        decreases num_words - i,
    {
        indices.push(draw_below_from(&mut rng, wordlist.len()));
        i += 1;
    }
    name_from_indices(wordlist, &indices)
}

} // verus!
