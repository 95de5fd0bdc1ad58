use vstd::prelude::*;
use crate::text::{has_ws, is_ws, lines_of, split_lines, trim_str, trim_ws};

verus! {

/// Why a wordlist could not be loaded.
pub enum WordlistErr {
    /// The file could not be read; the cause only, the file's name left out.
    FileErrStripped(String),
    /// The file (first field) could not be read, for the cause in the second.
    FileErr(String, String),
    /// An entry of the list is not a word, or the list holds none.
    NotWordList,
}

/// A word: at least one character, and no whitespace.
pub open spec fn valid_word(w: Seq<char>) -> bool {
    w.len() > 0 && forall|i: int| 0 <= i < w.len() ==> !is_ws(#[trigger] w[i])
}

/// The entries of a wordlist text: its lines, trimmed.
pub open spec fn entries_of(text: Seq<char>) -> Seq<Seq<char>> {
    lines_of(text).map_values(|l: Seq<char>| trim_ws(l))
}

/// Whether a wordlist text is accepted: it holds a line, and each line is a word
/// once trimmed.
pub open spec fn is_wordlist(text: Seq<char>) -> bool {
    entries_of(text).len() > 0 && forall|i: int|
        0 <= i < entries_of(text).len() ==> valid_word(#[trigger] entries_of(text)[i])
}

/// The characters of each word of a list.
pub open spec fn words_view(v: Seq<String>) -> Seq<Seq<char>> {
    v.map_values(|w: String| w@)
}

/// The message shown for an error.
pub open spec fn message_of(e: WordlistErr) -> Seq<char> {
    match e {
        WordlistErr::FileErrStripped(cause) => cause@,
        WordlistErr::FileErr(file, cause) => file@ + ": "@ + cause@,
        WordlistErr::NotWordList => "Wordlist badly formatted"@,
    }
}

/// The lower-case form that `str::to_lowercase` gives of `s`.
pub uninterp spec fn lower_of(s: Seq<char>) -> Seq<char>;

/// Relies on `str::to_lowercase`: the result depends on the characters alone.
#[verifier::external_body]
fn lowercase(s: &str) -> (r: String)
    ensures
        r@ == lower_of(s@),
{
    s.to_lowercase()
}

/// Whether an answer, already trimmed and in lower case, says no: it starts
/// with `n`.
pub open spec fn says_no(lowered: Seq<char>) -> bool {
    lowered.len() > 0 && lowered[0] == 'n'
}

/// Whether a trimmed, lower-case answer to the offer to install the default
/// wordlist declines it.
pub fn answer_is_no(lowered: &str) -> (r: bool)
    ensures
        r == says_no(lowered@),
{
    lowered.unicode_len() > 0 && lowered.get_char(0) == 'n'
}

/// Whether an answer typed to the offer to install the default wordlist
/// declines it; any other answer, an empty one too, accepts.
pub fn declines_install(answer: &str) -> (r: bool)
    ensures
        r == says_no(lower_of(trim_ws(answer@))),
{
    let lowered = lowercase(trim_str(answer));
    answer_is_no(lowered.as_str())
}

impl WordlistErr {
    /// The message shown for this error.
    pub fn message(&self) -> (r: String)
        ensures
            r@ == message_of(*self),
    {
        match self {
            WordlistErr::FileErrStripped(cause) => cause.clone(),
            WordlistErr::FileErr(file, cause) => {
                let mut out = file.clone();
                out.append(": ");
                out.append(cause.as_str());
                out
            },
            WordlistErr::NotWordList => String::from_str("Wordlist badly formatted"),
        }
    }

    /// The same error with the file's name dropped, for a file whose place the
    /// user did not choose.
    pub fn strip_filename(self) -> (r: WordlistErr)
        ensures
            match self {
                WordlistErr::FileErr(_, e) => r == WordlistErr::FileErrStripped(e),
                _ => r == self,
            },
    {
        match self {
            WordlistErr::FileErr(_, b) => WordlistErr::FileErrStripped(b),
            e => e,
        }
    }
}

/// Reads a wordlist: one word per line, surrounding whitespace trimmed. A line
/// that is empty or holds whitespace inside its word rejects the whole list, as
/// does a text without lines.
pub fn parse_wordlist(text: &str) -> (r: Result<Vec<String>, WordlistErr>)
    ensures
        r is Ok <==> is_wordlist(text@),
        r matches Ok(v) ==> words_view(v@) == entries_of(text@),
        r matches Err(e) ==> e is NotWordList,
{
    let lines = split_lines(text);
    let ghost entries = entries_of(text@);
    let mut words: Vec<String> = Vec::new();
    let mut i: usize = 0;
    while i < lines.len()
        invariant
            lines@.len() == entries.len(),
            entries == entries_of(text@),
            forall|j: int| 0 <= j < lines@.len() ==> #[trigger] lines@[j]@ == lines_of(text@)[j],
            i <= lines@.len(),
            words@.len() == i,
            forall|j: int| 0 <= j < i ==> #[trigger] words@[j]@ == entries[j],
            forall|j: int| 0 <= j < i ==> valid_word(#[trigger] entries[j]),
        decreases lines@.len() - i,
    {
        let w = trim_str(lines[i].as_str());
        assert(w@ == entries[i as int]);
        if w.unicode_len() == 0 || has_ws(w) {
            assert(!valid_word(entries[i as int]));
            return Err(WordlistErr::NotWordList);
        }
        words.push(w.to_owned());
        i += 1;
    }
    if words.len() == 0 {
        return Err(WordlistErr::NotWordList);
    }
    assert(words_view(words@) =~= entries);
    Ok(words)
}

} // verus!
