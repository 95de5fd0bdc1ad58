use vstd::prelude::*;
use crate::text::{lines_of, split_nl, strip_cr};

verus! {

/// How a metadata file is written.
#[derive(Clone, Copy, Debug, PartialEq, Eq, Structural)]
pub enum WriteMode {
    /// The file is truncated and holds one pretty-printed record.
    Overwrite,
    /// The record is added as one more line at the end of the file.
    Append,
}

/// One generated label and where it came from.
pub struct MetaData {
    pub label: String,
    pub revision: Option<String>,
    pub timestamp: String,
}

/// Whether `s` ends with `suf`.
pub open spec fn has_suffix(s: Seq<char>, suf: Seq<char>) -> bool {
    s.len() >= suf.len() && s.subrange(s.len() - suf.len(), s.len() as int) == suf
}

/// The write mode for a requested file name: appending for JSON lines.
pub open spec fn mode_for(f: Seq<char>) -> WriteMode {
    if has_suffix(f, ".jsonl"@) {
        WriteMode::Append
    } else {
        WriteMode::Overwrite
    }
}

/// The file actually written for a requested name: `.json` is added unless it
/// already ends with `.json` or `.jsonl`.
pub open spec fn path_for(f: Seq<char>) -> Seq<char> {
    if has_suffix(f, ".jsonl"@) || has_suffix(f, ".json"@) {
        f
    } else {
        f + ".json"@
    }
}

/// A hexadecimal digit, in lower case.
pub open spec fn hex_digit(n: int) -> char {
    if n == 0 { '0' } else if n == 1 { '1' } else if n == 2 { '2' } else if n == 3 { '3' }
    else if n == 4 { '4' } else if n == 5 { '5' } else if n == 6 { '6' } else if n == 7 { '7' }
    else if n == 8 { '8' } else if n == 9 { '9' } else if n == 10 { 'a' } else if n == 11 { 'b' }
    else if n == 12 { 'c' } else if n == 13 { 'd' } else if n == 14 { 'e' } else { 'f' }
}

/// How one character stands inside a JSON string: quote and backslash get a
/// backslash, the five usual controls their short form, other controls a
/// `\u00XX` form, and every other character itself.
pub open spec fn json_escape(c: char) -> Seq<char> {
    if c == '"' {
        seq!['\\', '"']
    } else if c == '\\' {
        seq!['\\', '\\']
    } else if c == '\u{8}' {
        seq!['\\', 'b']
    } else if c == '\t' {
        seq!['\\', 't']
    } else if c == '\n' {
        seq!['\\', 'n']
    } else if c == '\u{c}' {
        seq!['\\', 'f']
    } else if c == '\r' {
        seq!['\\', 'r']
    } else if (c as u32) < 0x20 {
        seq!['\\', 'u', '0', '0', hex_digit((c as u32) as int / 16), hex_digit((c as u32) as int % 16)]
    } else {
        seq![c]
    }
}

/// The characters of `s`, each escaped for a JSON string.
pub open spec fn json_escaped(s: Seq<char>) -> Seq<char>
    decreases s.len(),
{
    if s.len() == 0 {
        Seq::empty()
    } else {
        json_escaped(s.drop_last()) + json_escape(s.last())
    }
}

/// The JSON string literal for `s`: its escaped characters between quotes.
pub open spec fn json_str_of(s: Seq<char>) -> Seq<char> {
    seq!['"'] + json_escaped(s) + seq!['"']
}

/// Whether `s` is a date and time as RFC 3339 writes it: a year of four
/// digits (or, outside 0 to 9999, a sign and at least four digits), then
/// `-MM-DDTHH:MM:SS`, an optional fraction of 3, 6 or 9 digits, and an offset
/// `+HH:MM` or `-HH:MM`.
pub open spec fn is_rfc3339(s: Seq<char>) -> bool {
    exists|y: int, f: int| 4 <= y && 0 <= f && y + f + 21 == s.len() && #[trigger] rfc3339_at(s, y, f)
}

/// Whether `s` is a date and time with a year of `y` characters and a
/// fraction of `f` characters.
pub open spec fn rfc3339_at(s: Seq<char>, y: int, f: int) -> bool {
    &&& year_ok(s.take(y))
    &&& s[y] == '-' && digits_at(s, y + 1, 2)
    &&& s[y + 3] == '-' && digits_at(s, y + 4, 2)
    &&& s[y + 6] == 'T' && digits_at(s, y + 7, 2)
    &&& s[y + 9] == ':' && digits_at(s, y + 10, 2)
    &&& s[y + 12] == ':' && digits_at(s, y + 13, 2)
    &&& (f == 0 || ((f == 4 || f == 7 || f == 10) && s[y + 15] == '.' && digits_at(s, y + 16, f - 1)))
    &&& (s[y + f + 15] == '+' || s[y + f + 15] == '-') && digits_at(s, y + f + 16, 2)
    &&& s[y + f + 18] == ':' && digits_at(s, y + f + 19, 2)
}

/// Whether the `n` characters of `s` from `i` on are decimal digits.
pub open spec fn digits_at(s: Seq<char>, i: int, n: int) -> bool {
    forall|j: int| i <= j < i + n ==> '0' <= #[trigger] s[j] && s[j] <= '9'
}

/// Whether `y` is a year: four digits, or a sign and at least four digits.
pub open spec fn year_ok(y: Seq<char>) -> bool {
    (y.len() == 4 && digits_at(y, 0, 4)) || (y.len() >= 5 && (y[0] == '+' || y[0] == '-')
        && digits_at(y, 1, y.len() - 1))
}

/// The JSON value of an optional revision.
pub open spec fn json_revision(rev: Option<String>) -> Seq<char> {
    match rev {
        Some(r) => json_str_of(r@),
        None => "null"@,
    }
}

/// The text of a record in a file of the given mode: one line, with its line
/// ending, when appended; an indented object when the file is overwritten.
pub open spec fn record_text(m: MetaData, mode: WriteMode) -> Seq<char> {
    match mode {
        WriteMode::Append => "{\"label\":"@ + json_str_of(m.label@) + ",\"revision\":"@
            + json_revision(m.revision) + ",\"timestamp\":"@ + json_str_of(m.timestamp@)
            + "}\n"@,
        WriteMode::Overwrite => "{\n  \"label\": "@ + json_str_of(m.label@)
            + ",\n  \"revision\": "@ + json_revision(m.revision) + ",\n  \"timestamp\": "@
            + json_str_of(m.timestamp@) + "\n}"@,
    }
}

/// What a file holds after `text` is written to it in the given mode.
pub open spec fn file_after(mode: WriteMode, old: Seq<char>, text: Seq<char>) -> Seq<char> {
    match mode {
        WriteMode::Overwrite => text,
        WriteMode::Append => old + text,
    }
}

/// Whether `t` is one line with its ending: no line feed but the last, and no
/// carriage return before it.
pub open spec fn is_line(t: Seq<char>) -> bool {
    &&& t.len() >= 2
    &&& t.last() == '\n'
    &&& t[t.len() - 2] != '\r'
    &&& forall|i: int| 0 <= i < t.len() - 1 ==> t[i] != '\n'
}

proof fn lemma_absent_concat(a: Seq<char>, b: Seq<char>, c: char)
    requires
        !a.contains(c),
        !b.contains(c),
    ensures
        !(a + b).contains(c),
{
    if (a + b).contains(c) {
        let i = choose|i: int| 0 <= i < (a + b).len() && (a + b)[i] == c;
        if i < a.len() {
            assert(a[i] == c);
        } else {
            assert(b[i - a.len()] == c);
        }
    }
}

proof fn lemma_split_nl_nonempty(s: Seq<char>)
    ensures
        split_nl(s).len() >= 1,
    decreases s.len(),
{
    if s.len() > 0 {
        lemma_split_nl_nonempty(s.drop_last());
    }
}

proof fn lemma_split_nl_extend(a: Seq<char>, b: Seq<char>)
    requires
        !b.contains('\n'),
    ensures
        split_nl(a + b) == split_nl(a).update(split_nl(a).len() - 1, split_nl(a).last() + b),
    decreases b.len(),
{
    lemma_split_nl_nonempty(a);
    let p = split_nl(a);
    if b.len() == 0 {
        assert(a + b =~= a);
        assert(p.last() + b =~= p.last());
        assert(p.update(p.len() - 1, p.last() + b) =~= p);
    } else {
        let bi = b.drop_last();
        assert(!bi.contains('\n')) by {
            if bi.contains('\n') {
                let i = choose|i: int| 0 <= i < bi.len() && bi[i] == '\n';
                assert(b[i] == '\n');
            }
        }
        lemma_split_nl_extend(a, bi);
        assert((a + b).drop_last() =~= a + bi);
        assert(b[b.len() - 1] != '\n');
        assert((a + b).last() == b.last());
        assert((p.last() + bi).push(b.last()) =~= p.last() + b);
        assert(split_nl(a + b) =~= p.update(p.len() - 1, p.last() + b));
    }
}

/// Adding a line to a text that is empty or ends a line adds exactly that
/// line to its lines.
proof fn lemma_lines_push(a: Seq<char>, t: Seq<char>)
    requires
        is_line(t),
        a.len() == 0 || a.last() == '\n',
    ensures
        lines_of(a + t) == lines_of(a).push(t.drop_last()),
{
    let body = t.drop_last();
    assert(!body.contains('\n')) by {
        if body.contains('\n') {
            let i = choose|i: int| 0 <= i < body.len() && body[i] == '\n';
            assert(t[i] == '\n');
        }
    }
    lemma_split_nl_extend(a, body);
    lemma_split_nl_nonempty(a);
    let p = split_nl(a);
    if a.len() == 0 {
        assert(p =~= seq![Seq::<char>::empty()]);
    }
    assert(p.last() =~= Seq::<char>::empty());
    assert((a + body).push('\n') =~= a + t);
    assert((a + t).drop_last() =~= a + body);
    let q = split_nl(a + t);
    assert(q == split_nl(a + body).push(Seq::<char>::empty()));
    assert(p.last() + body =~= body);
    assert(body.last() == t[t.len() - 2]);
    assert(strip_cr(body) == body);
    assert(lines_of(a + t) =~= lines_of(a).push(body));
}

proof fn lemma_json_escaped_no_newline(s: Seq<char>)
    ensures
        !json_escaped(s).contains('\n'),
    decreases s.len(),
{
    if s.len() > 0 {
        lemma_json_escaped_no_newline(s.drop_last());
        let e = json_escape(s.last());
        assert(!e.contains('\n')) by {
            if e.contains('\n') {
                let i = choose|i: int| 0 <= i < e.len() && e[i] == '\n';
                let n = (s.last() as u32) as int;
                if (s.last() as u32) < 0x20 && s.last() != '\u{8}' && s.last() != '\t'
                    && s.last() != '\n' && s.last() != '\u{c}' && s.last() != '\r'
                    && s.last() != '"' && s.last() != '\\' {
                    assert(0 <= n / 16 < 16 && 0 <= n % 16 < 16);
                }
            }
        }
        lemma_absent_concat(json_escaped(s.drop_last()), e, '\n');
    }
}

proof fn lemma_json_str_no_newline(s: Seq<char>)
    ensures
        !json_str_of(s).contains('\n'),
{
    lemma_json_escaped_no_newline(s);
    let q = seq!['"'];
    assert(!q.contains('\n')) by {
        if q.contains('\n') {
            let i = choose|i: int| 0 <= i < q.len() && q[i] == '\n';
        }
    }
    lemma_absent_concat(q, json_escaped(s), '\n');
    lemma_absent_concat(q + json_escaped(s), q, '\n');
}

/// Relies on `serde_json::to_string` on a `str`: the escaped characters
/// between quotes, by serde_json's escape table. Writing into a `Vec` cannot
/// fail.
#[verifier::external_body]
fn json_string(s: &str) -> (r: String)
    ensures
        r@ == json_str_of(s@),
{
    match serde_json::to_string(s) {
        Ok(t) => t,
        Err(_) => String::new(),
    }
}

/// Relies on `chrono::Local::now` and `DateTime::to_rfc3339`: the time now, in
/// local time, written as RFC 3339 with the offset as `+HH:MM` or `-HH:MM`.
#[verifier::external_body]
fn now_rfc3339() -> (r: String)
    ensures
        is_rfc3339(r@),
{
    chrono::Local::now().to_rfc3339()
}

/// Whether `s` ends with `suf`.
fn ends_with(s: &str, suf: &str) -> (r: bool)
    ensures
        r == has_suffix(s@, suf@),
{
    let n = s.unicode_len();
    let k = suf.unicode_len();
    if k > n {
        return false;
    }
    let mut i: usize = 0;
    while i < k
        invariant
            n == s@.len(),
            k == suf@.len(),
            k <= n,
            i <= k,
            forall|j: int| 0 <= j < i ==> s@[n - k + j] == #[trigger] suf@[j],
        decreases k - i,
    {
        if s.get_char(n - k + i) != suf.get_char(i) {
            assert(s@.subrange(n - k, n as int)[i as int] != suf@[i as int]);
            return false;
        }
        i += 1;
    }
    assert(s@.subrange(n - k, n as int) =~= suf@);
    true
}

/// The file to write for a requested name, and how to write it.
pub fn write_target(filename: &str) -> (r: (String, WriteMode))
    ensures
        r.0@ == path_for(filename@),
        r.1 == mode_for(filename@),
{
    let jsonl = ends_with(filename, ".jsonl");
    let json = ends_with(filename, ".json");
    let mut path = String::from_str(filename);
    if !jsonl && !json {
        path.append(".json");
    }
    if jsonl {
        (path, WriteMode::Append)
    } else {
        (path, WriteMode::Overwrite)
    }
}

/// Adds a JSON revision value to `out`.
fn append_revision(out: &mut String, rev: &Option<String>)
    ensures
        final(out)@ == old(out)@ + json_revision(*rev),
        !json_revision(*rev).contains('\n'),
{
    match rev {
        Some(r) => {
            let q = json_string(r.as_str());
            proof {
                lemma_json_str_no_newline(r@);
            }
            out.append(q.as_str());
        },
        None => {
            out.append("null");
            proof {
                reveal_strlit("null");
            }
        },
    }
}

impl MetaData {
    /// A record of `label` and `revision`, stamped with the time now.
    pub fn stamped(label: &str, revision: Option<String>) -> (r: MetaData)
        ensures
            r.label@ == label@,
            r.revision == revision,
            is_rfc3339(r.timestamp@),
    {
        MetaData { label: String::from_str(label), revision, timestamp: now_rfc3339() }
    }

    /// The record as it is written to a file of the given mode.
    pub fn render(&self, mode: WriteMode) -> (r: String)
        ensures
            r@ == record_text(*self, mode),
            mode == WriteMode::Append ==> is_line(r@),
    {
        let label = json_string(self.label.as_str());
        let stamp = json_string(self.timestamp.as_str());
        proof {
            lemma_json_str_no_newline(self.label@);
            lemma_json_str_no_newline(self.timestamp@);
        }
        let mut out = String::new();
        match mode {
            WriteMode::Append => {
                out.append("{\"label\":");
                out.append(label.as_str());
                out.append(",\"revision\":");
                append_revision(&mut out, &self.revision);
                out.append(",\"timestamp\":");
                out.append(stamp.as_str());
                proof {
                    reveal_strlit("{\"label\":");
                    reveal_strlit(",\"revision\":");
                    reveal_strlit(",\"timestamp\":");
                    let rev = json_revision(self.revision);
                    let l1 = "{\"label\":"@;
                    let l2 = ",\"revision\":"@;
                    let l3 = ",\"timestamp\":"@;
                    assert(!l1.contains('\n'));
                    assert(!l2.contains('\n'));
                    assert(!l3.contains('\n'));
                    lemma_absent_concat(l1, label@, '\n');
                    lemma_absent_concat(l1 + label@, l2, '\n');
                    lemma_absent_concat(l1 + label@ + l2, rev, '\n');
                    lemma_absent_concat(l1 + label@ + l2 + rev, l3, '\n');
                    lemma_absent_concat(l1 + label@ + l2 + rev + l3, stamp@, '\n');
                }
                let ghost body = out@;
                out.append("}\n");
                proof {
                    reveal_strlit("}\n");
                    let t = out@;
                    assert(t =~= body + seq!['}', '\n']);
                    assert forall|i: int| 0 <= i < t.len() - 1 implies t[i] != '\n' by {
                        if i < body.len() {
                            assert(t[i] == body[i]);
                        }
                    }
                }
            },
            WriteMode::Overwrite => {
                out.append("{\n  \"label\": ");
                out.append(label.as_str());
                out.append(",\n  \"revision\": ");
                append_revision(&mut out, &self.revision);
                out.append(",\n  \"timestamp\": ");
                out.append(stamp.as_str());
                out.append("\n}");
            },
        }
        out
    }
}

/// What a file that held `old` holds after `text` is written to it in `mode`.
pub fn updated_contents(mode: WriteMode, old: &str, text: &str) -> (r: String)
    ensures
        r@ == file_after(mode, old@, text@),
{
    match mode {
        WriteMode::Overwrite => String::from_str(text),
        WriteMode::Append => {
            let mut out = String::from_str(old);
            out.append(text);
            out
        },
    }
}

} // verus!

verus! {

proof fn lemma_json_not_jsonl(f: Seq<char>)
    requires
        has_suffix(f, ".json"@),
    ensures
        !has_suffix(f, ".jsonl"@),
{
    reveal_strlit(".json");
    reveal_strlit(".jsonl");
    if has_suffix(f, ".jsonl"@) {
        assert(f.subrange(f.len() - 6, f.len() as int)[5] == f[f.len() - 1]);
        assert(f.subrange(f.len() - 5, f.len() as int)[4] == f[f.len() - 1]);
    }
}

/// Writing two records to a file named `*.json` overwrites it: it is written
/// under its own name, and only the second record is left.
pub proof fn lemma_overwrite_keeps_last(
    filename: Seq<char>,
    old: Seq<char>,
    first: MetaData,
    second: MetaData,
)
    requires
        has_suffix(filename, ".json"@),
    ensures
        mode_for(filename) == WriteMode::Overwrite,
        path_for(filename) == filename,
        file_after(
            mode_for(filename),
            file_after(mode_for(filename), old, record_text(first, mode_for(filename))),
            record_text(second, mode_for(filename)),
        ) == record_text(second, WriteMode::Overwrite),
{
    lemma_json_not_jsonl(filename);
}

/// Writing two records to a file named `*.jsonl` appends: it is written under
/// its own name, and when it was empty or ended a line, it keeps what it held
/// and gains each record as a line of its own. `first` and `second` are the
/// records as `MetaData::render` gives them for appending, which are lines.
pub proof fn lemma_append_adds_lines(
    filename: Seq<char>,
    old: Seq<char>,
    first: Seq<char>,
    second: Seq<char>,
)
    requires
        has_suffix(filename, ".jsonl"@),
        is_line(first),
        is_line(second),
        old.len() == 0 || old.last() == '\n',
    ensures
        mode_for(filename) == WriteMode::Append,
        path_for(filename) == filename,
        file_after(mode_for(filename), file_after(mode_for(filename), old, first), second)
            == old + first + second,
        lines_of(old + first + second) == lines_of(old).push(first.drop_last()).push(
            second.drop_last(),
        ),
{
    lemma_lines_push(old, first);
    assert((old + first).last() == '\n');
    lemma_lines_push(old + first, second);
}

} // verus!
