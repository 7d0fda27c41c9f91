use vstd::prelude::*;

verus! {

broadcast use vstd::string::group_string_axioms;

/// The characters of a string, in order.
pub fn chars_of(s: &str) -> (v: Vec<char>)
    ensures
        v@ == s@,
{
    let mut v: Vec<char> = Vec::new();
    for c in it: s.chars()
        invariant
            it.seq() == s@,
            v@ == it.seq().take(it.index()),
    {
        v.push(c);
    }
    v
}

/// Gathers characters into a `String` (`String::from_iter`); the string holds
/// exactly those characters, in order.
#[verifier::external_body]
pub(crate) fn string_of(v: &Vec<char>) -> (s: String)
    ensures
        s@ == v@,
{
    String::from_iter(v.iter())
}

/// Unicode `White_Space`, the characters that `char::is_whitespace` accepts.
pub open spec fn is_white_space(c: char) -> bool {
    ||| '\u{9}' <= c <= '\u{d}'
    ||| c == ' '
    ||| c == '\u{85}'
    ||| c == '\u{a0}'
    ||| c == '\u{1680}'
    ||| '\u{2000}' <= c <= '\u{200a}'
    ||| c == '\u{2028}'
    ||| c == '\u{2029}'
    ||| c == '\u{202f}'
    ||| c == '\u{205f}'
    ||| c == '\u{3000}'
}

pub fn white_space(c: char) -> (b: bool)
    ensures
        b == is_white_space(c),
{
    ('\u{9}' <= c && c <= '\u{d}') || c == ' ' || c == '\u{85}' || c == '\u{a0}' || c
        == '\u{1680}' || ('\u{2000}' <= c && c <= '\u{200a}') || c == '\u{2028}' || c
        == '\u{2029}' || c == '\u{202f}' || c == '\u{205f}' || c == '\u{3000}'
}

/// Start of the window `[lo, hi)` of `s` once leading white space is dropped.
pub open spec fn trim_start(s: Seq<char>, lo: int, hi: int) -> int
    decreases hi - lo,
{
    if lo < hi && is_white_space(s[lo]) {
        trim_start(s, lo + 1, hi)
    } else {
        lo
    }
}

/// End of the window `[lo, hi)` of `s` once trailing white space is dropped.
pub open spec fn trim_end(s: Seq<char>, lo: int, hi: int) -> int
    decreases hi - lo,
{
    if lo < hi && is_white_space(s[hi - 1]) {
        trim_end(s, lo, hi - 1)
    } else {
        hi
    }
}

/// The window `[lo, hi)` of `s` without white space at either end, as `str::trim` gives it.
pub open spec fn trimmed(s: Seq<char>, lo: int, hi: int) -> (int, int) {
    let a = trim_start(s, lo, hi);
    (a, trim_end(s, a, hi))
}

/// Bounds of the trimmed window: inside `[lo, hi)`, and the characters cut away are white space.
pub proof fn lemma_trimmed_bounds(s: Seq<char>, lo: int, hi: int)
    requires
        lo <= hi,
    ensures
        lo <= trimmed(s, lo, hi).0 <= trimmed(s, lo, hi).1 <= hi,
        forall|k: int| lo <= k < trimmed(s, lo, hi).0 ==> is_white_space(#[trigger] s[k]),
        forall|k: int| trimmed(s, lo, hi).1 <= k < hi ==> is_white_space(#[trigger] s[k]),
        trimmed(s, lo, hi).0 < trimmed(s, lo, hi).1 ==> !is_white_space(s[trimmed(s, lo, hi).0])
            && !is_white_space(s[trimmed(s, lo, hi).1 - 1]),
    decreases hi - lo,
{
    lemma_trim_start(s, lo, hi);
    let a = trim_start(s, lo, hi);
    lemma_trim_end(s, a, hi);
}

proof fn lemma_trim_start(s: Seq<char>, lo: int, hi: int)
    requires
        lo <= hi,
    ensures
        lo <= trim_start(s, lo, hi) <= hi,
        forall|k: int| lo <= k < trim_start(s, lo, hi) ==> is_white_space(#[trigger] s[k]),
        trim_start(s, lo, hi) < hi ==> !is_white_space(s[trim_start(s, lo, hi)]),
    decreases hi - lo,
{
    if lo < hi && is_white_space(s[lo]) {
        lemma_trim_start(s, lo + 1, hi);
    }
}

proof fn lemma_trim_end(s: Seq<char>, lo: int, hi: int)
    requires
        lo <= hi,
    ensures
        lo <= trim_end(s, lo, hi) <= hi,
        forall|k: int| trim_end(s, lo, hi) <= k < hi ==> is_white_space(#[trigger] s[k]),
        lo < trim_end(s, lo, hi) ==> !is_white_space(s[trim_end(s, lo, hi) - 1]),
    decreases hi - lo,
{
    if lo < hi && is_white_space(s[hi - 1]) {
        lemma_trim_end(s, lo, hi - 1);
    }
}

/// Trimming is idempotent: a trimmed window trims to itself.
pub proof fn lemma_trimmed_idempotent(s: Seq<char>, lo: int, hi: int)
    requires
        lo <= hi,
    ensures
        trimmed(s, trimmed(s, lo, hi).0, trimmed(s, lo, hi).1) == trimmed(s, lo, hi),
{
    lemma_trimmed_bounds(s, lo, hi);
    let (a, b) = trimmed(s, lo, hi);
    if a < b {
        assert(trim_start(s, a, b) == a);
        assert(trim_end(s, a, b) == b);
    } else {
        assert(trim_start(s, a, b) == a);
        assert(trim_end(s, a, a) == a);
    }
}

/// The window `[lo, hi)` of `s` without white space at either end.
pub fn trim_window(s: &Vec<char>, lo: usize, hi: usize) -> (r: (usize, usize))
    requires
        lo <= hi <= s@.len(),
    ensures
        r.0 == trimmed(s@, lo as int, hi as int).0,
        r.1 == trimmed(s@, lo as int, hi as int).1,
        lo <= r.0 <= r.1 <= hi,
{
    proof {
        lemma_trimmed_bounds(s@, lo as int, hi as int);
    }
    let mut a = lo;
    while a < hi && white_space(s[a])
        invariant
            lo <= a <= hi <= s@.len(),
            trim_start(s@, a as int, hi as int) == trim_start(s@, lo as int, hi as int),
        decreases hi - a,
    {
        a = a + 1;
    }
    let mut b = hi;
    while a < b && white_space(s[b - 1])
        invariant
            a <= b <= hi <= s@.len(),
            trim_end(s@, a as int, b as int) == trim_end(s@, a as int, hi as int),
        decreases b - a,
    {
        b = b - 1;
    }
    (a, b)
}

/// Lines joined with a separator between each two, as `[T]::join` does.
pub open spec fn joined(lines: Seq<Seq<char>>, sep: Seq<char>) -> Seq<char>
    decreases lines.len(),
{
    if lines.len() == 0 {
        Seq::empty()
    } else if lines.len() == 1 {
        lines[0]
    } else {
        joined(lines.drop_last(), sep) + sep + lines.last()
    }
}

/// The views of a list of strings.
pub open spec fn views(lines: Seq<String>) -> Seq<Seq<char>> {
    lines.map_values(|l: String| l@)
}

/// The text that shows a list of lines: the lines joined by newlines.
pub open spec fn shown_text(lines: Seq<Seq<char>>) -> Seq<char> {
    joined(lines, seq!['\n'])
}

/// How the shown text grows: no lines show as nothing, one line as itself, and
/// each further line adds one newline and the line.
pub proof fn lemma_shown_text_steps(lines: Seq<Seq<char>>, x: Seq<char>)
    ensures
        shown_text(Seq::empty()) == Seq::<char>::empty(),
        shown_text(seq![x]) == x,
        lines.len() > 0 ==> shown_text(lines.push(x)) == shown_text(lines) + seq!['\n'] + x,
{
    assert(lines.push(x).drop_last() == lines);
}

/// The lines joined by newlines: the text that the dictionary shows for one answer.
pub fn join_lines(lines: &Vec<String>) -> (text: String)
    ensures
        text@ == shown_text(views(lines@)),
{
    let mut text = String::new();
    let ghost vs = views(lines@);
    for i in 0..lines.len()
        invariant
            vs == views(lines@),
            text@ == joined(vs.take(i as int), seq!['\n']),
    {
        let ghost before = text@;
        assert(vs[i as int] == lines@[i as int]@);
        if i != 0 {
            text.append("\n");
        }
        text.append(lines[i].as_str());
        assert(vs.take(i + 1).drop_last() == vs.take(i as int));
        proof {
            reveal_strlit("\n");
        }
        if i == 0 {
            assert(before == Seq::<char>::empty());
            assert(text@ == vs[0]);
        }
    }
    assert(vs.take(lines.len() as int) == vs);
    text
}

} // verus!
