//! Tag patterns of the form `OPEN[^>]*?>(LEAD BODY)CLOSE`, matched leftmost-first
//! with lazy repetition, over a window `[.., hi)` of a character sequence.
//!
//! A pattern has an opening literal (such as `<li`), then the rest of the tag up to
//! and including the first `>`, then a captured group, then a closing literal (such
//! as `</li>`). The group may have to start with a character of a given class, its
//! body may have to hold at least one character, and, unless the pattern lets `.`
//! match any character, the body may hold no newline. The group ends at the first
//! occurrence of the closing literal that these conditions allow.
use vstd::prelude::*;

verus! {

/// The class that the first character of the captured group must belong to.
#[derive(Clone, Copy, PartialEq, Eq, Structural, Debug)]
pub enum Lead {
    /// No constraint: the group starts directly with its body.
    Free,
    /// One character that is neither `<` nor `>`.
    NotAngle,
    /// One character among `a`..=`z` and `.`.
    LowerOrDot,
}

/// The meaning of a tag pattern.
pub struct TagSpec {
    pub open: Seq<char>,
    pub lead: Lead,
    pub body_min: nat,
    pub dot_all: bool,
    pub close: Seq<char>,
}

/// A tag pattern that can be run.
pub struct TagPattern {
    pub open: Vec<char>,
    pub lead: Lead,
    pub body_min: usize,
    pub dot_all: bool,
    pub close: Vec<char>,
}

impl View for TagPattern {
    type V = TagSpec;

    open spec fn view(&self) -> TagSpec {
        TagSpec {
            open: self.open@,
            lead: self.lead,
            body_min: self.body_min as nat,
            dot_all: self.dot_all,
            close: self.close@,
        }
    }
}

/// `lit` occurs in `s` at `i`, inside the window that ends at `hi`.
pub open spec fn lit_at(s: Seq<char>, hi: int, i: int, lit: Seq<char>) -> bool {
    &&& 0 <= i
    &&& i + lit.len() <= hi
    &&& forall|k: int| 0 <= k < lit.len() ==> s[i + k] == lit[k]
}

/// The first index at or after `from` and before `hi` that holds `c`.
pub open spec fn first_char(s: Seq<char>, hi: int, from: int, c: char) -> Option<int>
    decreases hi - from,
{
    if from >= hi {
        None
    } else if s[from] == c {
        Some(from)
    } else {
        first_char(s, hi, from + 1, c)
    }
}

/// The first index at or after `from` where `lit` occurs inside the window.
pub open spec fn first_lit(s: Seq<char>, hi: int, from: int, lit: Seq<char>) -> Option<int>
    decreases hi - from,
{
    if from >= hi || from + lit.len() > hi {
        None
    } else if lit_at(s, hi, from, lit) {
        Some(from)
    } else {
        first_lit(s, hi, from + 1, lit)
    }
}

/// Some character of `[a, b)` is a newline.
pub open spec fn has_newline(s: Seq<char>, a: int, b: int) -> bool {
    exists|k: int| a <= k < b && s[k] == '\n'
}

pub open spec fn lead_allows(lead: Lead, c: char) -> bool {
    match lead {
        Lead::Free => true,
        Lead::NotAngle => c != '<' && c != '>',
        Lead::LowerOrDot => ('a' <= c <= 'z') || c == '.',
    }
}

pub open spec fn lead_width(lead: Lead) -> int {
    if lead is Free {
        0
    } else {
        1
    }
}

/// The captured group `(start, end)` of the match that starts at `i`, if one does.
pub open spec fn match_at(p: TagSpec, s: Seq<char>, hi: int, i: int) -> Option<(int, int)> {
    if !lit_at(s, hi, i, p.open) {
        None
    } else {
        match first_char(s, hi, i + p.open.len(), '>') {
            None => None,
            Some(g) => {
                let gs = g + 1;
                let bs = gs + lead_width(p.lead);
                if p.lead !is Free && !(gs < hi && lead_allows(p.lead, s[gs])) {
                    None
                } else {
                    match first_lit(s, hi, bs + p.body_min, p.close) {
                        None => None,
                        Some(j) => if !p.dot_all && has_newline(s, bs, j) {
                            None
                        } else {
                            Some((gs, j))
                        },
                    }
                }
            },
        }
    }
}

/// The leftmost match that starts at or after `from`: `(start, group start, group end)`.
pub open spec fn first_match(p: TagSpec, s: Seq<char>, hi: int, from: int) -> Option<
    (int, int, int),
>
    decreases hi - from,
{
    if from >= hi {
        None
    } else {
        match match_at(p, s, hi, from) {
            Some((gs, ge)) => Some((from, gs, ge)),
            None => first_match(p, s, hi, from + 1),
        }
    }
}

/// The groups of the successive matches from `from` on: each search resumes where
/// the previous match ended, as `Regex::captures_iter` does.
pub open spec fn captures(p: TagSpec, s: Seq<char>, hi: int, from: int) -> Seq<(int, int)>
    decreases hi - from,
    via captures_decreases
{
    if from >= hi {
        Seq::empty()
    } else {
        match first_match(p, s, hi, from) {
            None => Seq::empty(),
            Some((i, gs, ge)) => seq![(gs, ge)] + captures(p, s, hi, ge + p.close.len()),
        }
    }
}

#[via_fn]
proof fn captures_decreases(p: TagSpec, s: Seq<char>, hi: int, from: int) {
    if from < hi {
        if let Some((i, gs, ge)) = first_match(p, s, hi, from) {
            lemma_first_match(p, s, hi, from);
        }
    }
}

proof fn lemma_first_char(s: Seq<char>, hi: int, from: int, c: char)
    ensures
        first_char(s, hi, from, c) matches Some(g) ==> from <= g < hi && s[g] == c,
    decreases hi - from,
{
    if from < hi && s[from] != c {
        lemma_first_char(s, hi, from + 1, c);
    }
}

proof fn lemma_first_lit(s: Seq<char>, hi: int, from: int, lit: Seq<char>)
    ensures
        first_lit(s, hi, from, lit) matches Some(j) ==> from <= j && lit_at(s, hi, j, lit),
    decreases hi - from,
{
    if !(from >= hi || from + lit.len() > hi) && !lit_at(s, hi, from, lit) {
        lemma_first_lit(s, hi, from + 1, lit);
    }
}

/// Where a match lies: it starts with the opening literal, its group follows the
/// first `>` after it, and the closing literal follows the group inside the window.
pub proof fn lemma_match_at(p: TagSpec, s: Seq<char>, hi: int, i: int)
    ensures
        match_at(p, s, hi, i) matches Some((gs, ge)) ==> {
            &&& lit_at(s, hi, i, p.open)
            &&& i + p.open.len() < gs <= ge
            &&& s[gs - 1] == '>'
            &&& lit_at(s, hi, ge, p.close)
        },
{
    if lit_at(s, hi, i, p.open) {
        lemma_first_char(s, hi, i + p.open.len(), '>');
        if let Some(g) = first_char(s, hi, i + p.open.len(), '>') {
            let bs = g + 1 + lead_width(p.lead);
            lemma_first_lit(s, hi, bs + p.body_min, p.close);
        }
    }
}

/// The leftmost match from `from` starts at or after `from` and is a match there.
pub proof fn lemma_first_match(p: TagSpec, s: Seq<char>, hi: int, from: int)
    ensures
        first_match(p, s, hi, from) matches Some((i, gs, ge)) ==> {
            &&& from <= i < hi
            &&& match_at(p, s, hi, i) == Some((gs, ge))
            &&& i < gs <= ge
            &&& ge + p.close.len() <= hi
        },
    decreases hi - from,
{
    if from < hi {
        lemma_match_at(p, s, hi, from);
        if match_at(p, s, hi, from) is None {
            lemma_first_match(p, s, hi, from + 1);
        }
    }
}


/// The captured groups of successive matches lie inside the window, after `from`,
/// in increasing order, and do not overlap: each one ends before the next starts.
pub proof fn lemma_captures_ordered(p: TagSpec, s: Seq<char>, hi: int, from: int)
    ensures
        forall|k: int|
            0 <= k < captures(p, s, hi, from).len() ==> from < (#[trigger] captures(
                p,
                s,
                hi,
                from,
            )[k]).0 <= captures(p, s, hi, from)[k].1 && captures(p, s, hi, from)[k].1
                + p.close.len() <= hi,
        forall|k: int|
            0 <= k < captures(p, s, hi, from).len() - 1 ==> (#[trigger] captures(
                p,
                s,
                hi,
                from,
            )[k]).1 < captures(p, s, hi, from)[k + 1].0,
    decreases hi - from,
{
    if from < hi {
        lemma_first_match(p, s, hi, from);
        if let Some((i, gs, ge)) = first_match(p, s, hi, from) {
            let e = ge + p.close.len();
            lemma_captures_ordered(p, s, hi, e);
            let rest = captures(p, s, hi, e);
            let all = captures(p, s, hi, from);
            assert(all == seq![(gs, ge)] + rest);
            assert forall|k: int| 0 <= k < all.len() - 1 implies (#[trigger] all[k]).1 < all[k
                + 1].0 by {
                if k > 0 {
                    assert(all[k] == rest[k - 1]);
                    assert(all[k + 1] == rest[k]);
                } else {
                    assert(all[1] == rest[0]);
                }
            }
            assert forall|k: int| 0 <= k < all.len() implies from < (#[trigger] all[k]).0 <= all[k].1
                && all[k].1 + p.close.len() <= hi by {
                if k > 0 {
                    assert(all[k] == rest[k - 1]);
                }
            }
        }
    }
}

/// A search finds the leftmost match: no match starts between `from` and the
/// start of the match found, and when none is found, none starts anywhere in the
/// window from `from` on.
pub proof fn lemma_first_match_leftmost(p: TagSpec, s: Seq<char>, hi: int, from: int)
    ensures
        first_match(p, s, hi, from) matches Some((i, gs, ge)) ==> forall|j: int|
            from <= j < i ==> #[trigger] match_at(p, s, hi, j) is None,
        first_match(p, s, hi, from) is None ==> forall|j: int|
            from <= j < hi ==> #[trigger] match_at(p, s, hi, j) is None,
    decreases hi - from,
{
    if from < hi && match_at(p, s, hi, from) is None {
        lemma_first_match_leftmost(p, s, hi, from + 1);
    }
}

/// Repetition is lazy: the group of a match ends at the first closing literal
/// that its body may reach, so no closing literal starts earlier in the body.
pub proof fn lemma_group_ends_at_first_close(p: TagSpec, s: Seq<char>, hi: int, i: int)
    ensures
        match_at(p, s, hi, i) matches Some((gs, ge)) ==> forall|j: int|
            gs + lead_width(p.lead) + p.body_min <= j < ge ==> !#[trigger] lit_at(s, hi, j, p.close),
{
    if let Some((gs, ge)) = match_at(p, s, hi, i) {
        lemma_first_lit_first(s, hi, gs + lead_width(p.lead) + p.body_min, p.close);
    }
}

proof fn lemma_first_lit_first(s: Seq<char>, hi: int, from: int, lit: Seq<char>)
    ensures
        first_lit(s, hi, from, lit) matches Some(j) ==> forall|k: int|
            from <= k < j ==> !#[trigger] lit_at(s, hi, k, lit),
    decreases hi - from,
{
    if !(from >= hi || from + lit.len() > hi) && !lit_at(s, hi, from, lit) {
        lemma_first_lit_first(s, hi, from + 1, lit);
    }
}

proof fn lemma_first_char_iff(s: Seq<char>, hi: int, from: int, c: char, g: int)
    ensures
        first_char(s, hi, from, c) == Some(g) <==> (from <= g < hi && s[g] == c && forall|k: int|
            from <= k < g ==> s[k] != c),
    decreases hi - from,
{
    if from < hi && s[from] != c {
        lemma_first_char_iff(s, hi, from + 1, c, g);
    }
}

proof fn lemma_first_lit_iff(s: Seq<char>, hi: int, from: int, lit: Seq<char>, j: int)
    ensures
        first_lit(s, hi, from, lit) == Some(j) <==> (from <= j < hi && lit_at(s, hi, j, lit)
            && forall|k: int| from <= k < j ==> !#[trigger] lit_at(s, hi, k, lit)),
    decreases hi - from,
{
    if !(from >= hi || from + lit.len() > hi) && !lit_at(s, hi, from, lit) {
        lemma_first_lit_iff(s, hi, from + 1, lit, j);
        if from <= j < hi && lit_at(s, hi, j, lit) && forall|k: int|
            from + 1 <= k < j ==> !#[trigger] lit_at(s, hi, k, lit) {
            assert forall|k: int| from <= k < j implies !#[trigger] lit_at(s, hi, k, lit) by {
                if k == from {
                } else {
                }
            }
        }
    } else if from < hi && from + lit.len() > hi {
        if from <= j < hi && lit_at(s, hi, j, lit) {
            assert(lit_at(s, hi, from, lit) == false);
            if j > from {
                assert(j + lit.len() <= hi);
            }
        }
    }
}

/// What a match is, character by character. A match of `p` that starts at `i` has
/// group `[gs, ge)` exactly when: the opening literal stands at `i`; the character
/// before `gs` is the first `>` after the opening literal; where the pattern asks
/// for a lead character, the one at `gs` is of its class; the closing literal
/// stands at `ge`, at least `body_min` characters into the body, and nowhere
/// earlier in the body; and, unless `.` matches anything, the group's body holds no
/// newline.
pub proof fn lemma_match_at_iff(p: TagSpec, s: Seq<char>, hi: int, i: int, gs: int, ge: int)
    ensures
        match_at(p, s, hi, i) == Some((gs, ge)) <==> {
            &&& lit_at(s, hi, i, p.open)
            &&& i + p.open.len() < gs <= hi
            &&& s[gs - 1] == '>'
            &&& forall|k: int| i + p.open.len() <= k < gs - 1 ==> s[k] != '>'
            &&& p.lead is Free || (gs < hi && lead_allows(p.lead, s[gs]))
            &&& gs + lead_width(p.lead) + p.body_min <= ge < hi
            &&& lit_at(s, hi, ge, p.close)
            &&& forall|k: int|
                gs + lead_width(p.lead) + p.body_min <= k < ge ==> !#[trigger] lit_at(
                    s,
                    hi,
                    k,
                    p.close,
                )
            &&& p.dot_all || forall|k: int| gs + lead_width(p.lead) <= k < ge ==> s[k] != '\n'
        },
{
    let from = i + p.open.len();
    lemma_first_char_iff(s, hi, from, '>', gs - 1);
    lemma_first_char(s, hi, from, '>');
    if let Some(g) = first_char(s, hi, from, '>') {
        lemma_first_char_iff(s, hi, from, '>', g);
        let bs = g + 1 + lead_width(p.lead);
        lemma_first_lit_iff(s, hi, bs + p.body_min, p.close, ge);
        lemma_first_lit(s, hi, bs + p.body_min, p.close);
        if let Some(j) = first_lit(s, hi, bs + p.body_min, p.close) {
            lemma_first_lit_iff(s, hi, bs + p.body_min, p.close, j);
        }
    }
}

/// An optional index as a mathematical integer.
pub open spec fn as_int(o: Option<usize>) -> Option<int> {
    match o {
        Some(j) => Some(j as int),
        None => None,
    }
}

fn lit_here(s: &Vec<char>, hi: usize, i: usize, lit: &Vec<char>) -> (b: bool)
    requires
        hi <= s@.len(),
    ensures
        b == lit_at(s@, hi as int, i as int, lit@),
{
    if lit.len() > hi || i > hi - lit.len() {
        return false;
    }
    let mut k: usize = 0;
    while k < lit.len()
        invariant
            k <= lit@.len(),
            i + lit@.len() <= hi <= s@.len(),
            forall|m: int| 0 <= m < k ==> s@[i + m] == lit@[m],
        decreases lit@.len() - k,
    {
        if s[i + k] != lit[k] {
            return false;
        }
        k = k + 1;
    }
    true
}

fn find_char(s: &Vec<char>, hi: usize, from: usize, c: char) -> (r: Option<usize>)
    requires
        hi <= s@.len(),
    ensures
        as_int(r) == first_char(s@, hi as int, from as int, c),
{
    let mut j = from;
    while j < hi
        invariant
            from <= j,
            hi <= s@.len(),
            first_char(s@, hi as int, j as int, c) == first_char(s@, hi as int, from as int, c),
        decreases hi - j,
    {
        if s[j] == c {
            return Some(j);
        }
        j = j + 1;
    }
    None
}

fn find_lit(s: &Vec<char>, hi: usize, from: usize, lit: &Vec<char>) -> (r: Option<usize>)
    requires
        hi <= s@.len(),
    ensures
        as_int(r) == first_lit(s@, hi as int, from as int, lit@),
{
    let mut j = from;
    while j < hi && lit.len() <= hi - j
        invariant
            from <= j,
            hi <= s@.len(),
            first_lit(s@, hi as int, j as int, lit@) == first_lit(s@, hi as int, from as int, lit@),
        decreases hi - j,
    {
        if lit_here(s, hi, j, lit) {
            return Some(j);
        }
        j = j + 1;
    }
    None
}

fn newline_within(s: &Vec<char>, a: usize, b: usize) -> (r: bool)
    requires
        b <= s@.len(),
    ensures
        r == has_newline(s@, a as int, b as int),
{
    let mut k = a;
    while k < b
        invariant
            a <= k,
            b <= s@.len(),
            forall|m: int| a <= m < k ==> s@[m] != '\n',
        decreases b - k,
    {
        if s[k] == '\n' {
            assert(a <= k < b && s@[k as int] == '\n');
            return true;
        }
        k = k + 1;
    }
    false
}

fn lead_accepts(lead: Lead, c: char) -> (r: bool)
    ensures
        r == lead_allows(lead, c),
{
    match lead {
        Lead::Free => true,
        Lead::NotAngle => c != '<' && c != '>',
        Lead::LowerOrDot => ('a' <= c && c <= 'z') || c == '.',
    }
}

/// The group of the match that starts at `i`, if one does.
pub fn match_here(p: &TagPattern, s: &Vec<char>, hi: usize, i: usize) -> (r: Option<(usize, usize)>)
    requires
        hi <= s@.len(),
    ensures
        match r {
            Some((gs, ge)) => match_at(p@, s@, hi as int, i as int) == Some((gs as int, ge as int)),
            None => match_at(p@, s@, hi as int, i as int) is None,
        },
{
    if !lit_here(s, hi, i, &p.open) {
        return None;
    }
    let g = match find_char(s, hi, i + p.open.len(), '>') {
        None => return None,
        Some(g) => g,
    };
    proof {
        lemma_first_char(s@, hi as int, i + p.open@.len(), '>');
    }
    let gs = g + 1;
    let bs = match p.lead {
        Lead::Free => gs,
        _ => {
            if !(gs < hi && lead_accepts(p.lead, s[gs])) {
                return None;
            }
            gs + 1
        },
    };
    if p.body_min > hi - bs {
        assert(first_lit(s@, hi as int, bs + p.body_min, p.close@) is None);
        return None;
    }
    let j = match find_lit(s, hi, bs + p.body_min, &p.close) {
        None => return None,
        Some(j) => j,
    };
    proof {
        lemma_first_lit(s@, hi as int, bs + p.body_min, p.close@);
    }
    if !p.dot_all && newline_within(s, bs, j) {
        return None;
    }
    Some((gs, j))
}


/// The leftmost match that starts at or after `from`.
pub fn find_match(p: &TagPattern, s: &Vec<char>, hi: usize, from: usize) -> (r: Option<
    (usize, usize, usize),
>)
    requires
        hi <= s@.len(),
    ensures
        match r {
            Some((i, gs, ge)) => first_match(p@, s@, hi as int, from as int) == Some(
                (i as int, gs as int, ge as int),
            ),
            None => first_match(p@, s@, hi as int, from as int) is None,
        },
{
    let mut i = from;
    while i < hi
        invariant
            from <= i,
            hi <= s@.len(),
            first_match(p@, s@, hi as int, i as int) == first_match(p@, s@, hi as int, from as int),
        decreases hi - i,
    {
        if let Some((gs, ge)) = match_here(p, s, hi, i) {
            return Some((i, gs, ge));
        }
        i = i + 1;
    }
    None
}

/// Index pairs as mathematical integers.
pub open spec fn pairs(v: Seq<(usize, usize)>) -> Seq<(int, int)> {
    v.map_values(|x: (usize, usize)| (x.0 as int, x.1 as int))
}

/// The groups of all successive matches from `from` on.
pub fn capture_all(p: &TagPattern, s: &Vec<char>, hi: usize, from: usize) -> (r: Vec<
    (usize, usize),
>)
    requires
        hi <= s@.len(),
    ensures
        pairs(r@) == captures(p@, s@, hi as int, from as int),
{
    let mut out: Vec<(usize, usize)> = Vec::new();
    let mut pos = from;
    let mut done = false;
    while !done && pos < hi
        invariant
            hi <= s@.len(),
            done ==> captures(p@, s@, hi as int, pos as int) == Seq::<(int, int)>::empty(),
            captures(p@, s@, hi as int, from as int) == pairs(out@) + captures(
                p@,
                s@,
                hi as int,
                pos as int,
            ),
        decreases hi - pos + if done { 0int } else { 1int },
    {
        match find_match(p, s, hi, pos) {
            None => {
                done = true;
            },
            Some((i, gs, ge)) => {
                proof {
                    lemma_first_match(p@, s@, hi as int, pos as int);
                }
                let ghost old_out = out@;
                out.push((gs, ge));
                assert(pairs(out@) == pairs(old_out) + seq![(gs as int, ge as int)]);
                pos = ge + p.close.len();
            },
        }
    }
    if !done {
        assert(captures(p@, s@, hi as int, pos as int) == Seq::<(int, int)>::empty());
    }
    assert(pairs(out@) + Seq::<(int, int)>::empty() == pairs(out@));
    out
}

} // verus!
