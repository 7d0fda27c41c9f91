//! The dictionary service: the address of a look-up, the entries of its result page,
//! and the fields of its translation reply.
use vstd::prelude::*;
use crate::scan::{
    lead_allows, Lead, TagSpec, TagPattern, captures, first_match, capture_all, find_match, pairs,
    lemma_captures_ordered, lemma_first_match,
};
use crate::text::{chars_of, string_of, trimmed, trim_window, views};
use crate::json::{Json, lookup, field, int_of, all_strings, texts, field_of, find_field, int_field, strings_of, are_strings};
use vstd::string::StringExecFns;

verus! {

broadcast use vstd::string::group_string_axioms;

/// The colours that result lines are painted in.
#[derive(Clone, Copy, PartialEq, Eq, Structural, Debug)]
pub enum LineColour {
    White,
    Cyan,
}

/// The escape sequence that starts text in a colour.
pub open spec fn colour_code(colour: LineColour) -> Seq<char> {
    match colour {
        LineColour::White => seq!['\u{1b}', '[', '3', '7', 'm'],
        LineColour::Cyan => seq!['\u{1b}', '[', '3', '6', 'm'],
    }
}

/// The escape sequence that resets the terminal's style.
pub open spec fn reset_code() -> Seq<char> {
    seq!['\u{1b}', '[', '0', 'm']
}

/// A line as the terminal shows it in a colour.
pub open spec fn painted(colour: LineColour, line: Seq<char>) -> Seq<char> {
    colour_code(colour) + line + reset_code()
}

/// `ansi_term::Colour::paint` on the line, then `to_string`: the display of a
/// painted string is the foreground code of the colour (`ESC[37m` for white,
/// `ESC[36m` for cyan), the text, and the reset code `ESC[0m`.
#[verifier::external_body]
fn paint(colour: LineColour, line: String) -> (res: String)
    ensures
        res@ == painted(colour, line@),
{
    let c = match colour {
        LineColour::White => ansi_term::Colour::White,
        LineColour::Cyan => ansi_term::Colour::Cyan,
    };
    c.paint(line).to_string()
}

/// `<div id="phrsListTab"[^>]*?>(?s)(.*?)<div id="webTrans"`: the block of the page
/// that holds the translations of a word.
pub open spec fn phrase_list_tag() -> TagSpec {
    TagSpec {
        open: "<div id=\"phrsListTab\""@,
        lead: Lead::Free,
        body_min: 0,
        dot_all: true,
        close: "<div id=\"webTrans\""@,
    }
}

/// `<span class="keyword"[^>]*?>(?s)(.+?)</span>`: the word looked up.
pub open spec fn keyword_tag() -> TagSpec {
    TagSpec {
        open: "<span class=\"keyword\""@,
        lead: Lead::Free,
        body_min: 1,
        dot_all: true,
        close: "</span>"@,
    }
}

/// `<li[^>]*?>([^<>].*?)</li>`: a translation of an English word.
pub open spec fn item_tag() -> TagSpec {
    TagSpec { open: "<li"@, lead: Lead::NotAngle, body_min: 0, dot_all: false, close: "</li>"@ }
}

/// `<p class="wordGroup"[^>]*?>(?s)(.*?)</p>`: a group of translations of a Chinese word.
pub open spec fn word_group_tag() -> TagSpec {
    TagSpec {
        open: "<p class=\"wordGroup\""@,
        lead: Lead::Free,
        body_min: 0,
        dot_all: true,
        close: "</p>"@,
    }
}

/// `<span[^>]*?>(?s)([a-z.].+?)</span>`: the part of speech of a word group.
pub open spec fn word_class_tag() -> TagSpec {
    TagSpec {
        open: "<span"@,
        lead: Lead::LowerOrDot,
        body_min: 1,
        dot_all: true,
        close: "</span>"@,
    }
}

/// `<a[^>]*?>(?s)(.*?)</a>`: one translation in a word group.
pub open spec fn link_tag() -> TagSpec {
    TagSpec { open: "<a"@, lead: Lead::Free, body_min: 0, dot_all: true, close: "</a>"@ }
}

fn tag(open: &str, lead: Lead, body_min: usize, dot_all: bool, close: &str) -> (p: TagPattern)
    ensures
        p@ == (TagSpec { open: open@, lead, body_min: body_min as nat, dot_all, close: close@ }),
{
    TagPattern { open: chars_of(open), lead, body_min, dot_all, close: chars_of(close) }
}

/// Two spaces, the indent of every result line.
pub open spec fn indent() -> Seq<char> {
    seq![' ', ' ']
}

/// The text of a window of the page.
pub open spec fn text(s: Seq<char>, g: (int, int)) -> Seq<char> {
    s.subrange(g.0, g.1)
}

/// The line of the first match of `p` in the window, painted, or no line.
pub open spec fn first_line(p: TagSpec, s: Seq<char>, lo: int, hi: int, colour: LineColour) -> Seq<
    Seq<char>,
> {
    match first_match(p, s, hi, lo) {
        Some((i, gs, ge)) => seq![painted(colour, indent() + text(s, (gs, ge)))],
        None => Seq::empty(),
    }
}

/// Each part of speech followed by a space.
pub open spec fn word_classes(s: Seq<char>, items: Seq<(int, int)>) -> Seq<char>
    decreases items.len(),
{
    if items.len() == 0 {
        Seq::empty()
    } else {
        word_classes(s, items.drop_last()) + text(s, items.last()) + seq![' ']
    }
}

/// The line ends in `". "` or in two spaces.
pub open spec fn ends_in_break(line: Seq<char>) -> bool {
    &&& line.len() >= 2
    &&& line[line.len() - 1] == ' '
    &&& (line[line.len() - 2] == '.' || line[line.len() - 2] == ' ')
}

/// The translations appended to a line, each after `"; "` unless the line so far
/// ends in `". "` or in two spaces.
pub open spec fn with_links(line: Seq<char>, s: Seq<char>, items: Seq<(int, int)>) -> Seq<char>
    decreases items.len(),
{
    if items.len() == 0 {
        line
    } else {
        let before = with_links(line, s, items.drop_last());
        let sep = if ends_in_break(before) {
            Seq::empty()
        } else {
            seq![';', ' ']
        };
        before + sep + text(s, items.last())
    }
}

/// The line of one word group (the window `[lo, hi)` of the page): the indent, its
/// parts of speech, then its translations.
pub open spec fn word_group_line(s: Seq<char>, lo: int, hi: int) -> Seq<char> {
    let (a, b) = trimmed(s, lo, hi);
    with_links(
        indent() + word_classes(s, captures(word_class_tag(), s, b, a)),
        s,
        captures(link_tag(), s, b, a),
    )
}

/// The lines of one block of translations (the window `[lo, hi)` of the page): the
/// word in white, the first translation of an English word in cyan, then each word
/// group in cyan.
pub open spec fn entry_lines(s: Seq<char>, lo: int, hi: int) -> Seq<Seq<char>> {
    let (a, b) = trimmed(s, lo, hi);
    first_line(keyword_tag(), s, a, b, LineColour::White) + first_line(
        item_tag(),
        s,
        a,
        b,
        LineColour::Cyan,
    ) + captures(word_group_tag(), s, b, a).map_values(
        |g: (int, int)| painted(LineColour::Cyan, word_group_line(s, g.0, g.1)),
    )
}

/// The lines of successive blocks.
pub open spec fn blocks_lines(s: Seq<char>, blocks: Seq<(int, int)>) -> Seq<Seq<char>>
    decreases blocks.len(),
{
    if blocks.len() == 0 {
        Seq::empty()
    } else {
        blocks_lines(s, blocks.drop_last()) + entry_lines(s, blocks.last().0, blocks.last().1)
    }
}

/// The lines that a result page of the dictionary gives.
pub open spec fn dictionary_lines(page: Seq<char>) -> Seq<Seq<char>> {
    let (a, b) = trimmed(page, 0, page.len() as int);
    blocks_lines(page, captures(phrase_list_tag(), page, b, a))
}

/// A line as the dictionary shows it: a colour code (white or cyan), two spaces,
/// the text, and the reset code.
pub open spec fn is_shown_line(line: Seq<char>) -> bool {
    &&& line.len() >= 11
    &&& (line.take(5) == colour_code(LineColour::White) || line.take(5) == colour_code(
        LineColour::Cyan,
    ))
    &&& line.subrange(5, 7) == indent()
    &&& line.skip(line.len() - 4) == reset_code()
}

proof fn lemma_painted_shown(c: LineColour, rest: Seq<char>)
    ensures
        is_shown_line(painted(c, indent() + rest)),
{
    let line = painted(c, indent() + rest);
    assert(line.take(5) =~= colour_code(c));
    assert(line.subrange(5, 7) =~= indent());
    assert(line.skip(line.len() - 4) =~= reset_code());
}

proof fn lemma_with_links_prefix(line: Seq<char>, s: Seq<char>, items: Seq<(int, int)>)
    ensures
        with_links(line, s, items).len() >= line.len(),
        with_links(line, s, items).subrange(0, line.len() as int) == line,
    decreases items.len(),
{
    if items.len() > 0 {
        lemma_with_links_prefix(line, s, items.drop_last());
        let before = with_links(line, s, items.drop_last());
        let all = with_links(line, s, items);
        assert(all.subrange(0, line.len() as int) =~= before.subrange(0, line.len() as int));
    }
}

proof fn lemma_word_group_line_indented(s: Seq<char>, lo: int, hi: int)
    ensures
        word_group_line(s, lo, hi) == indent() + word_group_line(s, lo, hi).skip(2),
{
    let (a, b) = trimmed(s, lo, hi);
    let first = indent() + word_classes(s, captures(word_class_tag(), s, b, a));
    lemma_with_links_prefix(first, s, captures(link_tag(), s, b, a));
    let line = word_group_line(s, lo, hi);
    assert(first.subrange(0, 2) =~= indent());
    assert(line.subrange(0, first.len() as int) == first);
    assert(line[0] == first[0] && line[1] == first[1]);
    assert(line =~= indent() + line.skip(2));
}

proof fn lemma_entry_lines_shown(s: Seq<char>, lo: int, hi: int)
    ensures
        forall|k: int|
            0 <= k < entry_lines(s, lo, hi).len() ==> is_shown_line(#[trigger] entry_lines(s, lo, hi)[k]),
{
    let (a, b) = trimmed(s, lo, hi);
    let kw = first_line(keyword_tag(), s, a, b, LineColour::White);
    let it = first_line(item_tag(), s, a, b, LineColour::Cyan);
    let gs = captures(word_group_tag(), s, b, a);
    let f = |g: (int, int)| painted(LineColour::Cyan, word_group_line(s, g.0, g.1));
    let groups = gs.map_values(f);
    if let Some((i, gs0, ge0)) = first_match(keyword_tag(), s, b, a) {
        lemma_painted_shown(LineColour::White, text(s, (gs0, ge0)));
    }
    if let Some((i, gs0, ge0)) = first_match(item_tag(), s, b, a) {
        lemma_painted_shown(LineColour::Cyan, text(s, (gs0, ge0)));
    }
    assert forall|k: int| 0 <= k < groups.len() implies is_shown_line(#[trigger] groups[k]) by {
        lemma_word_group_line_indented(s, gs[k].0, gs[k].1);
        lemma_painted_shown(LineColour::Cyan, word_group_line(s, gs[k].0, gs[k].1).skip(2));
    }
    let all = entry_lines(s, lo, hi);
    assert(all == kw + it + groups);
    assert forall|k: int| 0 <= k < all.len() implies is_shown_line(#[trigger] all[k]) by {
        if k < kw.len() {
            assert(all[k] == kw[k]);
        } else if k < kw.len() + it.len() {
            assert(all[k] == it[k - kw.len()]);
        } else {
            assert(all[k] == groups[k - kw.len() - it.len()]);
        }
    }
}

proof fn lemma_blocks_lines_shown(s: Seq<char>, blocks: Seq<(int, int)>)
    ensures
        forall|k: int|
            0 <= k < blocks_lines(s, blocks).len() ==> is_shown_line(
                #[trigger] blocks_lines(s, blocks)[k],
            ),
    decreases blocks.len(),
{
    if blocks.len() > 0 {
        let head = blocks_lines(s, blocks.drop_last());
        let last = entry_lines(s, blocks.last().0, blocks.last().1);
        lemma_blocks_lines_shown(s, blocks.drop_last());
        lemma_entry_lines_shown(s, blocks.last().0, blocks.last().1);
        let all = blocks_lines(s, blocks);
        assert forall|k: int| 0 <= k < all.len() implies is_shown_line(#[trigger] all[k]) by {
            if k < head.len() {
                assert(all[k] == head[k]);
            } else {
                assert(all[k] == last[k - head.len()]);
            }
        }
    }
}

/// Every line that a result page gives is coloured white or cyan, starts with two
/// spaces, and ends by resetting the terminal's style.
pub proof fn lemma_dictionary_lines_shown(page: Seq<char>)
    ensures
        forall|k: int|
            0 <= k < dictionary_lines(page).len() ==> is_shown_line(
                #[trigger] dictionary_lines(page)[k],
            ),
{
    let (a, b) = trimmed(page, 0, page.len() as int);
    lemma_blocks_lines_shown(page, captures(phrase_list_tag(), page, b, a));
}

/// The classes of the page's patterns. A part of speech opens with a letter from
/// `a` to `z` or with `.` and holds at least one more character; a translation of
/// an English word opens with any character but `<` and `>`, and its body holds
/// no newline; the keyword holds at least one character; the other groups may be
/// empty and open with any character.
pub proof fn lemma_page_pattern_classes(c: char)
    ensures
        word_class_tag().lead !is Free,
        lead_allows(word_class_tag().lead, c) <==> ('a' <= c <= 'z' || c == '.'),
        word_class_tag().body_min == 1 && word_class_tag().dot_all,
        item_tag().lead !is Free,
        lead_allows(item_tag().lead, c) <==> (c != '<' && c != '>'),
        item_tag().body_min == 0 && !item_tag().dot_all,
        keyword_tag().lead is Free && keyword_tag().body_min == 1 && keyword_tag().dot_all,
        link_tag().lead is Free && link_tag().body_min == 0 && link_tag().dot_all,
        word_group_tag().lead is Free && word_group_tag().body_min == 0 && word_group_tag().dot_all,
        phrase_list_tag().lead is Free && phrase_list_tag().body_min == 0
            && phrase_list_tag().dot_all,
{
}

/// What a translation reply gives, field by field: nothing when `errorCode` is
/// not 0; otherwise every string of `basic.explains` first, in order, whatever
/// `web` is, and after them every string of `web.value`; a group that is no object
/// gives no strings.
pub proof fn lemma_translations_fields(reply: Json)
    ensures
        int_of(field(reply, "errorCode"@)) != Some(0i64) ==> translations(reply) is None,
        int_of(field(reply, "errorCode"@)) == Some(0i64) ==> translations(reply) is Some,
        int_of(field(reply, "errorCode"@)) == Some(0i64) ==> (field(reply, "basic"@) matches Json::Object(
            f,
        ) ==> (lookup(f@, "explains"@) matches Some(Json::Array(items)) ==> {
            &&& translations(reply)->Some_0.len() >= items@.len()
            &&& forall|k: int|
                0 <= k < items@.len() && (#[trigger] items@[k]) is Str
                    ==> translations(reply)->Some_0[k] == items@[k]->Str_0@
        })),
        int_of(field(reply, "errorCode"@)) == Some(0i64) ==> (field(reply, "web"@) matches Json::Object(
            f,
        ) ==> (lookup(f@, "value"@) matches Some(Json::Array(items)) ==> {
            let v = translations(reply)->Some_0;
            &&& v.len() >= items@.len()
            &&& forall|k: int|
                0 <= k < items@.len() && (#[trigger] items@[k]) is Str ==> v[v.len()
                    - items@.len() + k] == items@[k]->Str_0@
        })),
        int_of(field(reply, "errorCode"@)) == Some(0i64) && !(field(reply, "web"@) is Object)
            ==> translations(reply)->Some_0 == string_list(field(reply, "basic"@), "explains"@),
        int_of(field(reply, "errorCode"@)) == Some(0i64) && !(field(reply, "basic"@) is Object)
            ==> translations(reply)->Some_0 == string_list(field(reply, "web"@), "value"@),
{
    if int_of(field(reply, "errorCode"@)) == Some(0i64) {
        let a = string_list(field(reply, "basic"@), "explains"@);
        let b = string_list(field(reply, "web"@), "value"@);
        let v = translations(reply)->Some_0;
        assert(v == a + b);
        if !(field(reply, "web"@) is Object) {
            assert(b == Seq::<Seq<char>>::empty());
            assert(v =~= a);
        }
        if !(field(reply, "basic"@) is Object) {
            assert(a == Seq::<Seq<char>>::empty());
            assert(v =~= b);
        }
        if let Json::Object(f) = field(reply, "basic"@) {
            if let Some(Json::Array(items)) = lookup(f@, "explains"@) {
                assert(a == texts(items@));
                assert(a.len() == items@.len());
                assert(v.len() >= items@.len());
                assert forall|k: int| 0 <= k < items@.len() && (#[trigger] items@[k]) is Str implies v[k] == items@[k]->Str_0@ by {
                    assert(v[k] == a[k]);
                    if let Json::Str(t) = items@[k] {
                        assert(texts(items@)[k] == t@);
                    }
                }
            }
        }
        if let Json::Object(f) = field(reply, "web"@) {
            if let Some(Json::Array(items)) = lookup(f@, "value"@) {
                assert(b == texts(items@));
                assert forall|k: int| 0 <= k < items@.len() && (#[trigger] items@[k]) is Str implies v[v.len() - items@.len() + k]
                    == items@[k]->Str_0@ by {
                    assert(v[v.len() - items@.len() + k] == b[k]);
                    if let Json::Str(t) = items@[k] {
                        assert(texts(items@)[k] == t@);
                    }
                }
            }
        }
    }
}

/// The lines of one block, in order: the word looked up in white (`ESC[37m`),
/// indented by two spaces; then the first translation of an English word in cyan
/// (`ESC[36m`), indented likewise; then one cyan line per word group; each line
/// ends with `ESC[0m`. There is a word line exactly when the block has a keyword,
/// and a translation line exactly when it has an item.
pub proof fn lemma_entry_line_order(s: Seq<char>, lo: int, hi: int)
    ensures
        ({
            let (a, b) = trimmed(s, lo, hi);
            let e = entry_lines(s, lo, hi);
            let kw = first_match(keyword_tag(), s, b, a);
            let it = first_match(item_tag(), s, b, a);
            let groups = captures(word_group_tag(), s, b, a);
            let nk = if kw is Some { 1int } else { 0int };
            let ni = if it is Some { 1int } else { 0int };
            let white = seq!['\u{1b}', '[', '3', '7', 'm'];
            let cyan = seq!['\u{1b}', '[', '3', '6', 'm'];
            let reset = seq!['\u{1b}', '[', '0', 'm'];
            &&& e.len() == nk + ni + groups.len()
            &&& kw is Some ==> e[0] == white + seq![' ', ' '] + s.subrange(kw->Some_0.1, kw->Some_0.2)
                + reset
            &&& it is Some ==> e[nk] == cyan + seq![' ', ' '] + s.subrange(it->Some_0.1, it->Some_0.2)
                + reset
            &&& forall|k: int|
                0 <= k < groups.len() ==> e[nk + ni + k] == cyan + word_group_line(
                    s,
                    (#[trigger] groups[k]).0,
                    groups[k].1,
                ) + reset
        }),
{
    let (a, b) = trimmed(s, lo, hi);
    let e = entry_lines(s, lo, hi);
    let kwl = first_line(keyword_tag(), s, a, b, LineColour::White);
    let itl = first_line(item_tag(), s, a, b, LineColour::Cyan);
    let groups = captures(word_group_tag(), s, b, a);
    let f = |g: (int, int)| painted(LineColour::Cyan, word_group_line(s, g.0, g.1));
    let gl = groups.map_values(f);
    assert(e == kwl + itl + gl);
    let nk = kwl.len() as int;
    let ni = itl.len() as int;
    if let Some((i, gs, ge)) = first_match(keyword_tag(), s, b, a) {
        assert(e[0] == kwl[0]);
        assert(kwl[0] =~= seq!['\u{1b}', '[', '3', '7', 'm'] + seq![' ', ' '] + s.subrange(gs, ge)
            + seq!['\u{1b}', '[', '0', 'm']);
    }
    if let Some((i, gs, ge)) = first_match(item_tag(), s, b, a) {
        assert(e[nk] == itl[0]);
        assert(itl[0] =~= seq!['\u{1b}', '[', '3', '6', 'm'] + seq![' ', ' '] + s.subrange(gs, ge)
            + seq!['\u{1b}', '[', '0', 'm']);
    }
    assert forall|k: int| 0 <= k < groups.len() implies e[nk + ni + k] == seq![
        '\u{1b}',
        '[',
        '3',
        '6',
        'm',
    ] + word_group_line(s, (#[trigger] groups[k]).0, groups[k].1) + seq!['\u{1b}', '[', '0', 'm'] by {
        assert(e[nk + ni + k] == gl[k]);
    }
}

/// A word group's line grows item by item: each part of speech adds its text and
/// one space; each translation adds its text, after `"; "` unless the line so far
/// ends in `". "` or in two spaces.
pub proof fn lemma_word_group_steps(
    line: Seq<char>,
    s: Seq<char>,
    items: Seq<(int, int)>,
    x: (int, int),
)
    ensures
        word_classes(s, items.push(x)) == word_classes(s, items) + s.subrange(x.0, x.1) + seq![' '],
        ({
            let before = with_links(line, s, items);
            let n = before.len() as int;
            let broken = n >= 2 && before[n - 1] == ' ' && (before[n - 2] == '.' || before[n - 2]
                == ' ');
            with_links(line, s, items.push(x)) == if broken {
                before + s.subrange(x.0, x.1)
            } else {
                before + seq![';', ' '] + s.subrange(x.0, x.1)
            }
        }),
{
    assert(items.push(x).drop_last() == items);
    let before = with_links(line, s, items);
    assert(before + Seq::<char>::empty() == before);
}

/// Appends `s[a..b)` to `out`.
fn push_range(out: &mut Vec<char>, s: &Vec<char>, a: usize, b: usize)
    requires
        a <= b <= s@.len(),
    ensures
        final(out)@ == old(out)@ + s@.subrange(a as int, b as int),
{
    let mut k = a;
    while k < b
        invariant
            a <= k <= b <= s@.len(),
            out@ == old(out)@ + s@.subrange(a as int, k as int),
        decreases b - k,
    {
        out.push(s[k]);
        k = k + 1;
        assert(s@.subrange(a as int, k as int) == s@.subrange(a as int, k - 1) + seq![
            s@[k - 1],
        ]);
    }
}


fn phrase_list_pattern() -> (p: TagPattern)
    ensures
        p@ == phrase_list_tag(),
{
    tag("<div id=\"phrsListTab\"", Lead::Free, 0, true, "<div id=\"webTrans\"")
}

fn keyword_pattern() -> (p: TagPattern)
    ensures
        p@ == keyword_tag(),
{
    tag("<span class=\"keyword\"", Lead::Free, 1, true, "</span>")
}

fn item_pattern() -> (p: TagPattern)
    ensures
        p@ == item_tag(),
{
    tag("<li", Lead::NotAngle, 0, false, "</li>")
}

fn word_group_pattern() -> (p: TagPattern)
    ensures
        p@ == word_group_tag(),
{
    tag("<p class=\"wordGroup\"", Lead::Free, 0, true, "</p>")
}

fn word_class_pattern() -> (p: TagPattern)
    ensures
        p@ == word_class_tag(),
{
    tag("<span", Lead::LowerOrDot, 1, true, "</span>")
}

fn link_pattern() -> (p: TagPattern)
    ensures
        p@ == link_tag(),
{
    tag("<a", Lead::Free, 0, true, "</a>")
}

proof fn lemma_views_push(v: Seq<String>, x: String)
    ensures
        views(v.push(x)) == views(v) + seq![x@],
{
    assert(views(v.push(x)) =~= views(v) + seq![x@]);
}

/// Appends the painted line of the first match of `p` in the window, if there is one.
fn push_first_line(
    p: &TagPattern,
    s: &Vec<char>,
    lo: usize,
    hi: usize,
    colour: LineColour,
    res: &mut Vec<String>,
)
    requires
        lo <= hi <= s@.len(),
    ensures
        views(final(res)@) == views(old(res)@) + first_line(p@, s@, lo as int, hi as int, colour),
{
    match find_match(p, s, hi, lo) {
        None => {
            assert(views(res@) + Seq::<Seq<char>>::empty() == views(res@));
        },
        Some((i, gs, ge)) => {
            proof {
                lemma_first_match(p@, s@, hi as int, lo as int);
            }
            let mut line: Vec<char> = Vec::new();
            line.push(' ');
            line.push(' ');
            push_range(&mut line, s, gs, ge);
            assert(line@ == indent() + text(s@, (gs as int, ge as int)));
            let shown = paint(colour, string_of(&line));
            proof {
                lemma_views_push(res@, shown);
            }
            res.push(shown);
        },
    }
}

/// The line of one word group, the window `[lo, hi)` of the page.
fn word_group_line_of(s: &Vec<char>, lo: usize, hi: usize) -> (line: Vec<char>)
    requires
        lo <= hi <= s@.len(),
    ensures
        line@ == word_group_line(s@, lo as int, hi as int),
{
    let (a, b) = trim_window(s, lo, hi);
    let classes = capture_all(&word_class_pattern(), s, b, a);
    proof {
        lemma_captures_ordered(word_class_tag(), s@, b as int, a as int);
    }
    let ghost cs = pairs(classes@);
    let mut line: Vec<char> = Vec::new();
    line.push(' ');
    line.push(' ');
    assert(line@ == indent() + word_classes(s@, cs.take(0)));
    for k in 0..classes.len()
        invariant
            cs == pairs(classes@),
            cs == captures(word_class_tag(), s@, b as int, a as int),
            b <= s@.len(),
            forall|j: int|
                0 <= j < cs.len() ==> a < (#[trigger] cs[j]).0 <= cs[j].1 && cs[j].1 <= b,
            line@ == indent() + word_classes(s@, cs.take(k as int)),
    {
        let (gs, ge) = classes[k];
        assert(cs[k as int] == (gs as int, ge as int));
        push_range(&mut line, s, gs, ge);
        line.push(' ');
        assert(cs.take(k + 1).drop_last() == cs.take(k as int));
    }
    assert(cs.take(classes.len() as int) == cs);
    let ghost first = line@;
    let links = capture_all(&link_pattern(), s, b, a);
    proof {
        lemma_captures_ordered(link_tag(), s@, b as int, a as int);
    }
    let ghost ls = pairs(links@);
    assert(with_links(first, s@, ls.take(0)) == first);
    for k in 0..links.len()
        invariant
            ls == pairs(links@),
            ls == captures(link_tag(), s@, b as int, a as int),
            b <= s@.len(),
            forall|j: int|
                0 <= j < ls.len() ==> a < (#[trigger] ls[j]).0 <= ls[j].1 && ls[j].1 <= b,
            line@.len() >= 2,
            line@ == with_links(first, s@, ls.take(k as int)),
    {
        let (gs, ge) = links[k];
        assert(ls[k as int] == (gs as int, ge as int));
        let n = line.len();
        let broken = line[n - 1] == ' ' && (line[n - 2] == '.' || line[n - 2] == ' ');
        assert(broken == ends_in_break(line@));
        if !broken {
            line.push(';');
            line.push(' ');
        }
        push_range(&mut line, s, gs, ge);
        assert(ls.take(k + 1).drop_last() == ls.take(k as int));
    }
    assert(ls.take(links.len() as int) == ls);
    line
}


/// Appends the painted line of each word group of the window `[a, b)`.
fn push_word_group_lines(s: &Vec<char>, a: usize, b: usize, res: &mut Vec<String>)
    requires
        a <= b <= s@.len(),
    ensures
        views(final(res)@) == views(old(res)@) + captures(word_group_tag(), s@, b as int, a as int).map_values(
            |g: (int, int)| painted(LineColour::Cyan, word_group_line(s@, g.0, g.1)),
        ),
{
    let groups = capture_all(&word_group_pattern(), s, b, a);
    proof {
        lemma_captures_ordered(word_group_tag(), s@, b as int, a as int);
    }
    let ghost gs = pairs(groups@);
    let ghost head = views(res@);
    let ghost f = |g: (int, int)| painted(LineColour::Cyan, word_group_line(s@, g.0, g.1));
    assert(gs.take(0).map_values(f) == Seq::<Seq<char>>::empty());
    for k in 0..groups.len()
        invariant
            gs == pairs(groups@),
            gs == captures(word_group_tag(), s@, b as int, a as int),
            b <= s@.len(),
            forall|j: int|
                0 <= j < gs.len() ==> a < (#[trigger] gs[j]).0 <= gs[j].1 && gs[j].1 <= b,
            f == (|g: (int, int)| painted(LineColour::Cyan, word_group_line(s@, g.0, g.1))),
            views(res@) == head + gs.take(k as int).map_values(f),
    {
        let (g0, g1) = groups[k];
        assert(gs[k as int] == (g0 as int, g1 as int));
        let line = word_group_line_of(s, g0, g1);
        let shown = paint(LineColour::Cyan, string_of(&line));
        proof {
            lemma_views_push(res@, shown);
        }
        res.push(shown);
        assert(gs.take(k + 1).map_values(f) == gs.take(k as int).map_values(f) + seq![
            f(gs[k as int]),
        ]);
    }
    assert(gs.take(groups.len() as int) == gs);
}

/// Appends the lines of one block of translations, the window `[lo, hi)` of the page.
fn push_entry_lines(s: &Vec<char>, lo: usize, hi: usize, res: &mut Vec<String>)
    requires
        lo <= hi <= s@.len(),
    ensures
        views(final(res)@) == views(old(res)@) + entry_lines(s@, lo as int, hi as int),
{
    let ghost start = views(res@);
    let (a, b) = trim_window(s, lo, hi);
    push_first_line(&keyword_pattern(), s, a, b, LineColour::White, res);
    push_first_line(&item_pattern(), s, a, b, LineColour::Cyan, res);
    push_word_group_lines(s, a, b, res);
    assert(views(res@) == start + first_line(keyword_tag(), s@, a as int, b as int, LineColour::White)
        + first_line(item_tag(), s@, a as int, b as int, LineColour::Cyan) + captures(
        word_group_tag(), s@, b as int, a as int).map_values(
        |g: (int, int)| painted(LineColour::Cyan, word_group_line(s@, g.0, g.1)),
    ));
}

/// The lines of a result page of the dictionary: for each block of translations,
/// the word looked up (in white), the first translation of an English word, and
/// one line for each group of translations of a Chinese word (in cyan). Every
/// page gives a list, possibly empty.
pub fn parser(html: &String) -> (res: Option<Vec<String>>)
    ensures
        res matches Some(lines) && views(lines@) == dictionary_lines(html@),
{
    let s = chars_of(html.as_str());
    let (a, b) = trim_window(&s, 0, s.len());
    let blocks = capture_all(&phrase_list_pattern(), &s, b, a);
    proof {
        lemma_captures_ordered(phrase_list_tag(), s@, b as int, a as int);
    }
    let ghost bs = pairs(blocks@);
    let mut res: Vec<String> = Vec::new();
    for k in 0..blocks.len()
        invariant
            bs == pairs(blocks@),
            bs == captures(phrase_list_tag(), s@, b as int, a as int),
            b <= s@.len(),
            forall|j: int|
                0 <= j < bs.len() ==> a < (#[trigger] bs[j]).0 <= bs[j].1 && bs[j].1 <= b,
            views(res@) == blocks_lines(s@, bs.take(k as int)),
    {
        let (g0, g1) = blocks[k];
        assert(bs[k as int] == (g0 as int, g1 as int));
        push_entry_lines(&s, g0, g1, &mut res);
        assert(bs.take(k + 1).drop_last() == bs.take(k as int));
    }
    assert(bs.take(blocks.len() as int) == bs);
    Some(res)
}


/// The address of the result page for a word.
pub open spec fn query_address(word: Seq<char>) -> Seq<char> {
    "http://dict.youdao.com/search?q="@ + word + "&keyfrom=dict"@
}

/// The address of the result page for a word: the word goes into the query as it is.
pub fn query_url(word: &str) -> (url: String)
    ensures
        url@ == query_address(word@),
{
    let mut url = String::from_str("http://dict.youdao.com/search?q=");
    url.append(word);
    url.append("&keyfrom=dict");
    url
}

/// The address of the translation service's reply for a word.
pub open spec fn translation_address(word: Seq<char>) -> Seq<char> {
    "http://fanyi.youdao.com/openapi.do?keyfrom=f2ec-org&key=1787962561&type=data&doctype=json&version=1.1&q="@
        + word
}

/// The address of the translation service's reply for a word, the word as it is.
pub fn query2_url(word: &str) -> (url: String)
    ensures
        url@ == translation_address(word@),
{
    let mut url = String::from_str(
        "http://fanyi.youdao.com/openapi.do?keyfrom=f2ec-org&key=1787962561&type=data&doctype=json&version=1.1&q=",
    );
    url.append(word);
    url
}

/// Where `group` is an object, its field `key` is present and is a list of strings.
pub open spec fn string_list_present(group: Json, key: Seq<char>) -> bool {
    match group {
        Json::Object(fields) => lookup(fields@, key) matches Some(Json::Array(items)) && all_strings(
            items@,
        ),
        _ => true,
    }
}

/// The strings of the list `group[key]` where `group` is an object; none otherwise.
pub open spec fn string_list(group: Json, key: Seq<char>) -> Seq<Seq<char>> {
    match group {
        Json::Object(fields) => match lookup(fields@, key) {
            Some(Json::Array(items)) => texts(items@),
            _ => Seq::empty(),
        },
        _ => Seq::empty(),
    }
}

/// A translation reply that can be read: `errorCode` is an integer, and when it is
/// 0, `basic.explains` and `web.value` are lists of strings wherever `basic` and
/// `web` are objects.
pub open spec fn translation_readable(reply: Json) -> bool {
    &&& int_of(field(reply, "errorCode"@)) is Some
    &&& int_of(field(reply, "errorCode"@)) == Some(0i64) ==> {
        &&& string_list_present(field(reply, "basic"@), "explains"@)
        &&& string_list_present(field(reply, "web"@), "value"@)
    }
}

/// The explanations of a translation reply: none when its `errorCode` is not 0,
/// else the strings of `basic.explains` followed by those of `web.value`.
pub open spec fn translations(reply: Json) -> Option<Seq<Seq<char>>> {
    if int_of(field(reply, "errorCode"@)) != Some(0i64) {
        None
    } else {
        Some(
            string_list(field(reply, "basic"@), "explains"@) + string_list(
                field(reply, "web"@),
                "value"@,
            ),
        )
    }
}

fn append_string_list(group: Option<&Json>, key: &str, out: &mut Vec<String>)
    requires
        match group {
            Some(g) => string_list_present(*g, key@),
            None => true,
        },
    ensures
        views(final(out)@) == views(old(out)@) + match group {
            Some(g) => string_list(*g, key@),
            None => Seq::<Seq<char>>::empty(),
        },
{
    let ghost start = views(out@);
    if let Some(Json::Object(fields)) = group {
        let found = find_field(fields, &key.to_owned());
        if let Some(Json::Array(items)) = found {
            let strings = strings_of(items);
            for k in 0..strings.len()
                invariant
                    strings@.len() == items@.len(),
                    forall|j: int| 0 <= j < items@.len() ==> #[trigger] strings@[j]@ == texts(items@)[j],
                    views(out@) == start + texts(items@).take(k as int),
            {
                proof {
                    lemma_views_push(out@, strings@[k as int]);
                }
                out.push(strings[k].clone());
                assert(texts(items@).take(k + 1) == texts(items@).take(k as int) + seq![
                    texts(items@)[k as int],
                ]);
            }
            assert(texts(items@).take(items@.len() as int) == texts(items@));
            return;
        }
    }
    assert(views(out@) + Seq::<Seq<char>>::empty() == views(out@));
}

fn string_list_is_present(group: Option<&Json>, key: &str) -> (r: bool)
    ensures
        r == match group {
            Some(g) => string_list_present(*g, key@),
            None => true,
        },
{
    if let Some(Json::Object(fields)) = group {
        match find_field(fields, &key.to_owned()) {
            Some(Json::Array(items)) => are_strings(items),
            _ => false,
        }
    } else {
        true
    }
}

/// Whether a translation reply can be read (see `translation_readable`).
pub fn translation_reply_readable(reply: &Json) -> (r: bool)
    ensures
        r == translation_readable(*reply),
{
    match int_field(reply, "errorCode") {
        None => false,
        Some(code) => code != 0 || (string_list_is_present(field_of(reply, "basic"), "explains")
            && string_list_is_present(field_of(reply, "web"), "value")),
    }
}

/// The explanations of a reply of the translation service: `None` when its
/// `errorCode` is not 0, else the strings of `basic.explains`, then those of
/// `web.value` (each only where the group is an object).
pub fn parser2(reply: &Json) -> (r: Option<Vec<String>>)
    requires
        translation_readable(*reply),
    ensures
        match r {
            Some(lines) => translations(*reply) == Some(views(lines@)),
            None => translations(*reply) is None,
        },
{
    let code = int_field(reply, "errorCode");
    if code != Some(0i64) {
        return None;
    }
    let mut res: Vec<String> = Vec::new();
    append_string_list(field_of(reply, "basic"), "explains", &mut res);
    append_string_list(field_of(reply, "web"), "value", &mut res);
    Some(res)
}


/// A piece of text with its colour, style and font.
#[derive(Debug, Default)]
pub struct RichText {
    pub text: String,
    pub color: i32,
    pub style: i32,
    pub font: i32,
}

impl RichText {
    /// The plain text, without colour, style or font.
    pub fn to_string(&self) -> (s: String)
        ensures
            s@ == self.text@,
    {
        self.text.clone()
    }
}

} // verus!
