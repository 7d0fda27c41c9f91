//! The decisions of the command line and of the window front end.
use vstd::prelude::*;
use vstd::string::StringExecFns;
use crate::text::{chars_of, string_of, trimmed, trim_window, is_white_space, lemma_trimmed_bounds};

verus! {

broadcast use vstd::string::group_string_axioms;

/// What the program is asked to do.
#[derive(Debug, PartialEq, Eq)]
pub enum Command {
    /// No arguments at all: nothing to do.
    Idle,
    /// Only the program's name: read words from the terminal.
    Interactive,
    /// `--gui`: open the window.
    Gui,
    /// `--version` or `-v`.
    Version,
    /// `--help` or `-h`.
    Help,
    /// Any other first argument: look up the first argument.
    Lookup(String),
}

/// What the arguments ask for. Only the first argument after the program's name
/// counts.
pub open spec fn command_for(args: Seq<Seq<char>>, result: Command) -> bool {
    if args.len() == 0 {
        result is Idle
    } else if args.len() == 1 {
        result is Interactive
    } else if args[1] == "--gui"@ {
        result is Gui
    } else if args[1] == "--version"@ || args[1] == "-v"@ {
        result is Version
    } else if args[1] == "--help"@ || args[1] == "-h"@ {
        result is Help
    } else {
        result matches Command::Lookup(w) && w@ == args[1]
    }
}

/// Each command, read back from the arguments: only the program's name gives the
/// prompt and no arguments give nothing; the window, the version and the usage
/// are asked for only by their options (`--gui`; `--version`, `-v`; `--help`,
/// `-h`) as the first argument; any other first argument, whatever its letters, is
/// looked up as it is.
pub proof fn lemma_command_options(args: Seq<Seq<char>>, c: Command)
    requires
        command_for(args, c),
    ensures
        c is Idle <==> args.len() == 0,
        c is Interactive <==> args.len() == 1,
        c is Gui ==> args.len() >= 2 && args[1] == "--gui"@,
        c is Version ==> args.len() >= 2 && (args[1] == "--version"@ || args[1] == "-v"@),
        c is Help ==> args.len() >= 2 && (args[1] == "--help"@ || args[1] == "-h"@),
        c matches Command::Lookup(w) ==> args.len() >= 2 && w@ == args[1],
        args.len() >= 2 && args[1] != "--gui"@ && args[1] != "--version"@ && args[1] != "-v"@
            && args[1] != "--help"@ && args[1] != "-h"@ ==> (c matches Command::Lookup(w) && w@
            == args[1]),
{
}

/// What the arguments ask for (see `command_for`).
pub fn command_of(args: &Vec<String>) -> (c: Command)
    ensures
        command_for(args@.map_values(|a: String| a@), c),
{
    let ghost views = args@.map_values(|a: String| a@);
    if args.len() == 0 {
        return Command::Idle;
    }
    if args.len() == 1 {
        return Command::Interactive;
    }
    let first = &args[1];
    assert(views[1] == first@);
    if *first == String::from_str("--gui") {
        Command::Gui
    } else if *first == String::from_str("--version") || *first == String::from_str("-v") {
        Command::Version
    } else if *first == String::from_str("--help") || *first == String::from_str("-h") {
        Command::Help
    } else {
        Command::Lookup(first.clone())
    }
}

/// The word typed into the window: the entry without white space at either end,
/// none when nothing else is left.
pub open spec fn typed_word(entry: Seq<char>) -> Option<Seq<char>> {
    let (a, b) = trimmed(entry, 0, entry.len() as int);
    if a == b {
        None
    } else {
        Some(entry.subrange(a, b))
    }
}

/// A typed word is settled: it is not empty, has no white space at either end, and
/// typing it again gives the same word.
pub proof fn lemma_typed_word_settled(entry: Seq<char>)
    ensures
        typed_word(entry) matches Some(w) ==> {
            &&& w.len() > 0
            &&& !is_white_space(w[0])
            &&& !is_white_space(w[w.len() - 1])
            &&& typed_word(w) == Some(w)
        },
{
    lemma_trimmed_bounds(entry, 0, entry.len() as int);
    if let Some(w) = typed_word(entry) {
        assert(trimmed(w, 0, w.len() as int) == (0int, w.len() as int));
        assert(w.subrange(0, w.len() as int) == w);
    }
}

/// A typed word is the entry with only white space cut from its ends: there is
/// none exactly when the entry is all white space, and otherwise the entry is the
/// word with white space before and after it.
pub proof fn lemma_typed_word_cut(entry: Seq<char>) -> (a: int)
    ensures
        typed_word(entry) is None <==> forall|k: int| 0 <= k < entry.len() ==> is_white_space(
            #[trigger] entry[k],
        ),
        typed_word(entry) matches Some(w) ==> {
            &&& 0 <= a
            &&& a + w.len() <= entry.len()
            &&& entry.subrange(a, a + w.len()) == w
            &&& forall|k: int| 0 <= k < a ==> is_white_space(#[trigger] entry[k])
            &&& forall|k: int| a + w.len() <= k < entry.len() ==> is_white_space(#[trigger] entry[k])
        },
{
    lemma_trimmed_bounds(entry, 0, entry.len() as int);
    let (a, b) = trimmed(entry, 0, entry.len() as int);
    if a == b {
        assert forall|k: int| 0 <= k < entry.len() implies is_white_space(#[trigger] entry[k]) by {
            if k < a {
            } else {
            }
        }
    } else {
        assert(!is_white_space(entry[a]));
        let w = entry.subrange(a, b);
        assert(a + w.len() == b);
        assert(typed_word(entry) == Some(w));
    }
    a
}

/// The word to look up from the text of the window's entry (see `typed_word`).
pub fn submitted_word(entry: &str) -> (r: Option<String>)
    ensures
        match r {
            Some(w) => typed_word(entry@) == Some(w@),
            None => typed_word(entry@) is None,
        },
{
    let s = chars_of(entry);
    let (a, b) = trim_window(&s, 0, s.len());
    if a == b {
        return None;
    }
    let mut w: Vec<char> = Vec::new();
    let mut k = a;
    while k < b
        invariant
            a <= k <= b <= s@.len(),
            w@ == s@.subrange(a as int, k as int),
        decreases b - k,
    {
        w.push(s[k]);
        k = k + 1;
        assert(s@.subrange(a as int, k as int) == s@.subrange(a as int, k - 1) + seq![s@[k - 1]]);
    }
    Some(string_of(&w))
}

/// The usage text for the program named `program`.
pub open spec fn usage(program: Seq<char>) -> Seq<char> {
    "usage: "@ + program + " <option> [word]\n  option:\n      --gui          start with gtk front-end\n      -h, --help     show help information\n      -v, --version  show version information"@
}

/// The usage text for the program named `program`.
pub fn usage_text(program: &str) -> (t: String)
    ensures
        t@ == usage(program@),
{
    let mut t = String::from_str("usage: ");
    t.append(program);
    t.append(
        " <option> [word]\n  option:\n      --gui          start with gtk front-end\n      -h, --help     show help information\n      -v, --version  show version information",
    );
    t
}

} // verus!
