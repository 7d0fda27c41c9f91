use youdao_dict::cli::{command_of, submitted_word, usage_text, Command};

fn args(list: &[&str]) -> Vec<String> {
    list.iter().map(|a| a.to_string()).collect()
}

#[test]
fn commands_from_arguments() {
    assert_eq!(command_of(&args(&[])), Command::Idle);
    assert_eq!(command_of(&args(&["dict"])), Command::Interactive);
    assert_eq!(command_of(&args(&["dict", "--gui"])), Command::Gui);
    assert_eq!(command_of(&args(&["dict", "--version"])), Command::Version);
    assert_eq!(command_of(&args(&["dict", "-v"])), Command::Version);
    assert_eq!(command_of(&args(&["dict", "--help"])), Command::Help);
    assert_eq!(command_of(&args(&["dict", "-h"])), Command::Help);
    assert_eq!(command_of(&args(&["dict", "hello"])), Command::Lookup("hello".to_string()));
}

#[test]
fn only_the_first_argument_counts() {
    assert_eq!(command_of(&args(&["dict", "word", "--gui"])), Command::Lookup("word".to_string()));
    assert_eq!(command_of(&args(&["dict", "-v", "--help"])), Command::Version);
    assert_eq!(command_of(&args(&["dict", "--GUI"])), Command::Lookup("--GUI".to_string()));
}

#[test]
fn typed_words() {
    assert_eq!(submitted_word("  hello \n"), Some("hello".to_string()));
    assert_eq!(submitted_word("你好"), Some("你好".to_string()));
    assert_eq!(submitted_word("a b"), Some("a b".to_string()));
    assert_eq!(submitted_word(""), None);
    assert_eq!(submitted_word(" \t\u{3000}\n"), None);
    assert_eq!(submitted_word("\u{a0}x\u{2028}"), Some("x".to_string()));
}

#[test]
fn typed_words_match_str_trim() {
    for text in ["", " a ", "\u{85}b\u{205f}", "x\u{200b}", "\r\n y \t", "\u{1680}\u{3000}"] {
        let expected = if text.trim().is_empty() { None } else { Some(text.trim().to_string()) };
        assert_eq!(submitted_word(text), expected, "text {:?}", text);
    }
}

#[test]
fn usage_names_the_program() {
    assert_eq!(
        usage_text("dict"),
        "usage: dict <option> [word]\n  option:\n      --gui          start with gtk front-end\n      -h, --help     show help information\n      -v, --version  show version information"
    );
}

#[test]
fn typed_word_is_settled() {
    for text in ["  hello \n", "x", " a b ", "\u{3000}你好\u{3000}"] {
        let once = submitted_word(text).unwrap();
        assert_eq!(submitted_word(&once), Some(once.clone()));
        assert!(!once.is_empty());
        assert_eq!(once.trim(), once);
    }
}
