use youdao_dict::search::{search, SearchOption};
use youdao_dict::mplayer::uninit;

#[test]
fn search_option_new() {
    let option = SearchOption::new("http://baidu.com", "bid=1231");
    println!("{:?}", option);
}

#[test]
fn search_option_keeps_url_and_parameters() {
    let option = SearchOption::new("http://baidu.com", "bid=1231");
    assert_eq!(option.url(), "http://baidu.com");
    assert_eq!(option.parameters(), &Some("bid=1231"));
    let numeric = SearchOption::new("", 7u32);
    assert_eq!(numeric.url(), "");
    assert_eq!(numeric.parameters(), &Some(7u32));
}

#[test]
fn search_finds_empty_text() {
    let found = search(SearchOption::new("http://baidu.com", "bid=1231"));
    assert_eq!(found.data(), "");
    assert_eq!(search(42i64).data(), "");
}

#[test]
fn uninit_does_nothing() {
    uninit();
    uninit();
}

#[test]
fn search_option_debug_text_is_the_url() {
    let option = SearchOption::new("http://baidu.com", "bid=1231");
    println!("{}", option.debug_text());
    assert_eq!(option.debug_text(), "http://baidu.com");
    assert_eq!(SearchOption::new("", 1u8).debug_text(), "");
}
