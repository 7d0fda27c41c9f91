use youdao_dict::json::Json;
use youdao_dict::kugou::{
    decimal_of, download_url, encode_keyword, lyrics_text, search_candidates, search_url, Lyrics,
};

fn s(t: &str) -> Json {
    Json::Str(t.to_string())
}

fn obj(fields: Vec<(&str, Json)>) -> Json {
    Json::Object(fields.into_iter().map(|(k, v)| (k.to_string(), v)).collect())
}

#[test]
fn keyword_of_chinese_name_is_percent_encoded() {
    assert_eq!(encode_keyword("周杰伦"), "%E5%91%A8%E6%9D%B0%E4%BC%A6");
    assert_eq!(encode_keyword("é"), "%C3%A9");
    // only the first byte decides: the rest goes encoded too
    assert_eq!(encode_keyword("中a"), "%E4%B8%AD%61");
}

#[test]
fn keyword_of_ascii_name_is_unchanged() {
    assert_eq!(encode_keyword("hello world"), "hello world");
    assert_eq!(encode_keyword("a中"), "a中");
}

#[test]
fn decimal_numbers() {
    assert_eq!(decimal_of(0), "0");
    assert_eq!(decimal_of(7), "7");
    assert_eq!(decimal_of(240000), "240000");
    assert_eq!(decimal_of(-15), "-15");
    assert_eq!(decimal_of(i32::MAX), "2147483647");
    assert_eq!(decimal_of(i32::MIN), "-2147483648");
}

#[test]
fn lyrics_addresses() {
    assert_eq!(
        search_url("hello", 240000),
        "http://lyrics.kugou.com/search?ver=1&man=yes&client=pc&keyword=hello&duration=240000&hash="
    );
    assert_eq!(
        search_url("晴天", -1),
        "http://lyrics.kugou.com/search?ver=1&man=yes&client=pc&keyword=%E6%99%B4%E5%A4%A9&duration=-1&hash="
    );
    assert_eq!(
        download_url("123", "ABC"),
        "http://lyrics.kugou.com/download?ver=1&client=pc&id=123&accesskey=ABC&fmt=lrc&charset=utf8"
    );
}

#[test]
fn search_reply_candidates() {
    let reply = obj(vec![
        ("status", Json::Int(200)),
        ("info", s("OK")),
        (
            "candidates",
            Json::Array(vec![
                obj(vec![("id", s("1")), ("accesskey", s("k1")), ("duration", Json::Int(3))]),
                obj(vec![("accesskey", s("k2")), ("id", s("2"))]),
            ]),
        ),
    ]);
    assert_eq!(
        search_candidates(&reply),
        Some(vec![("1".to_string(), "k1".to_string()), ("2".to_string(), "k2".to_string())])
    );
}

#[test]
fn search_reply_refused() {
    let reply = obj(vec![("status", Json::Int(404)), ("info", s("not found"))]);
    assert_eq!(search_candidates(&reply), None);
    let empty = obj(vec![("status", Json::Int(200)), ("candidates", Json::Array(vec![]))]);
    assert_eq!(search_candidates(&empty), Some(vec![]));
}

#[test]
fn download_reply_decoded() {
    let reply = obj(vec![("status", Json::Int(200)), ("content", s("aGVsbG8="))]);
    match lyrics_text(&reply) {
        Lyrics::Text(t) => assert_eq!(t, "hello"),
        other => panic!("unexpected {:?}", other),
    }
    let chinese = obj(vec![("status", Json::Int(200)), ("content", s("5pm05aSp"))]);
    match lyrics_text(&chinese) {
        Lyrics::Text(t) => assert_eq!(t, "晴天"),
        other => panic!("unexpected {:?}", other),
    }
}

#[test]
fn download_reply_failures() {
    let bad64 = obj(vec![("status", Json::Int(200)), ("content", s("not base64!"))]);
    assert!(matches!(lyrics_text(&bad64), Lyrics::NotBase64));
    let bad_utf8 = obj(vec![("status", Json::Int(200)), ("content", s("/w=="))]);
    assert!(matches!(lyrics_text(&bad_utf8), Lyrics::NotUtf8));
    let refused = obj(vec![("status", Json::Int(500)), ("info", s("busy"))]);
    assert!(matches!(lyrics_text(&refused), Lyrics::Refused));
}

#[test]
fn keyword_reads_back_to_the_name() {
    for name in ["周杰伦", "é", "中a b", "日本語の歌"] {
        let w = encode_keyword(name);
        assert_eq!(w.len(), 3 * name.len());
        let bytes: Vec<u8> = (0..w.len() / 3)
            .map(|k| u8::from_str_radix(&w[3 * k + 1..3 * k + 3], 16).unwrap())
            .collect();
        assert_eq!(bytes, name.as_bytes());
        assert!(w.chars().all(|c| c == '%' || c.is_ascii_digit() || ('A'..='F').contains(&c)));
    }
}

#[test]
fn decimal_reads_back_to_the_number() {
    for n in [0, 1, 9, 10, 99, 100, -1, -10, 123456789, i32::MAX, i32::MIN] {
        assert_eq!(decimal_of(n).parse::<i32>().unwrap(), n);
        assert_eq!(decimal_of(n), n.to_string());
    }
}
