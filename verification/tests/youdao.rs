use ansi_term::Colour;
use youdao_dict::json::Json;
use youdao_dict::text::join_lines;
use youdao_dict::youdao::{parser, parser2, query2_url, query_url, RichText};

struct Expressions {
    div_re: regex::Regex,
    li_re: regex::Regex,
    keyword_re: regex::Regex,
    a_re: regex::Regex,
    span_re: regex::Regex,
    p_re: regex::Regex,
}

fn expressions() -> Expressions {
    let div_re =
        regex::Regex::new(r#"<div id="phrsListTab"[^>]*?>(?s)(.*?)<div id="webTrans""#).unwrap();
    let li_re = regex::Regex::new(r#"<li[^>]*?>([^<>].*?)</li>"#).unwrap();
    let keyword_re =
        regex::Regex::new(r#"<span class="keyword"[^>]*?>(?s)(.+?)</span>"#).unwrap();
    let a_re = regex::Regex::new(r#"<a[^>]*?>(?s)(.*?)</a>"#).unwrap();
    let span_re = regex::Regex::new(r#"<span[^>]*?>(?s)([a-z.].+?)</span>"#).unwrap();
    let p_re = regex::Regex::new(r#"<p class="wordGroup"[^>]*?>(?s)(.*?)</p>"#).unwrap();
    Expressions { div_re, li_re, keyword_re, a_re, span_re, p_re }
}

/// The page read with the regular expressions that the format is written in.
fn regex_reading(html: &String) -> Option<Vec<String>> {
    reading_with(&expressions(), html)
}

fn reading_with(e: &Expressions, html: &String) -> Option<Vec<String>> {
    let (div_re, li_re, keyword_re, a_re, span_re, p_re) =
        (&e.div_re, &e.li_re, &e.keyword_re, &e.a_re, &e.span_re, &e.p_re);
    let mut res = Vec::<String>::new();
    for caps in div_re.captures_iter(html.trim()) {
        let lis = caps.get(1).unwrap().as_str();
        if let Some(c) = keyword_re.captures_iter(lis.trim()).next() {
            res.push(Colour::White.paint(format!("  {}", c.get(1).unwrap().as_str())).to_string());
        }
        if let Some(c) = li_re.captures_iter(lis.trim()).next() {
            res.push(Colour::Cyan.paint(format!("  {}", c.get(1).unwrap().as_str())).to_string());
        }
        for cap_p in p_re.captures_iter(lis.trim()) {
            let a = cap_p.get(1).unwrap().as_str();
            let mut line = String::from("  ");
            for cap_span in span_re.captures_iter(a.trim()) {
                line.push_str(cap_span.get(1).unwrap().as_str());
                line.push_str(" ");
            }
            for cap_a in a_re.captures_iter(a.trim()) {
                if !line.ends_with(". ") && !line.ends_with("  ") {
                    line.push_str("; ");
                }
                line.push_str(cap_a.get(1).unwrap().as_str());
            }
            res.push(Colour::Cyan.paint(line).to_string());
        }
    }
    Some(res)
}

const ENGLISH_PAGE: &str = r#"
<html><body>
<div id="phrsListTab" class="trans-wrapper clearfix">
  <h2 class="wordbook-js">
    <span class="keyword">hello</span>
    <div class="baav"><span class="pronounce">英<span class="phonetic">[həˈləʊ]</span></span></div>
  </h2>
  <div class="trans-container">
    <ul>
      <li>int. 喂；哈罗</li>
      <li>n. 表示问候， 惊奇或唤起注意时的用语</li>
    </ul>
  </div>
</div>
<div id="webTrans" class="trans-wrapper trans-tab">
</body></html>
"#;

const CHINESE_PAGE: &str = r##"
   <div id="phrsListTab" class="trans-wrapper clearfix">
      <h2 class="wordbook-js"><span class="keyword">你好</span></h2>
      <div class="trans-container">
        <ul>
          <p class="wordGroup">
            <span style="font-weight: bold; color: #959595; margin-right: .5em; width : 36px; display: inline-block;">int.</span>
            <span class="contentTitle"><a class="search-js" href="/w/hello/#keyfrom=E2Ctranslation">hello</a></span>
            <span class="contentTitle"><a class="search-js" href="/w/hi/#keyfrom=E2Ctranslation">hi</a></span>
          </p>
          <p class="wordGroup"><span>n.</span><a href="#">greeting</a></p>
        </ul>
      </div>
   </div>
   <div id="webTrans" class="trans-wrapper">
"##;

#[test]
fn english_page_lines() {
    let lines = parser(&ENGLISH_PAGE.to_string()).unwrap();
    assert_eq!(
        lines,
        vec![
            "\u{1b}[37m  hello\u{1b}[0m".to_string(),
            "\u{1b}[36m  int. 喂；哈罗\u{1b}[0m".to_string(),
        ]
    );
    assert_eq!(Some(lines), regex_reading(&ENGLISH_PAGE.to_string()));
}

#[test]
fn chinese_page_lines() {
    let lines = parser(&CHINESE_PAGE.to_string()).unwrap();
    assert_eq!(
        lines,
        vec![
            "\u{1b}[37m  你好\u{1b}[0m".to_string(),
            "\u{1b}[36m  int. hello; hi\u{1b}[0m".to_string(),
            "\u{1b}[36m  n. greeting\u{1b}[0m".to_string(),
        ]
    );
    assert_eq!(Some(lines), regex_reading(&CHINESE_PAGE.to_string()));
}

#[test]
fn page_without_block_gives_no_lines() {
    assert_eq!(parser(&String::new()), Some(vec![]));
    assert_eq!(parser(&"<html>nothing here</html>".to_string()), Some(vec![]));
    let unclosed = r#"<div id="phrsListTab"><span class="keyword">x</span>"#.to_string();
    assert_eq!(parser(&unclosed), Some(vec![]));
}

#[test]
fn item_on_one_line_only() {
    let page = "<div id=\"phrsListTab\">\n<li>a\nb</li><li class=\"x\">\nok</li>\n<div id=\"webTrans\"".to_string();
    let lines = parser(&page).unwrap();
    assert_eq!(lines, vec!["\u{1b}[36m  \nok\u{1b}[0m".to_string()]);
    assert_eq!(Some(lines), regex_reading(&page));
}

#[test]
fn links_joined_by_semicolons() {
    let page = r#"<div id="phrsListTab"><p class="wordGroup"><a>x</a><a>y  </a><a>z</a></p><p class="wordGroup"><span>v.</span><a>run</a><a>go</a></p><div id="webTrans""#.to_string();
    let lines = parser(&page).unwrap();
    assert_eq!(
        lines,
        vec![
            "\u{1b}[36m  x; y  z\u{1b}[0m".to_string(),
            "\u{1b}[36m  v. run; go\u{1b}[0m".to_string(),
        ]
    );
    assert_eq!(Some(lines), regex_reading(&page));
}

#[test]
fn several_blocks() {
    let page = r#"  <div id="phrsListTab"><span class="keyword">one</span><div id="webTrans" <div id="phrsListTab" a><span class="keyword">two</span><li>2</li><div id="webTrans"  "#.to_string();
    let lines = parser(&page).unwrap();
    assert_eq!(
        lines,
        vec![
            "\u{1b}[37m  one\u{1b}[0m".to_string(),
            "\u{1b}[37m  two\u{1b}[0m".to_string(),
            "\u{1b}[36m  2\u{1b}[0m".to_string(),
        ]
    );
    assert_eq!(Some(lines), regex_reading(&page));
}

/// A small generator of pseudo-random pages built from pieces of the format.
fn random_page(seed: &mut u64) -> String {
    const PIECES: &[&str] = &[
        "<div id=\"phrsListTab\"", "<div id=\"webTrans\"", "<span class=\"keyword\"", "<span",
        "</span>", "<li", "</li>", "<p class=\"wordGroup\"", "</p>", "<a", "</a>", ">", "<",
        " ", "\n", "a", "b", ".", "x.", "  ", "\t", "<link>", "z", "中", ";",
    ];
    let mut page = String::new();
    let n = 5 + (*seed % 60) as usize;
    for _ in 0..n {
        *seed = seed.wrapping_mul(6364136223846793005).wrapping_add(1442695040888963407);
        let k = ((*seed >> 33) % PIECES.len() as u64) as usize;
        page.push_str(PIECES[k]);
    }
    page
}

#[test]
fn random_pages_read_like_the_regular_expressions() {
    let e = expressions();
    let mut seed: u64 = 12345;
    for _ in 0..400 {
        let mut page = String::from("<div id=\"phrsListTab\">");
        page.push_str(&random_page(&mut seed));
        page.push_str("<div id=\"webTrans\"");
        page.push_str(&random_page(&mut seed));
        assert_eq!(parser(&page), reading_with(&e, &page), "page: {:?}", page);
    }
}

#[test]
fn dictionary_addresses() {
    assert_eq!(query_url("hello"), "http://dict.youdao.com/search?q=hello&keyfrom=dict");
    assert_eq!(query_url(""), "http://dict.youdao.com/search?q=&keyfrom=dict");
    assert_eq!(
        query2_url("你好"),
        "http://fanyi.youdao.com/openapi.do?keyfrom=f2ec-org&key=1787962561&type=data&doctype=json&version=1.1&q=你好"
    );
}

fn s(t: &str) -> Json {
    Json::Str(t.to_string())
}

fn obj(fields: Vec<(&str, Json)>) -> Json {
    Json::Object(fields.into_iter().map(|(k, v)| (k.to_string(), v)).collect())
}

#[test]
fn translation_reply_lists() {
    let reply = obj(vec![
        ("errorCode", Json::Int(0)),
        ("basic", obj(vec![("phonetic", s("x")), ("explains", Json::Array(vec![s("int. 喂"), s("n. 问候")]))])),
        ("web", obj(vec![("value", Json::Array(vec![s("Hello")]))])),
    ]);
    assert_eq!(
        parser2(&reply),
        Some(vec!["int. 喂".to_string(), "n. 问候".to_string(), "Hello".to_string()])
    );
}

#[test]
fn translation_reply_groups_that_are_no_objects() {
    let reply = obj(vec![
        ("errorCode", Json::Int(0)),
        ("web", Json::Array(vec![obj(vec![("value", Json::Array(vec![s("x")]))])])),
    ]);
    assert_eq!(parser2(&reply), Some(vec![]));
}

#[test]
fn translation_reply_error_code() {
    let reply = obj(vec![("errorCode", Json::Int(20)), ("basic", Json::Null)]);
    assert_eq!(parser2(&reply), None);
}

#[test]
fn lines_joined_for_display() {
    assert_eq!(join_lines(&vec![]), "");
    assert_eq!(join_lines(&vec!["a".to_string()]), "a");
    assert_eq!(join_lines(&vec!["a".to_string(), "".to_string(), "c".to_string()]), "a\n\nc");
}

#[test]
fn rich_text_shows_its_text() {
    let t = RichText { text: "hi".to_string(), color: 1, style: 2, font: 3 };
    assert_eq!(t.to_string(), "hi");
    assert_eq!(RichText::default().to_string(), "");
}

#[test]
fn every_line_is_coloured_and_indented() {
    let mut seed: u64 = 777;
    let mut pages = vec![ENGLISH_PAGE.to_string(), CHINESE_PAGE.to_string()];
    for _ in 0..200 {
        let mut page = String::from("<div id=\"phrsListTab\">");
        page.push_str(&random_page(&mut seed));
        page.push_str("<div id=\"webTrans\"");
        pages.push(page);
    }
    for page in pages {
        for line in parser(&page).unwrap() {
            assert!(
                line.starts_with("\u{1b}[37m  ") || line.starts_with("\u{1b}[36m  "),
                "line {:?}",
                line
            );
            assert!(line.ends_with("\u{1b}[0m"), "line {:?}", line);
        }
    }
}
