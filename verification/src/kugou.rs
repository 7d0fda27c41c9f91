//! The lyrics service: the addresses of a search and of a download, and the
//! decisions taken on its replies.
use vstd::prelude::*;
use vstd::string::StringExecFns;
use vstd::utf8::{encode_utf8, valid_utf8, decode_utf8, decode_utf8_encode_utf8};
use crate::json::{Json, field, int_of, field_of, int_field};
use crate::text::string_of;

verus! {

broadcast use vstd::string::group_string_axioms;

/// The upper-case hexadecimal digit of a value below 16.
pub open spec fn hex_digit(n: int) -> char {
    if n < 10 {
        (48 + n) as char
    } else {
        (55 + n) as char
    }
}

/// Each byte as `%` and two upper-case hexadecimal digits.
pub open spec fn percent_encoded(bytes: Seq<u8>) -> Seq<char>
    decreases bytes.len(),
{
    if bytes.len() == 0 {
        Seq::empty()
    } else {
        percent_encoded(bytes.drop_last()) + seq![
            '%',
            hex_digit(bytes.last() as int / 16),
            hex_digit(bytes.last() as int % 16),
        ]
    }
}

/// The keyword of a search for `name`: a name whose first UTF-8 byte is above 127
/// goes percent-encoded, byte by byte; any other name goes as it is.
pub open spec fn search_keyword(name: Seq<char>) -> Seq<char> {
    let bytes = encode_utf8(name);
    if bytes[0] > 127 {
        percent_encoded(bytes)
    } else {
        name
    }
}

/// The value of an upper-case hexadecimal digit.
pub open spec fn hex_value(c: char) -> int {
    if c <= '9' {
        c as int - 48
    } else {
        c as int - 55
    }
}

/// The bytes of a text of `%XX` triples, read back.
pub open spec fn percent_decoded(w: Seq<char>) -> Seq<u8>
    decreases w.len(),
{
    if w.len() < 3 {
        Seq::empty()
    } else {
        percent_decoded(w.subrange(0, w.len() - 3)) + seq![
            (hex_value(w[w.len() - 2]) * 16 + hex_value(w[w.len() - 1])) as u8,
        ]
    }
}

proof fn lemma_hex_digit_value(d: int)
    requires
        0 <= d < 16,
    ensures
        hex_value(hex_digit(d)) == d,
        hex_digit(d) == '%' ==> false,
{
}

proof fn lemma_percent_round_trip(bytes: Seq<u8>)
    ensures
        percent_encoded(bytes).len() == 3 * bytes.len(),
        percent_decoded(percent_encoded(bytes)) == bytes,
    decreases bytes.len(),
{
    if bytes.len() > 0 {
        let head = bytes.drop_last();
        let b = bytes.last();
        lemma_percent_round_trip(head);
        let w = percent_encoded(bytes);
        assert(w.subrange(0, w.len() - 3) =~= percent_encoded(head));
        lemma_hex_digit_value(b as int / 16);
        lemma_hex_digit_value(b as int % 16);
        assert((b as int / 16) * 16 + b as int % 16 == b as int) by (nonlinear_arith);
        assert(percent_decoded(w) =~= bytes);
    }
}

/// The keyword of a name that does not start with an ASCII character keeps every
/// byte of the name: it holds three characters for each byte, and reading its
/// `%XX` triples back gives the name's UTF-8 bytes.
pub proof fn lemma_keyword_reversible(name: Seq<char>)
    requires
        name.len() > 0,
        encode_utf8(name)[0] > 127,
    ensures
        search_keyword(name).len() == 3 * encode_utf8(name).len(),
        percent_decoded(search_keyword(name)) == encode_utf8(name),
{
    lemma_percent_round_trip(encode_utf8(name));
}

fn hex_char(n: u8) -> (c: char)
    requires
        n < 16,
    ensures
        c == hex_digit(n as int),
{
    if n < 10 {
        (n + 48) as char
    } else {
        (n + 55) as char
    }
}

/// The keyword of a search for a name (see `search_keyword`).
pub fn encode_keyword(name: &str) -> (w: String)
    requires
        name@.len() > 0,
    ensures
        w@ == search_keyword(name@),
{
    let bytes = name.as_bytes();
    assert(bytes@.len() > 0);
    if bytes[0] <= 127 {
        return name.to_owned();
    }
    let mut out: Vec<char> = Vec::new();
    for k in 0..bytes.len()
        invariant
            bytes@ == encode_utf8(name@),
            out@ == percent_encoded(bytes@.take(k as int)),
    {
        let b = bytes[k];
        out.push('%');
        out.push(hex_char(b / 16));
        out.push(hex_char(b % 16));
        assert(bytes@.take(k + 1).drop_last() == bytes@.take(k as int));
    }
    assert(bytes@.take(bytes@.len() as int) == bytes@);
    string_of(&out)
}

/// The decimal digit of a value below 10.
pub open spec fn digit(n: nat) -> char {
    (48 + n) as char
}

/// The decimal digits of a natural number, without leading zeros.
pub open spec fn digits(n: nat) -> Seq<char>
    decreases n,
{
    if n < 10 {
        seq![digit(n)]
    } else {
        digits(n / 10) + seq![digit(n % 10)]
    }
}

/// An integer in decimal, with a leading `-` when it is negative.
pub open spec fn decimal(n: int) -> Seq<char> {
    if n < 0 {
        seq!['-'] + digits((-n) as nat)
    } else {
        digits(n as nat)
    }
}

/// The value of a text of decimal digits.
pub open spec fn decimal_value(ds: Seq<char>) -> int
    decreases ds.len(),
{
    if ds.len() == 0 {
        0
    } else {
        decimal_value(ds.drop_last()) * 10 + (ds.last() as int - 48)
    }
}

proof fn lemma_digits_value(n: nat)
    ensures
        decimal_value(digits(n)) == n,
        digits(n).len() > 0,
        forall|k: int| 0 <= k < digits(n).len() ==> '0' <= #[trigger] digits(n)[k] <= '9',
    decreases n,
{
    if n < 10 {
        let ds = digits(n);
        assert(ds.drop_last() =~= Seq::<char>::empty());
        assert(digit(n) as int == 48 + n);
        assert(ds.last() == digit(n));
        assert(decimal_value(ds.drop_last()) == 0);
        assert(decimal_value(ds) == n);
    } else {
        lemma_digits_value(n / 10);
        let ds = digits(n);
        assert(ds.drop_last() =~= digits(n / 10));
        assert((n / 10) * 10 + n % 10 == n) by (nonlinear_arith);
        assert(ds.last() == digit(n % 10));
        assert(digit(n % 10) as int == 48 + n % 10);
        assert(decimal_value(ds) == decimal_value(ds.drop_last()) * 10 + (ds.last() as int - 48));
        assert(decimal_value(ds.drop_last()) == n / 10);
        assert(decimal_value(ds) == n);
        assert forall|k: int| 0 <= k < ds.len() implies '0' <= #[trigger] ds[k] <= '9' by {
            if k < ds.len() - 1 {
                assert(ds[k] == digits(n / 10)[k]);
            }
        }
    }
}

/// The decimal text of an integer reads back as that integer: digits only, after a
/// `-` exactly when it is negative.
pub proof fn lemma_decimal_faithful(n: int)
    ensures
        n < 0 ==> decimal(n)[0] == '-' && decimal_value(decimal(n).skip(1)) == -n,
        n >= 0 ==> decimal_value(decimal(n)) == n,
        forall|k: int|
            (if n < 0 { 1int } else { 0int }) <= k < decimal(n).len() ==> '0' <= #[trigger] decimal(
                n,
            )[k] <= '9',
{
    if n < 0 {
        lemma_digits_value((-n) as nat);
        let d = decimal(n);
        assert(d.skip(1) =~= digits((-n) as nat));
        assert forall|k: int| 1 <= k < d.len() implies '0' <= #[trigger] d[k] <= '9' by {
            assert(d[k] == digits((-n) as nat)[k - 1]);
        }
    } else {
        lemma_digits_value(n as nat);
    }
}

/// An integer in decimal, as `format!("{}", n)` writes it.
pub fn decimal_of(n: i32) -> (s: String)
    ensures
        s@ == decimal(n as int),
{
    let mut m: u64 = if n < 0 {
        (0 - (n as i64)) as u64
    } else {
        n as u64
    };
    let ghost m0 = m as nat;
    let mut acc: Vec<char> = Vec::new();
    while m >= 10
        invariant
            digits(m0) == digits(m as nat) + acc@,
        decreases m,
    {
        let d = (m % 10) as u8;
        acc.insert(0, (d + 48) as char);
        assert(digits(m as nat) == digits((m / 10) as nat) + seq![digit((m % 10) as nat)]);
        m = m / 10;
    }
    acc.insert(0, ((m as u8) + 48) as char);
    if n < 0 {
        acc.insert(0, '-');
    }
    string_of(&acc)
}

/// The address of a search for lyrics by name and duration in milliseconds.
pub open spec fn search_address(name: Seq<char>, msec: i32) -> Seq<char> {
    "http://lyrics.kugou.com/search?ver=1&man=yes&client=pc&keyword="@ + search_keyword(name)
        + "&duration="@ + decimal(msec as int) + "&hash="@
}

/// The address of a search for lyrics by name and duration in milliseconds.
pub fn search_url(name: &str, msec: i32) -> (url: String)
    requires
        name@.len() > 0,
    ensures
        url@ == search_address(name@, msec),
{
    let w = encode_keyword(name);
    let d = decimal_of(msec);
    let mut url = String::from_str("http://lyrics.kugou.com/search?ver=1&man=yes&client=pc&keyword=");
    url.append(w.as_str());
    url.append("&duration=");
    url.append(d.as_str());
    url.append("&hash=");
    url
}

/// The address of the download of one set of lyrics.
pub open spec fn download_address(id: Seq<char>, accesskey: Seq<char>) -> Seq<char> {
    "http://lyrics.kugou.com/download?ver=1&client=pc&id="@ + id + "&accesskey="@ + accesskey
        + "&fmt=lrc&charset=utf8"@
}

/// The address of the download of one set of lyrics.
pub fn download_url(id: &str, accesskey: &str) -> (url: String)
    ensures
        url@ == download_address(id@, accesskey@),
{
    let mut url = String::from_str("http://lyrics.kugou.com/download?ver=1&client=pc&id=");
    url.append(id);
    url.append("&accesskey=");
    url.append(accesskey);
    url.append("&fmt=lrc&charset=utf8");
    url
}


/// The text of a JSON string; empty for any other value.
pub open spec fn text_of(value: Json) -> Seq<char> {
    match value {
        Json::Str(s) => s@,
        _ => Seq::empty(),
    }
}

/// A search reply that can be read: `status` is an integer, and when it is 200,
/// `candidates` is a list whose items each have string fields `id` and `accesskey`.
pub open spec fn search_readable(reply: Json) -> bool {
    &&& int_of(field(reply, "status"@)) is Some
    &&& int_of(field(reply, "status"@)) == Some(200i64) ==> {
        &&& field(reply, "candidates"@) is Array
        &&& forall|k: int|
            0 <= k < field(reply, "candidates"@)->Array_0@.len() ==> {
                &&& field(#[trigger] field(reply, "candidates"@)->Array_0@[k], "id"@) is Str
                &&& field(field(reply, "candidates"@)->Array_0@[k], "accesskey"@) is Str
            }
    }
}

/// The `(id, accesskey)` of each candidate of a search reply whose `status` is 200;
/// none for any other status.
pub open spec fn candidates(reply: Json) -> Option<Seq<(Seq<char>, Seq<char>)>> {
    if int_of(field(reply, "status"@)) != Some(200i64) {
        None
    } else {
        Some(
            field(reply, "candidates"@)->Array_0@.map_values(
                |c: Json| (text_of(field(c, "id"@)), text_of(field(c, "accesskey"@))),
            ),
        )
    }
}

/// What a search reply gives, checked against its fields: any status but 200
/// gives none; with status 200, one pair for each item of `candidates`, in order,
/// the `k`-th holding the `k`-th item's `id` and `accesskey`.
pub proof fn lemma_candidates_every_item(reply: Json)
    requires
        search_readable(reply),
    ensures
        int_of(field(reply, "status"@)) != Some(200i64) <==> candidates(reply) is None,
        int_of(field(reply, "status"@)) == Some(200i64) ==> {
            let items = field(reply, "candidates"@)->Array_0@;
            let found = candidates(reply)->Some_0;
            &&& found.len() == items.len()
            &&& forall|k: int|
                0 <= k < items.len() ==> {
                    &&& (#[trigger] found[k]).0 == field(items[k], "id"@)->Str_0@
                    &&& found[k].1 == field(items[k], "accesskey"@)->Str_0@
                }
        },
{
    if int_of(field(reply, "status"@)) == Some(200i64) {
        let items = field(reply, "candidates"@)->Array_0@;
        let found = candidates(reply)->Some_0;
        assert forall|k: int| 0 <= k < items.len() implies {
            &&& (#[trigger] found[k]).0 == field(items[k], "id"@)->Str_0@
            &&& found[k].1 == field(items[k], "accesskey"@)->Str_0@
        } by {
            assert(field(items[k], "id"@) is Str);
            assert(field(items[k], "accesskey"@) is Str);
        }
    }
}

/// A string field, where the reply has one.
fn string_field(value: &Json, key: &str) -> (r: String)
    requires
        field(*value, key@) is Str,
    ensures
        r@ == text_of(field(*value, key@)),
{
    match field_of(value, key) {
        Some(Json::Str(s)) => s.clone(),
        _ => String::new(),
    }
}

/// Whether a search reply can be read (see `search_readable`).
pub fn search_reply_readable(reply: &Json) -> (r: bool)
    ensures
        r == search_readable(*reply),
{
    match int_field(reply, "status") {
        None => false,
        Some(status) => {
            if status != 200 {
                return true;
            }
            match field_of(reply, "candidates") {
                Some(Json::Array(items)) => {
                    for k in 0..items.len()
                        invariant
                            int_of(field(*reply, "status"@)) == Some(200i64),
                            field(*reply, "candidates"@) == Json::Array(*items),
                            forall|j: int|
                                0 <= j < k ==> {
                                    &&& field(#[trigger] items@[j], "id"@) is Str
                                    &&& field(items@[j], "accesskey"@) is Str
                                },
                    {
                        let id_ok = match field_of(&items[k], "id") {
                            Some(Json::Str(_)) => true,
                            _ => false,
                        };
                        let key_ok = match field_of(&items[k], "accesskey") {
                            Some(Json::Str(_)) => true,
                            _ => false,
                        };
                        if !id_ok || !key_ok {
                            assert(field(*reply, "candidates"@)->Array_0@[k as int] == items@[k as int]);
                            assert(!(field(items@[k as int], "id"@) is Str) || !(field(
                                items@[k as int],
                                "accesskey"@,
                            ) is Str));
                            return false;
                        }
                    }
                    true
                },
                _ => false,
            }
        },
    }
}

/// The candidates of a search reply: `None` when its `status` is not 200, else
/// the `id` and `accesskey` of each item of `candidates`, in order.
pub fn search_candidates(reply: &Json) -> (r: Option<Vec<(String, String)>>)
    requires
        search_readable(*reply),
    ensures
        match r {
            None => candidates(*reply) is None,
            Some(found) => candidates(*reply) matches Some(expected) && found@.len()
                == expected.len() && forall|k: int|
                0 <= k < expected.len() ==> (#[trigger] found@[k]).0@ == expected[k].0
                    && found@[k].1@ == expected[k].1,
        },
{
    if int_field(reply, "status") != Some(200i64) {
        return None;
    }
    let items = match field_of(reply, "candidates") {
        Some(Json::Array(items)) => items,
        _ => {
            return Some(Vec::new());
        },
    };
    let ghost expected = candidates(*reply)->Some_0;
    let mut found: Vec<(String, String)> = Vec::new();
    for k in 0..items.len()
        invariant
            search_readable(*reply),
            int_of(field(*reply, "status"@)) == Some(200i64),
            field(*reply, "candidates"@) == Json::Array(*items),
            expected == candidates(*reply)->Some_0,
            found@.len() == k,
            forall|j: int|
                0 <= j < k ==> (#[trigger] found@[j]).0@ == expected[j].0 && found@[j].1@
                    == expected[j].1,
    {
        assert(field(items@[k as int], "id"@) is Str);
        let id = string_field(&items[k], "id");
        let key = string_field(&items[k], "accesskey");
        found.push((id, key));
    }
    Some(found)
}


#[verifier::external_type_specification]
#[verifier::external_body]
pub struct ExDecodeError(base64::DecodeError);

/// The bytes that standard Base64 (RFC 4648 alphabet, with padding) decodes from
/// the UTF-8 bytes of a text, or none where the text is no valid encoding.
pub uninterp spec fn base64_decoded(text: Seq<char>) -> Option<Seq<u8>>;

/// `base64::decode`: the bytes of standard Base64 text. Its result is named, not
/// stated: `Ok` with the decoded bytes exactly where `base64_decoded` has some.
#[verifier::external_body]
#[allow(deprecated)]
fn base64_decode(text: &str) -> (r: Result<Vec<u8>, base64::DecodeError>)
    ensures
        match r {
            Ok(bytes) => base64_decoded(text@) == Some(bytes@),
            Err(_) => base64_decoded(text@) is None,
        },
{
    base64::decode(text)
}

/// `String::from_utf8`: the text of bytes exactly when they are valid UTF-8.
#[verifier::external_body]
fn utf8_text(bytes: Vec<u8>) -> (r: Option<String>)
    ensures
        r is Some <==> valid_utf8(bytes@),
        r matches Some(s) ==> s@ == decode_utf8(bytes@),
{
    String::from_utf8(bytes).ok()
}

/// What a download reply gives.
#[derive(Debug)]
pub enum Lyrics {
    /// The lyrics, decoded.
    Text(String),
    /// `content` is no valid Base64.
    NotBase64,
    /// `content` decodes to bytes that are no valid UTF-8.
    NotUtf8,
    /// `status` is not 200.
    Refused,
}

/// A download reply that can be read: `status` is an integer, and when it is 200,
/// `content` is a string.
pub open spec fn download_readable(reply: Json) -> bool {
    &&& int_of(field(reply, "status"@)) is Some
    &&& int_of(field(reply, "status"@)) == Some(200i64) ==> field(reply, "content"@) is Str
}

/// `result` is what a download reply gives: refused when its `status` is not 200;
/// else the Base64 text `content`, decoded, then read as UTF-8.
pub open spec fn lyrics_of(reply: Json, result: Lyrics) -> bool {
    if int_of(field(reply, "status"@)) != Some(200i64) {
        result is Refused
    } else {
        match base64_decoded(text_of(field(reply, "content"@))) {
            None => result is NotBase64,
            Some(bytes) => if valid_utf8(bytes) {
                result matches Lyrics::Text(t) && t@ == decode_utf8(bytes)
            } else {
                result is NotUtf8
            },
        }
    }
}

/// Whether a download reply can be read (see `download_readable`).
pub fn download_reply_readable(reply: &Json) -> (r: bool)
    ensures
        r == download_readable(*reply),
{
    match int_field(reply, "status") {
        None => false,
        Some(status) => status != 200 || match field_of(reply, "content") {
            Some(Json::Str(_)) => true,
            _ => false,
        },
    }
}

/// What a download reply gives, checked against its fields: any status but 200
/// refuses; with status 200, lyrics come back exactly when `content` is Base64 of
/// valid UTF-8, and then the lyrics, encoded as UTF-8 again, are every byte that
/// `content` decodes to, no more and no fewer.
pub proof fn lemma_lyrics_whole(reply: Json, result: Lyrics)
    requires
        lyrics_of(reply, result),
    ensures
        int_of(field(reply, "status"@)) != Some(200i64) <==> result is Refused,
        result matches Lyrics::Text(t) ==> int_of(field(reply, "status"@)) == Some(200i64)
            && base64_decoded(text_of(field(reply, "content"@))) == Some(encode_utf8(t@)),
        int_of(field(reply, "status"@)) == Some(200i64) ==> (base64_decoded(
            text_of(field(reply, "content"@)),
        ) matches Some(bytes) ==> (valid_utf8(bytes) <==> result is Text)),
        result is NotBase64 <==> (int_of(field(reply, "status"@)) == Some(200i64) && base64_decoded(
            text_of(field(reply, "content"@)),
        ) is None),
{
    if int_of(field(reply, "status"@)) == Some(200i64) {
        if let Some(bytes) = base64_decoded(text_of(field(reply, "content"@))) {
            if valid_utf8(bytes) {
                decode_utf8_encode_utf8(bytes);
            }
        }
    }
}

/// The lyrics that a download reply gives (see `lyrics_of`).
pub fn lyrics_text(reply: &Json) -> (r: Lyrics)
    requires
        download_readable(*reply),
    ensures
        lyrics_of(*reply, r),
{
    if int_field(reply, "status") != Some(200i64) {
        return Lyrics::Refused;
    }
    let content = string_field(reply, "content");
    match base64_decode(content.as_str()) {
        Err(_) => Lyrics::NotBase64,
        Ok(bytes) => match utf8_text(bytes) {
            Some(t) => Lyrics::Text(t),
            None => Lyrics::NotUtf8,
        },
    }
}

} // verus!
