//! What the library takes from the standard library and from other crates, and
//! what it relies on each of them for.

use vstd::prelude::*;
use vstd::utf8::*;
use crate::markup;
use crate::text;

verus! {

// ---------------------------------------------------------------------------
// Characters and encodings
// ---------------------------------------------------------------------------

/// The code point is a Unicode scalar value.
pub open spec fn is_scalar_value(n: int) -> bool {
    0 <= n <= 0xD7FF || 0xE000 <= n <= 0x10FFFF
}

/// `char::from_u32` gives the character with that code point, where there is
/// one.
pub assume_specification[ char::from_u32 ](i: u32) -> (r: Option<char>)
    ensures
        match r {
            Some(c) => is_scalar_value(i as int) && c as int == i,
            None => !is_scalar_value(i as int),
        },
;

/// `String::from_utf8` decodes the bytes where they are well-formed UTF-8, and
/// fails otherwise.
#[verifier::external_body]
pub(crate) fn utf8_strict(bytes: &[u8]) -> (r: Option<String>)
    ensures
        match r {
            Some(s) => valid_utf8(bytes@) && s@ == decode_utf8(bytes@),
            None => !valid_utf8(bytes@),
        },
{
    String::from_utf8(bytes.to_vec()).ok()
}

/// What `String::from_utf8_lossy` makes of the bytes.
pub uninterp spec fn utf8_lossy_decoded(bytes: Seq<u8>) -> Seq<char>;

/// `String::from_utf8_lossy` depends on the bytes alone, and decodes those that
/// are well-formed UTF-8. Where they are not, how many replacement characters
/// stand for which bytes is left unsaid.
#[verifier::external_body]
pub(crate) fn utf8_lossy(bytes: &[u8]) -> (r: String)
    ensures
        r@ == utf8_lossy_decoded(bytes@),
        valid_utf8(bytes@) ==> r@ == decode_utf8(bytes@),
{
    String::from_utf8_lossy(bytes).into_owned()
}

/// What `str::to_lowercase` makes of the characters.
pub uninterp spec fn lowercase(s: Seq<char>) -> Seq<char>;

/// `str::to_lowercase` depends on the string alone; on ASCII it lowers `A` to
/// `Z` and leaves the rest. The mapping of the other letters is left unsaid.
#[verifier::external_body]
pub(crate) fn to_lowercase(s: &str) -> (r: String)
    ensures
        r@ == lowercase(s@),
        is_ascii_chars(s@) ==> r@ == text::ascii_lowered(s@),
{
    s.to_lowercase()
}

/// What `str::to_uppercase` makes of the characters.
pub uninterp spec fn uppercase(s: Seq<char>) -> Seq<char>;

/// `str::to_uppercase` depends on the string alone; on ASCII it raises `a` to
/// `z` and leaves the rest. The mapping of the other letters is left unsaid.
#[verifier::external_body]
pub(crate) fn to_uppercase(s: &str) -> (r: String)
    ensures
        r@ == uppercase(s@),
        is_ascii_chars(s@) ==> r@ == text::ascii_uppered(s@),
{
    s.to_uppercase()
}

// ---------------------------------------------------------------------------
// Percent-encoding
// ---------------------------------------------------------------------------

/// The byte is an ASCII hexadecimal digit.
pub open spec fn is_hex(b: u8) -> bool {
    48 <= b <= 57 || 65 <= b <= 70 || 97 <= b <= 102
}

/// The value of an ASCII hexadecimal digit.
pub open spec fn hex_value(b: u8) -> int {
    if 48 <= b <= 57 {
        b - 48
    } else if 65 <= b <= 70 {
        b - 55
    } else {
        b - 87
    }
}

/// The bytes with each `%` and two hexadecimal digits turned into one byte. A
/// `%` that no two digits follow stays.
pub open spec fn percent_decoded(b: Seq<u8>) -> Seq<u8>
    decreases b.len(),
{
    if b.len() == 0 {
        Seq::empty()
    } else if b[0] == 37 && b.len() >= 3 && is_hex(b[1]) && is_hex(b[2]) {
        seq![(16 * hex_value(b[1]) + hex_value(b[2])) as u8] + percent_decoded(b.skip(3))
    } else {
        seq![b[0]] + percent_decoded(b.skip(1))
    }
}

/// The string with its percent-escapes decoded, where the outcome is UTF-8.
pub open spec fn url_decoded(s: Seq<char>) -> Option<Seq<char>> {
    let b = percent_decoded(encode_utf8(s));
    if valid_utf8(b) {
        Some(decode_utf8(b))
    } else {
        None
    }
}

/// The byte stands for itself in a percent-encoded string: an ASCII letter or
/// digit, or one of `-`, `.`, `_`, `~`.
pub open spec fn is_unreserved(b: u8) -> bool {
    48 <= b <= 57 || 65 <= b <= 90 || 97 <= b <= 122 || b == 45 || b == 46 || b == 95 || b == 126
}

/// The capital hexadecimal digit for a value under sixteen.
pub open spec fn hex_upper(n: int) -> char {
    if n < 10 {
        (n + 48) as char
    } else {
        (n + 55) as char
    }
}

/// A byte as percent-encoding writes it.
pub open spec fn percent_encoded_byte(b: u8) -> Seq<char> {
    if is_unreserved(b) {
        seq![b as char]
    } else {
        seq!['%', hex_upper(b as int / 16), hex_upper(b as int % 16)]
    }
}

/// Bytes as percent-encoding writes them.
pub open spec fn percent_encoded(b: Seq<u8>) -> Seq<char>
    decreases b.len(),
{
    if b.len() == 0 {
        Seq::empty()
    } else {
        percent_encoded_byte(b[0]) + percent_encoded(b.skip(1))
    }
}

/// The string with every byte of its UTF-8 form but the unreserved ones
/// escaped.
pub open spec fn url_encoded(s: Seq<char>) -> Seq<char> {
    percent_encoded(encode_utf8(s))
}

/// `urlencoding::decode` decodes the percent-escapes of the string, and fails
/// where the outcome is not UTF-8.
#[verifier::external_body]
pub(crate) fn url_decode(s: &str) -> (r: Option<String>)
    ensures
        text::opt_view(r) == url_decoded(s@),
{
    match urlencoding::decode(s) {
        Ok(t) => Some(t.into_owned()),
        Err(_) => None,
    }
}

/// `urlencoding::decode_binary` decodes the percent-escapes of the bytes.
#[verifier::external_body]
pub(crate) fn url_decode_bytes(b: &[u8]) -> (r: Vec<u8>)
    ensures
        r@ == percent_decoded(b@),
{
    urlencoding::decode_binary(b).into_owned()
}

/// `urlencoding::encode` escapes every byte of the string but the unreserved
/// ones.
#[verifier::external_body]
pub(crate) fn url_encode(s: &str) -> (r: String)
    ensures
        r@ == url_encoded(s@),
{
    urlencoding::encode(s).into_owned()
}

// ---------------------------------------------------------------------------
// JSON, patterns, digests
// ---------------------------------------------------------------------------

/// The small hexadecimal digit for a value under sixteen.
pub open spec fn hex_lower(n: int) -> char {
    if n < 10 {
        (n + 48) as char
    } else {
        (n + 87) as char
    }
}

/// A character as it stands in a JSON string.
pub open spec fn json_char(c: char) -> Seq<char> {
    if c == '"' {
        seq!['\\', '"']
    } else if c == '\\' {
        seq!['\\', '\\']
    } else if c as int == 8 {
        seq!['\\', 'b']
    } else if c == '\t' {
        seq!['\\', 't']
    } else if c == '\n' {
        seq!['\\', 'n']
    } else if c as int == 12 {
        seq!['\\', 'f']
    } else if c == '\r' {
        seq!['\\', 'r']
    } else if (c as int) < 32 {
        seq!['\\', 'u', '0', '0', hex_lower(c as int / 16), hex_lower(c as int % 16)]
    } else {
        seq![c]
    }
}

/// The characters of a JSON string, escaped.
pub open spec fn json_chars(s: Seq<char>) -> Seq<char>
    decreases s.len(),
{
    if s.len() == 0 {
        Seq::empty()
    } else {
        json_char(s[0]) + json_chars(s.skip(1))
    }
}

/// The string as a JSON string, quotes and all.
pub open spec fn json_quoted(s: Seq<char>) -> Seq<char> {
    seq!['"'] + json_chars(s) + seq!['"']
}

/// `serde_json::to_string` writes a string as JSON: the quote, the backslash
/// and the characters below the space escaped, everything else as it is.
#[verifier::external_body]
pub(crate) fn json_string(s: &str) -> (r: String)
    ensures
        r@ == json_quoted(s@),
{
    serde_json::to_string(s).unwrap()
}

/// `serde_json::Value`, a JSON value.
#[verifier::external_type_specification]
#[verifier::external_body]
pub struct ExValue(serde_json::Value);

/// What a JSON value holds.
pub ghost enum Json {
    Null,
    Text(Seq<char>),
    List(Seq<Json>),
    Object(Map<Seq<char>, Json>),
    /// A number, or true or false, as JSON writes it.
    Other(Seq<char>),
}

/// What a JSON value of `serde_json` holds.
pub uninterp spec fn json_of(v: serde_json::Value) -> Json;

/// What JSON values of `serde_json` hold.
pub open spec fn jsons_of(v: Seq<serde_json::Value>) -> Seq<Json> {
    v.map_values(|x: serde_json::Value| json_of(x))
}

/// The members of an object; none where the value is no object.
pub open spec fn json_members(j: Json) -> Map<Seq<char>, Json> {
    match j {
        Json::Object(m) => m,
        _ => Map::empty(),
    }
}

/// The member of an object with the name.
pub open spec fn json_member(j: Json, name: Seq<char>) -> Option<Json> {
    if json_members(j).contains_key(name) {
        Some(json_members(j)[name])
    } else {
        None
    }
}

/// The string that a value is.
pub open spec fn json_text(j: Json) -> Option<Seq<char>> {
    match j {
        Json::Text(s) => Some(s),
        _ => None,
    }
}

/// The string that a member of an object is.
pub open spec fn json_member_text(j: Json, name: Seq<char>) -> Option<Seq<char>> {
    match json_member(j, name) {
        Some(m) => json_text(m),
        None => None,
    }
}

/// Members can be put into the value: it is an object, or null, which becomes
/// one.
pub open spec fn json_takes_members(j: Json) -> bool {
    j is Object || j is Null
}

/// A string or null as JSON writes it.
pub open spec fn json_text_or_null(s: Option<Seq<char>>) -> Seq<char> {
    match s {
        Some(t) => json_quoted(t),
        None => "null"@,
    }
}

/// A string or null.
pub open spec fn json_of_text_or_null(s: Option<Seq<char>>) -> Json {
    match s {
        Some(t) => Json::Text(t),
        None => Json::Null,
    }
}

/// An object with two members, strings or null, as JSON writes it.
pub open spec fn json_pair(
    a: Seq<char>,
    x: Option<Seq<char>>,
    b: Seq<char>,
    y: Option<Seq<char>>,
) -> Seq<char> {
    "{"@ + json_quoted(a) + ":"@ + json_text_or_null(x) + ","@ + json_quoted(b) + ":"@
        + json_text_or_null(y) + "}"@
}

/// The characters stand for themselves in a JSON string.
pub open spec fn is_json_plain(s: Seq<char>) -> bool {
    forall|i: int| 0 <= i < s.len() ==> json_char(#[trigger] s[i]) == seq![s[i]]
}

/// Characters that stand for themselves are written as they are.
pub(crate) proof fn lemma_json_plain(s: Seq<char>)
    requires
        is_json_plain(s),
    ensures
        json_quoted(s) == seq!['"'] + s + seq!['"'],
    decreases s.len(),
{
    if s.len() > 0 {
        let t = s.skip(1);
        assert forall|i: int| 0 <= i < t.len() implies json_char(#[trigger] t[i]) == seq![t[i]] by {
            assert(t[i] == s[i + 1]);
        }
        lemma_json_plain(t);
        assert(json_chars(t) =~= json_quoted(t).subrange(1, json_quoted(t).len() - 1));
        assert(json_chars(t) =~= t);
        assert(json_char(s[0]) == seq![s[0]]);
        assert(json_chars(s) =~= s);
    } else {
        assert(json_chars(s) =~= s);
    }
}

/// What `serde_json::from_str` reads: the value, or the report of what is wrong
/// with the text.
pub uninterp spec fn json_parsed(s: Seq<char>) -> Result<Json, Seq<char>>;

/// `serde_json::from_str` depends on the text alone, and so does the report of
/// its error. It reads an object of two members with different names, strings or
/// null, as it is written. The rest of the grammar, and the words of the report,
/// are left unsaid.
#[verifier::external_body]
pub(crate) fn json_parse(s: &str) -> (r: Result<serde_json::Value, String>)
    ensures
        match r {
            Ok(v) => json_parsed(s@) == Ok::<Json, Seq<char>>(json_of(v)),
            Err(e) => json_parsed(s@) == Err::<Json, Seq<char>>(e@),
        },
        forall|a: Seq<char>, x: Option<Seq<char>>, b: Seq<char>, y: Option<Seq<char>>|
            s@ == #[trigger] json_pair(a, x, b, y) && a != b ==> r is Ok && json_of(r->Ok_0)
                == Json::Object(
                map![a => json_of_text_or_null(x), b => json_of_text_or_null(y)],
            ),
{
    match serde_json::from_str::<serde_json::Value>(s) {
        Ok(v) => Ok(v),
        Err(e) => Err(e.to_string()),
    }
}

/// What `serde_json::to_string_pretty` writes for a value.
pub uninterp spec fn json_pretty_of(j: Json) -> Seq<char>;

/// `serde_json::to_string_pretty` depends on what the value holds alone, and
/// writes every value. How it is laid out is left unsaid.
#[verifier::external_body]
pub(crate) fn json_pretty(v: &serde_json::Value) -> (r: String)
    ensures
        r@ == json_pretty_of(json_of(*v)),
{
    serde_json::to_string_pretty(v).unwrap()
}

/// `serde_json::Value::get` gives the member of an object with the name; nothing
/// where there is none, or the value is no object.
#[verifier::external_body]
pub(crate) fn json_get<'a>(v: &'a serde_json::Value, name: &str) -> (r: Option<&'a serde_json::Value>)
    ensures
        match r {
            Some(m) => json_member(json_of(*v), name@) == Some(json_of(*m)),
            None => json_member(json_of(*v), name@) is None,
        },
{
    v.get(name)
}

/// `serde_json::Value::is_object` says whether the value is an object.
#[verifier::external_body]
pub(crate) fn json_is_object(v: &serde_json::Value) -> (r: bool)
    ensures
        r == (json_of(*v) is Object),
{
    v.is_object()
}

/// `serde_json::Value::is_null` says whether the value is null.
#[verifier::external_body]
pub(crate) fn json_is_null(v: &serde_json::Value) -> (r: bool)
    ensures
        r == (json_of(*v) is Null),
{
    v.is_null()
}

/// `serde_json::Value::as_str` gives the string that the value is.
#[verifier::external_body]
pub(crate) fn json_as_str(v: &serde_json::Value) -> (r: Option<&str>)
    ensures
        match r {
            Some(s) => json_text(json_of(*v)) == Some(s@),
            None => json_text(json_of(*v)) is None,
        },
{
    v.as_str()
}

/// The string that a member of an object is.
pub(crate) fn json_get_text(v: &serde_json::Value, name: &str) -> (r: Option<String>)
    ensures
        text::opt_view(r) == json_member_text(json_of(*v), name@),
{
    match json_get(v, name) {
        Some(m) => match json_as_str(m) {
            Some(s) => Some(s.to_owned()),
            None => None,
        },
        None => None,
    }
}

/// `serde_json::Value::as_array` gives the items of the list that the value is;
/// here a copy of them.
#[verifier::external_body]
pub(crate) fn json_as_array(v: &serde_json::Value) -> (r: Option<Vec<serde_json::Value>>)
    ensures
        match r {
            Some(l) => json_of(*v) == Json::List(jsons_of(l@)),
            None => !(json_of(*v) is List),
        },
{
    v.as_array().cloned()
}

/// `serde_json::Value::String`, the JSON value of a string.
#[verifier::external_body]
pub(crate) fn json_string_value(s: String) -> (r: serde_json::Value)
    ensures
        json_of(r) == Json::Text(s@),
{
    serde_json::Value::String(s)
}

/// `serde_json::Value::Array`, the JSON value of a list.
#[verifier::external_body]
pub(crate) fn json_array_value(items: Vec<serde_json::Value>) -> (r: serde_json::Value)
    ensures
        json_of(r) == Json::List(jsons_of(items@)),
{
    serde_json::Value::Array(items)
}

/// Assignment to a member of a `serde_json::Value`, by its index operator, puts
/// the member into the object, in place of the one with the name, if any. Null
/// becomes an object; other values panic, and are left out.
#[verifier::external_body]
pub(crate) fn json_set(v: &mut serde_json::Value, name: &str, item: serde_json::Value)
    requires
        json_takes_members(json_of(*old(v))),
    ensures
        json_of(*final(v)) == Json::Object(
            json_members(json_of(*old(v))).insert(name@, json_of(item)),
        ),
{
    v[name] = item;
}

/// The strings that `serde_json::from_str` reads as a list of strings.
pub uninterp spec fn json_strings_parsed(s: Seq<char>) -> Option<Seq<Seq<char>>>;

/// `serde_json::from_str`, for a list of strings, depends on the text alone.
/// Which texts are such lists is left unsaid.
#[verifier::external_body]
pub(crate) fn json_strings(s: &str) -> (r: Option<Vec<String>>)
    ensures
        match r {
            Some(v) => json_strings_parsed(s@) == Some(text::views(v@)),
            None => json_strings_parsed(s@) is None,
        },
{
    serde_json::from_str::<Vec<String>>(s).ok()
}

/// What `regex::Regex::replace_all` makes of the text with the pattern and the
/// replacement; nothing where `regex::Regex::new` refuses the pattern.
pub uninterp spec fn regex_replaced(
    pattern: Seq<char>,
    text: Seq<char>,
    replacement: Seq<char>,
) -> Option<Seq<char>>;

/// `regex::Regex::replace_all`, for the pattern that `regex::Regex::new`
/// compiles, depends on the three strings alone. Where each match is replaced
/// by nothing, or by its first group, which is a part of it, the outcome is
/// shorter than the text, or is the text. Of seven patterns, each a pattern that
/// compiles, it is said what they match, by the syntax that the crate documents:
/// each stretch that is missing from the outcome is one that the pattern
/// describes, and the outcome is not the text where the text holds such a
/// stretch. Letters match in either case, the long s counting as an s; `\s` is
/// white space, and `\w` is in ASCII a letter, a digit or an underscore. What any
/// other pattern matches is left unsaid.
#[verifier::external_body]
pub(crate) fn regex_replace(pattern: &str, text: &str, replacement: &str) -> (r: Option<String>)
    ensures
        text::opt_view(r) == regex_replaced(pattern@, text@, replacement@),
        match r {
            Some(t) => replacement@ == ""@ || replacement@ == "$1"@ ==> t@.len() < text@.len()
                || t@ == text@,
            None => true,
        },
        pattern@ == "(?is)<script[^>]*>.*?</script[^>]*>"@ && replacement@ == ""@ ==> r is Some && markup::is_without(
            markup::Danger::ScriptElement,
            text@,
            r->0@,
        ),
        pattern@ == "(?i)</?script\\b[^>]*>"@ && replacement@ == ""@ ==> r is Some && markup::is_without(
            markup::Danger::ScriptTag,
            text@,
            r->0@,
        ),
        pattern@ == "(?i)\\s+on\\w+\\s*=\\s*[\"'][^\"']*[\"']"@ && replacement@ == ""@ ==> r is Some && markup::is_without(
            markup::Danger::QuotedHandler,
            text@,
            r->0@,
        ),
        pattern@ == "(?i)(<[a-z](?:=\\s*\"[^\"]*\"|=\\s*'[^']*'|[^>])*?)\\s+on\\w+\\s*=\\s*(?:\"[^\"]*\"|'[^']*'|[^\\s>\"']*)"@ && replacement@ == "$1"@ ==> r is Some && markup::is_without(
            markup::Danger::SpacedHandler,
            text@,
            r->0@,
        ),
        pattern@ == "(?i)(<[a-z](?:[^>\"']|\"[^\"]*\"|'[^']*')*?(?:/|\"[^\"]*\"|'[^']*'))on\\w+\\s*=\\s*(?:\"[^\"]*\"|'[^']*'|[^\\s>\"']*)"@ && replacement@ == "$1"@ ==> r is Some && markup::is_without(
            markup::Danger::JoinedHandler,
            text@,
            r->0@,
        ),
        pattern@ == "(?i)(href|src|action|formaction|data)\\s*=\\s*[\"']\\s*javascript:[^\"']*[\"']"@ && replacement@ == ""@ ==> r is Some && markup::is_without(
            markup::Danger::ScriptAttribute,
            text@,
            r->0@,
        ),
        pattern@ == "(?i)expression\\s*\\([^)]*\\)|javascript:"@ && replacement@ == ""@ ==> r is Some && markup::is_without(
            markup::Danger::Remnant,
            text@,
            r->0@,
        ),
{
    match regex::Regex::new(pattern) {
        Ok(re) => Some(re.replace_all(text, replacement).into_owned()),
        Err(_) => None,
    }
}

/// The digest that `md5::compute` gives of the bytes, in hexadecimal.
pub uninterp spec fn md5_hex_of(bytes: Seq<u8>) -> Seq<char>;

/// `md5::compute`, written with two small hexadecimal digits for each of its
/// sixteen bytes. Which digest belongs to which bytes is left unsaid.
#[verifier::external_body]
pub(crate) fn md5_hex(s: &str) -> (r: String)
    ensures
        r@ == md5_hex_of(encode_utf8(s@)),
        r@.len() == 32,
        forall|i: int| 0 <= i < 32 ==> '0' <= #[trigger] r@[i] <= '9' || 'a' <= r@[i] <= 'f',
{
    format!("{:x}", md5::compute(s.as_bytes()))
}

/// The bytes that the `base64` crate's engine for the URL-safe alphabet without
/// padding decodes the string to, where it does.
pub uninterp spec fn base64url_decoded(s: Seq<char>) -> Option<Seq<u8>>;

/// `base64::engine::general_purpose::URL_SAFE_NO_PAD.decode` depends on the
/// string alone. Which bytes belong to which string is left unsaid.
#[verifier::external_body]
pub(crate) fn base64url_decode(s: &str) -> (r: Option<Vec<u8>>)
    ensures
        match r {
            Some(b) => base64url_decoded(s@) == Some(b@),
            None => base64url_decoded(s@) is None,
        },
{
    base64::Engine::decode(&base64::engine::general_purpose::URL_SAFE_NO_PAD, s).ok()
}

// ---------------------------------------------------------------------------
// Time
// ---------------------------------------------------------------------------

/// The text is a time to the second, in fourteen digits.
pub open spec fn is_stamp(s: Seq<char>) -> bool {
    s.len() == 14 && forall|i: int| 0 <= i < 14 ==> '0' <= #[trigger] s[i] <= '9'
}

/// The text is a time to the second; in a year that does not have four digits
/// it begins with the year's sign.
pub open spec fn is_time(s: Seq<char>) -> bool {
    s.len() > 0 && (s[0] == '+' || s[0] == '-' || is_stamp(s))
}

/// `chrono::Local::now`, written by `chrono::DateTime::format`: four digits of
/// the year, with a sign and as many digits as it takes outside the years 0 to
/// 9999, and two of the month, the day, the hour, the minute and the second
/// each. Which time it is depends on the clock and the machine's time zone, and
/// is left unsaid.
#[verifier::external_body]
pub(crate) fn local_time(format: &str) -> (r: String)
    requires
        format@ == "%Y%m%d%H%M%S"@,
    ensures
        is_time(r@),
{
    chrono::Local::now().format(format).to_string()
}

// ---------------------------------------------------------------------------
// Laws of percent-encoding
// ---------------------------------------------------------------------------

proof fn lemma_percent_encoded_ascii(b: Seq<u8>)
    ensures
        is_ascii_chars(percent_encoded(b)),
    decreases b.len(),
{
    if b.len() > 0 {
        lemma_percent_encoded_ascii(b.skip(1));
    }
}

proof fn lemma_bytes_of_ascii(s: Seq<char>)
    requires
        is_ascii_chars(s),
    ensures
        encode_utf8(s) == s.map_values(|c: char| c as u8),
{
    is_ascii_chars_encode_utf8(s);
    assert(encode_utf8(s) =~= s.map_values(|c: char| c as u8));
}

proof fn lemma_percent_round_trip(b: Seq<u8>)
    ensures
        percent_decoded(percent_encoded(b).map_values(|c: char| c as u8)) == b,
    decreases b.len(),
{
    let f = |c: char| c as u8;
    let e = percent_encoded(b).map_values(f);
    if b.len() == 0 {
        assert(e =~= Seq::empty());
        assert(percent_decoded(e) =~= b);
    } else {
        let tail = percent_encoded(b.skip(1)).map_values(f);
        lemma_percent_round_trip(b.skip(1));
        let head = percent_encoded_byte(b[0]).map_values(f);
        assert(e =~= head + tail);
        if is_unreserved(b[0]) {
            assert(head =~= seq![b[0]]);
            assert(e.skip(1) =~= tail);
            assert(percent_decoded(e) =~= b);
        } else {
            let hi = b[0] as int / 16;
            let lo = b[0] as int % 16;
            assert(0 <= hi < 16 && 0 <= lo < 16 && b[0] as int == 16 * hi + lo);
            assert(e[0] == 37);
            assert(e[1] == hex_upper(hi) as u8);
            assert(e[2] == hex_upper(lo) as u8);
            assert(is_hex(e[1]) && hex_value(e[1]) == hi);
            assert(is_hex(e[2]) && hex_value(e[2]) == lo);
            assert(e.skip(3) =~= tail);
            assert(percent_decoded(e) =~= b);
        }
    }
}

/// Decoding what encoding wrote gives the string back.
pub proof fn law_url_round_trip(s: Seq<char>)
    ensures
        url_decoded(url_encoded(s)) == Some(s),
{
    let b = encode_utf8(s);
    lemma_percent_encoded_ascii(b);
    lemma_bytes_of_ascii(percent_encoded(b));
    lemma_percent_round_trip(b);
    encode_utf8_valid_utf8(s);
    encode_utf8_decode_utf8(s);
}

} // verus!
