//! Checks on what comes from outside: URLs, HTML, and file paths.

use vstd::prelude::*;
use crate::markup;
use crate::outside;
use crate::table;
use crate::table::StringMap;
use crate::text;

verus! {

// ---------------------------------------------------------------------------
// URLs
// ---------------------------------------------------------------------------

/// A lower-case URL begins with a scheme that can run code.
pub open spec fn has_dangerous_scheme(lower: Seq<char>) -> bool {
    ||| "javascript:"@.is_prefix_of(lower)
    ||| "vbscript:"@.is_prefix_of(lower)
    ||| "data:text/html"@.is_prefix_of(lower)
    ||| "data:application/javascript"@.is_prefix_of(lower)
    ||| "data:application/x-javascript"@.is_prefix_of(lower)
    ||| "about:"@.is_prefix_of(lower)
    ||| "blob:"@.is_prefix_of(lower)
}

/// The URL has such a scheme, whatever its case and the space around it.
pub open spec fn is_dangerous(url: Seq<char>) -> bool {
    has_dangerous_scheme(outside::lowercase(text::trimmed(url)))
}

/// Whether a lower-case URL begins with a scheme that can run code.
pub fn lowercase_url_is_dangerous(lower: &str) -> (r: bool)
    ensures
        r == has_dangerous_scheme(lower@),
{
    text::starts_with(lower, "javascript:") || text::starts_with(lower, "vbscript:")
        || text::starts_with(lower, "data:text/html") || text::starts_with(
        lower,
        "data:application/javascript",
    ) || text::starts_with(lower, "data:application/x-javascript") || text::starts_with(
        lower,
        "about:",
    ) || text::starts_with(lower, "blob:")
}

/// Whether the URL has a scheme that can run code.
pub fn is_dangerous_url(url: &str) -> (r: bool)
    ensures
        r == is_dangerous(url@),
        vstd::utf8::is_ascii_chars(text::trimmed(url@)) ==> r == has_dangerous_scheme(
            text::ascii_lowered(text::trimmed(url@)),
        ),
{
    let lower: String = outside::to_lowercase(text::trim(url));
    lowercase_url_is_dangerous(lower.as_str())
}

/// A line of a URI list that may stay: an empty one, a comment, or a URL
/// without a dangerous scheme.
pub open spec fn line_is_harmless(line: Seq<char>) -> bool {
    let t = text::trimmed(line);
    t.len() == 0 || t[0] == '#' || !is_dangerous(t)
}

/// The lines that may stay, in order.
pub open spec fn harmless_lines(lines: Seq<Seq<char>>) -> Seq<Seq<char>> {
    lines.filter(|l: Seq<char>| line_is_harmless(l))
}

/// A URI list without its dangerous lines.
pub open spec fn uri_list_sanitized(list: Seq<char>) -> Seq<char> {
    text::joined(harmless_lines(text::lines_of(list)), "\n"@)
}

fn harmless_line(line: &str) -> (r: bool)
    ensures
        r == line_is_harmless(line@),
{
    let trimmed: &str = text::trim(line);
    trimmed.is_empty() || trimmed.get_char(0) == '#' || !is_dangerous_url(trimmed)
}

/// The URI list without the URLs that have a dangerous scheme.
pub fn sanitize_uri_list(uri_list: &str) -> (r: String)
    ensures
        r@ == uri_list_sanitized(uri_list@),
{
    let lines: Vec<String> = text::lines(uri_list);
    let mut kept: Vec<String> = Vec::new();
    let mut i: usize = 0;
    let ghost all = text::views(lines@);
    let ghost f = |l: Seq<char>| line_is_harmless(l);
    proof {
        reveal(Seq::filter);
        assert(all.take(0).filter(f) =~= Seq::empty());
    }
    while i < lines.len()
        invariant
            i <= lines.len(),
            all == text::views(lines@),
            f == (|l: Seq<char>| line_is_harmless(l)),
            text::views(kept@) == all.take(i as int).filter(f),
        decreases lines.len() - i,
    {
        let ghost before = kept@;
        let line: &str = lines[i].as_str();
        assert(all[i as int] == line@);
        let keep: bool = harmless_line(line);
        assert(all.take(i + 1).drop_last() =~= all.take(i as int));
        proof {
            reveal(Seq::filter);
        }
        if keep {
            kept.push(lines[i].clone());
            assert(text::views(kept@) =~= text::views(before).push(line@));
        }
        i = i + 1;
    }
    assert(all.take(i as int) =~= all);
    text::join(&kept, "\n")
}

proof fn lemma_trim_end_push_space(s: Seq<char>, c: char)
    requires
        is_space_char(c),
    ensures
        text::trimmed(s.push(c)) == text::trimmed(s),
    decreases s.len(),
{
    let t = s.push(c);
    if s.len() == 0 {
        assert(t.skip(1) =~= s);
        assert(text::trimmed_start(t) == text::trimmed_start(s));
    } else if text::is_space(s[0]) {
        assert(t.skip(1) =~= s.skip(1).push(c));
        lemma_trim_end_push_space(s.skip(1), c);
    } else {
        assert(t.drop_last() =~= s);
        assert(text::trimmed_start(t) == t);
        assert(text::trimmed_start(s) == s);
    }
}

spec fn is_space_char(c: char) -> bool {
    text::is_space(c)
}

proof fn lemma_trim_without_cr(s: Seq<char>)
    ensures
        text::trimmed(text::without_cr(s)) == text::trimmed(s),
{
    if s.len() > 0 && s.last() == '\r' {
        assert(s.drop_last().push('\r') =~= s);
        lemma_trim_end_push_space(s.drop_last(), '\r');
    }
}

proof fn lemma_lines_hold_no_newline(s: Seq<char>)
    ensures
        forall|i: int, j: int|
            0 <= i < text::lines_of(s).len() && 0 <= j < text::lines_of(s)[i].len()
                ==> #[trigger] text::lines_of(s)[i][j] != '\n',
    decreases s.len(),
{
    if s.len() > 0 {
        text::lemma_index_of(s, '\n', 0);
        match text::index_of(s, '\n', 0) {
            Some(k) => {
                lemma_lines_hold_no_newline(s.skip(k + 1));
                let rest = text::lines_of(s.skip(k + 1));
                assert(text::lines_of(s) == seq![text::without_cr(s.take(k))] + rest);
                assert forall|i: int, j: int|
                    0 <= i < text::lines_of(s).len() && 0 <= j < text::lines_of(
                        s,
                    )[i].len() implies #[trigger] text::lines_of(s)[i][j] != '\n' by {
                    if i > 0 {
                        assert(text::lines_of(s)[i] == rest[i - 1]);
                        assert(rest[i - 1][j] != '\n');
                    }
                }
            },
            None => {},
        }
    }
}

proof fn lemma_index_of_first(s: Seq<char>, c: char, from: int, k: int)
    requires
        0 <= from <= k < s.len(),
        s[k] == c,
        forall|j: int| from <= j < k ==> s[j] != c,
    ensures
        text::index_of(s, c, from) == Some(k),
    decreases k - from,
{
    if from < k {
        lemma_index_of_first(s, c, from + 1, k);
    }
}

proof fn lemma_lines_of_joined(parts: Seq<Seq<char>>)
    requires
        forall|i: int, j: int|
            0 <= i < parts.len() && 0 <= j < parts[i].len() ==> #[trigger] parts[i][j] != '\n',
        forall|i: int| 0 <= i < parts.len() ==> line_is_harmless(#[trigger] parts[i]),
    ensures
        forall|i: int|
            0 <= i < text::lines_of(text::joined(parts, "\n"@)).len() ==> line_is_harmless(
                #[trigger] text::lines_of(text::joined(parts, "\n"@))[i],
            ),
    decreases parts.len(),
{
    reveal_strlit("\n");
    let all = text::joined(parts, "\n"@);
    text::lemma_index_of(all, '\n', 0);
    if parts.len() == 0 {
    } else if parts.len() == 1 {
        assert(all == parts[0]);
        assert(text::index_of(all, '\n', 0) is None);
    } else {
        let rest = text::joined(parts.skip(1), "\n"@);
        assert forall|i: int, j: int|
            0 <= i < parts.skip(1).len() && 0 <= j < parts.skip(1)[i].len() implies #[trigger]
            parts.skip(1)[i][j] != '\n' by {
            assert(parts[i + 1][j] != '\n');
        }
        assert forall|i: int| 0 <= i < parts.skip(1).len() implies line_is_harmless(
            #[trigger] parts.skip(1)[i],
        ) by {
            assert(line_is_harmless(parts[i + 1]));
        }
        lemma_lines_of_joined(parts.skip(1));
        let k = parts[0].len() as int;
        assert(all == parts[0] + "\n"@ + rest);
        assert(all[k] == '\n');
        assert forall|j: int| 0 <= j < k implies all[j] != '\n' by {
            assert(parts[0][j] != '\n');
        }
        lemma_index_of_first(all, '\n', 0, k);
        assert(all.take(k) =~= parts[0]);
        assert(all.skip(k + 1) =~= rest);
        lemma_trim_without_cr(parts[0]);
        assert(line_is_harmless(parts[0]));
        assert(line_is_harmless(text::without_cr(parts[0])));
        assert(text::lines_of(all) == seq![text::without_cr(parts[0])] + text::lines_of(rest));
        assert forall|i: int| 0 <= i < text::lines_of(all).len() implies line_is_harmless(
            #[trigger] text::lines_of(all)[i],
        ) by {
            if i > 0 {
                assert(text::lines_of(all)[i] == text::lines_of(rest)[i - 1]);
            }
        }
    }
}

proof fn lemma_filter_keeps_only(lines: Seq<Seq<char>>, f: spec_fn(Seq<char>) -> bool, i: int)
    requires
        0 <= i < lines.filter(f).len(),
    ensures
        lines.contains(lines.filter(f)[i]),
    decreases lines.len(),
{
    reveal(Seq::filter);
    if lines.len() > 0 {
        let rest = lines.drop_last();
        if i < rest.filter(f).len() {
            lemma_filter_keeps_only(rest, f, i);
            let k = choose|k: int| 0 <= k < rest.len() && rest[k] == rest.filter(f)[i];
            assert(lines[k] == lines.filter(f)[i]);
        } else {
            assert(lines[lines.len() - 1] == lines.filter(f)[i]);
        }
    }
}

/// No line of a sanitized URI list is a URL with a dangerous scheme.
pub proof fn law_sanitized_list_is_harmless(list: Seq<char>)
    ensures
        forall|i: int|
            0 <= i < text::lines_of(uri_list_sanitized(list)).len() ==> line_is_harmless(
                #[trigger] text::lines_of(uri_list_sanitized(list))[i],
            ),
{
    let lines = text::lines_of(list);
    let f = |l: Seq<char>| line_is_harmless(l);
    let kept = harmless_lines(lines);
    lemma_lines_hold_no_newline(list);
    broadcast use vstd::seq_lib::group_filter_ensures;

    assert forall|i: int| 0 <= i < kept.len() implies line_is_harmless(#[trigger] kept[i]) by {
        assert(f(kept[i]));
    }
    assert forall|i: int, j: int| 0 <= i < kept.len() && 0 <= j < kept[i].len() implies #[trigger]
    kept[i][j] != '\n' by {
        lemma_filter_keeps_only(lines, f, i);
        let k = choose|k: int| 0 <= k < lines.len() && lines[k] == kept[i];
        assert(lines[k][j] != '\n');
    }
    lemma_lines_of_joined(kept);
}

// ---------------------------------------------------------------------------
// HTML
// ---------------------------------------------------------------------------

/// What a pass of a pattern makes of the text: each match replaced; the text as
/// it is where the pattern is none.
pub open spec fn pattern_replaced(
    pattern: Seq<char>,
    s: Seq<char>,
    replacement: Seq<char>,
) -> Seq<char> {
    match outside::regex_replaced(pattern, s, replacement) {
        Some(t) => t,
        None => s,
    }
}

/// HTML without `<script>` elements.
pub open spec fn without_script_element(s: Seq<char>) -> Seq<char> {
    pattern_replaced(
        "(?is)<script[^>]*>.*?</script[^>]*>"@,
        s,
        ""@,
    )
}

/// HTML without the tags of `<script>` elements.
pub open spec fn without_script_tag(s: Seq<char>) -> Seq<char> {
    pattern_replaced(
        "(?i)</?script\\b[^>]*>"@,
        s,
        ""@,
    )
}

/// HTML without event handler attributes whose value is quoted.
pub open spec fn without_quoted_handler(s: Seq<char>) -> Seq<char> {
    pattern_replaced(
        "(?i)\\s+on\\w+\\s*=\\s*[\"'][^\"']*[\"']"@,
        s,
        ""@,
    )
}

/// HTML without the first event handler attribute of each tag that follows white
/// space.
pub open spec fn without_spaced_handler(s: Seq<char>) -> Seq<char> {
    pattern_replaced(
        "(?i)(<[a-z](?:=\\s*\"[^\"]*\"|=\\s*'[^']*'|[^>])*?)\\s+on\\w+\\s*=\\s*(?:\"[^\"]*\"|'[^']*'|[^\\s>\"']*)"@,
        s,
        "$1"@,
    )
}

/// HTML without the first event handler attribute of each tag that follows a
/// slash or a quoted value.
pub open spec fn without_joined_handler(s: Seq<char>) -> Seq<char> {
    pattern_replaced(
        "(?i)(<[a-z](?:[^>\"']|\"[^\"]*\"|'[^']*')*?(?:/|\"[^\"]*\"|'[^']*'))on\\w+\\s*=\\s*(?:\"[^\"]*\"|'[^']*'|[^\\s>\"']*)"@,
        s,
        "$1"@,
    )
}

/// HTML without attributes that hold a `javascript:` URL.
pub open spec fn without_script_attribute(s: Seq<char>) -> Seq<char> {
    pattern_replaced(
        "(?i)(href|src|action|formaction|data)\\s*=\\s*[\"']\\s*javascript:[^\"']*[\"']"@,
        s,
        ""@,
    )
}

/// HTML without CSS expressions and what is left of `javascript:`.
pub open spec fn without_script_remnant(s: Seq<char>) -> Seq<char> {
    pattern_replaced(
        "(?i)expression\\s*\\([^)]*\\)|javascript:"@,
        s,
        ""@,
    )
}

/// One pass over HTML: without `<script>` elements; where there are none, without
/// tags that are left of them, then without event handler attributes, then
/// without attributes that hold a `javascript:` URL, then without CSS expressions
/// and what is left of `javascript:`.
pub open spec fn html_pass(html: Seq<char>) -> Seq<char> {
    if without_script_element(html).len() < html.len() {
        without_script_element(html)
    } else {
        let a = without_quoted_handler(without_script_tag(html));
        let b = without_joined_handler(without_spaced_handler(a));
        without_script_remnant(without_script_attribute(b))
    }
}

/// HTML after as many passes as take something out of it.
pub open spec fn html_sanitized(html: Seq<char>) -> Seq<char>
    decreases html.len(),
{
    if html_pass(html).len() < html.len() {
        html_sanitized(html_pass(html))
    } else {
        html
    }
}

/// Nothing in the HTML is left to be taken out.
pub open spec fn html_is_clean(html: Seq<char>) -> bool {
    &&& without_script_element(html) == html
    &&& without_script_tag(html) == html
    &&& without_quoted_handler(html) == html
    &&& without_spaced_handler(html) == html
    &&& without_joined_handler(html) == html
    &&& without_script_attribute(html) == html
    &&& without_script_remnant(html) == html
}

/// A pass of a pattern over the text, given what the pattern made of it.
pub fn pattern_pass(replaced: Option<String>, before: &str) -> (r: String)
    ensures
        r@ == match replaced {
            Some(t) => t@,
            None => before@,
        },
{
    match replaced {
        Some(t) => t,
        None => before.to_owned(),
    }
}

fn replace_pattern(pattern: &str, s: &str, replacement: &str) -> (r: String)
    requires
        replacement@ == ""@ || replacement@ == "$1"@,
    ensures
        r@ == pattern_replaced(pattern@, s@, replacement@),
        r@.len() < s@.len() || r@ == s@,
        pattern@ == "(?is)<script[^>]*>.*?</script[^>]*>"@ && replacement@ == ""@ ==> markup::is_without(
            markup::Danger::ScriptElement,
            s@,
            r@,
        ),
        pattern@ == "(?i)</?script\\b[^>]*>"@ && replacement@ == ""@ ==> markup::is_without(
            markup::Danger::ScriptTag,
            s@,
            r@,
        ),
        pattern@ == "(?i)\\s+on\\w+\\s*=\\s*[\"'][^\"']*[\"']"@ && replacement@ == ""@ ==> markup::is_without(
            markup::Danger::QuotedHandler,
            s@,
            r@,
        ),
        pattern@ == "(?i)(<[a-z](?:=\\s*\"[^\"]*\"|=\\s*'[^']*'|[^>])*?)\\s+on\\w+\\s*=\\s*(?:\"[^\"]*\"|'[^']*'|[^\\s>\"']*)"@ && replacement@ == "$1"@ ==> markup::is_without(
            markup::Danger::SpacedHandler,
            s@,
            r@,
        ),
        pattern@ == "(?i)(<[a-z](?:[^>\"']|\"[^\"]*\"|'[^']*')*?(?:/|\"[^\"]*\"|'[^']*'))on\\w+\\s*=\\s*(?:\"[^\"]*\"|'[^']*'|[^\\s>\"']*)"@ && replacement@ == "$1"@ ==> markup::is_without(
            markup::Danger::JoinedHandler,
            s@,
            r@,
        ),
        pattern@ == "(?i)(href|src|action|formaction|data)\\s*=\\s*[\"']\\s*javascript:[^\"']*[\"']"@ && replacement@ == ""@ ==> markup::is_without(
            markup::Danger::ScriptAttribute,
            s@,
            r@,
        ),
        pattern@ == "(?i)expression\\s*\\([^)]*\\)|javascript:"@ && replacement@ == ""@ ==> markup::is_without(
            markup::Danger::Remnant,
            s@,
            r@,
        ),
{
    let replaced: Option<String> = outside::regex_replace(pattern, s, replacement);
    pattern_pass(replaced, s)
}

fn sanitize_once(html: &str) -> (r: String)
    ensures
        r@ == html_pass(html@),
        r@.len() < html@.len() || (r@ == html@ && html_is_clean(html@)),
        markup::comes_of(html@, r@),
        r@ == html@ ==> forall|kind: markup::Danger| !#[trigger] markup::holds(kind, r@),
{
    proof {
        markup::lemma_comes_of_itself(html@);
    }
    let without: String = replace_pattern("(?is)<script[^>]*>.*?</script[^>]*>", html, "");
    if !text::same(without.as_str(), html) {
        proof {
            markup::lemma_comes_on(html@, html@, without@, markup::Danger::ScriptElement);
        }
        return without;
    }
    let a: String = replace_pattern("(?i)</?script\\b[^>]*>", html, "");
    let b: String = replace_pattern(
        "(?i)\\s+on\\w+\\s*=\\s*[\"'][^\"']*[\"']",
        a.as_str(),
        "",
    );
    let c: String = replace_pattern(
        "(?i)(<[a-z](?:=\\s*\"[^\"]*\"|=\\s*'[^']*'|[^>])*?)\\s+on\\w+\\s*=\\s*(?:\"[^\"]*\"|'[^']*'|[^\\s>\"']*)",
        b.as_str(),
        "$1",
    );
    let d: String = replace_pattern(
        "(?i)(<[a-z](?:[^>\"']|\"[^\"]*\"|'[^']*')*?(?:/|\"[^\"]*\"|'[^']*'))on\\w+\\s*=\\s*(?:\"[^\"]*\"|'[^']*'|[^\\s>\"']*)",
        c.as_str(),
        "$1",
    );
    let e: String = replace_pattern(
        "(?i)(href|src|action|formaction|data)\\s*=\\s*[\"']\\s*javascript:[^\"']*[\"']",
        d.as_str(),
        "",
    );
    let f: String = replace_pattern(
        "(?i)expression\\s*\\([^)]*\\)|javascript:",
        e.as_str(),
        "",
    );
    proof {
        markup::lemma_comes_on(html@, html@, a@, markup::Danger::ScriptTag);
        markup::lemma_comes_on(html@, a@, b@, markup::Danger::QuotedHandler);
        markup::lemma_comes_on(html@, b@, c@, markup::Danger::SpacedHandler);
        markup::lemma_comes_on(html@, c@, d@, markup::Danger::JoinedHandler);
        markup::lemma_comes_on(html@, d@, e@, markup::Danger::ScriptAttribute);
        markup::lemma_comes_on(html@, e@, f@, markup::Danger::Remnant);
    }
    f
}

/// HTML without its dangerous elements and attributes. Nothing is left in it
/// that another pass would take out, and it holds none of the dangers; what was
/// taken out of it are dangers and nothing else, so that HTML without scripts
/// stays as it is.
pub fn sanitize_html(html: &str) -> (r: String)
    ensures
        r@ == html_sanitized(html@),
        html_is_clean(r@),
        markup::comes_of(html@, r@),
        forall|kind: markup::Danger| !#[trigger] markup::holds(kind, r@),
        markup::is_plain(html@) ==> r@ == html@,
{
    let mut current: String = html.to_owned();
    proof {
        markup::lemma_comes_of_itself(html@);
    }
    loop
        invariant
            html_sanitized(current@) == html_sanitized(html@),
            markup::comes_of(html@, current@),
        decreases current@.len(),
    {
        let next: String = sanitize_once(current.as_str());
        if next == current {
            proof {
                if markup::is_plain(html@) {
                    markup::law_plain_html_stays(html@, current@);
                }
            }
            return current;
        }
        proof {
            markup::lemma_comes_further(html@, current@, next@);
        }
        current = next;
    }
}

/// Sanitizing again changes nothing.
pub proof fn law_clean_html_stays(html: Seq<char>)
    requires
        html_is_clean(html),
    ensures
        html_sanitized(html) == html,
{
}

// ---------------------------------------------------------------------------
// Content under its types
// ---------------------------------------------------------------------------

/// Every line of the list may stay.
pub open spec fn list_is_harmless(list: Seq<char>) -> bool {
    forall|i: int|
        0 <= i < text::lines_of(list).len() ==> line_is_harmless(#[trigger] text::lines_of(list)[i])
}

/// A URI list as it is where every line of it may stay, and else without its
/// dangerous lines.
pub open spec fn list_cleaned(list: Seq<char>) -> Seq<char> {
    if list_is_harmless(list) {
        list
    } else {
        uri_list_sanitized(list)
    }
}

/// Content of a type, made harmless: HTML without what can run, a list without
/// its dangerous URLs, and no link that is a dangerous one.
pub open spec fn entry_cleaned(mime: Seq<char>, content: Seq<char>) -> Option<Seq<char>> {
    if mime == "text/html"@ {
        Some(html_sanitized(content))
    } else if mime == "text/uri-list"@ {
        Some(list_cleaned(content))
    } else if mime == "URL"@ && is_dangerous(content) {
        None
    } else {
        Some(content)
    }
}

/// The entries, each made harmless.
pub open spec fn entries_cleaned(entries: Seq<(Seq<char>, Seq<char>)>) -> Seq<
    (Seq<char>, Seq<char>),
>
    decreases entries.len(),
{
    if entries.len() == 0 {
        Seq::empty()
    } else {
        let before = entries_cleaned(entries.drop_last());
        let e = entries.last();
        match entry_cleaned(e.0, e.1) {
            Some(v) => table::put(before, e.0, v),
            None => before,
        }
    }
}

/// The content is harmless under its type.
pub open spec fn entry_is_harmless(mime: Seq<char>, content: Seq<char>) -> bool {
    &&& mime == "text/html"@ ==> exists|h: Seq<char>| content == #[trigger] html_sanitized(h)
    &&& mime == "text/uri-list"@ ==> list_is_harmless(content)
    &&& mime == "URL"@ ==> !is_dangerous(content)
}

/// What stands under each type is harmless.
pub open spec fn content_is_harmless(m: Seq<(Seq<char>, Seq<char>)>) -> bool {
    forall|i: int| 0 <= i < m.len() ==> entry_is_harmless((#[trigger] m[i]).0, m[i].1)
}

fn harmless_list(list: &str) -> (r: bool)
    ensures
        r == list_is_harmless(list@),
{
    let lines: Vec<String> = text::lines(list);
    let ghost all = text::lines_of(list@);
    let mut i: usize = 0;
    while i < lines.len()
        invariant
            i <= lines.len(),
            text::views(lines@) == all,
            all == text::lines_of(list@),
            forall|k: int| 0 <= k < i ==> line_is_harmless(#[trigger] all[k]),
        decreases lines.len() - i,
    {
        assert(all[i as int] == lines@[i as int]@);
        if !harmless_line(lines[i].as_str()) {
            return false;
        }
        i = i + 1;
    }
    true
}

/// The URI list as it is where every line of it may stay, and else without the
/// URLs that have a dangerous scheme.
pub fn clean_uri_list(list: &str) -> (r: String)
    ensures
        r@ == list_cleaned(list@),
{
    if harmless_list(list) {
        list.to_owned()
    } else {
        sanitize_uri_list(list)
    }
}

/// Content of a type, made harmless; none where it is a dangerous link.
pub fn clean_entry(mime: &str, content: &str) -> (r: Option<String>)
    ensures
        text::opt_view(r) == entry_cleaned(mime@, content@),
{
    if text::same(mime, "text/html") {
        Some(sanitize_html(content))
    } else if text::same(mime, "text/uri-list") {
        Some(clean_uri_list(content))
    } else if text::same(mime, "URL") && is_dangerous_url(content) {
        None
    } else {
        Some(content.to_owned())
    }
}

/// The entries, each made harmless.
pub fn clean_entries(entries: &StringMap) -> (r: StringMap)
    ensures
        r@ == entries_cleaned(entries@),
{
    let mut out: StringMap = StringMap::new();
    let mut i: usize = 0;
    while i < entries.entries.len()
        invariant
            i <= entries.entries.len(),
            out@ == entries_cleaned(entries@.take(i as int)),
        decreases entries.entries.len() - i,
    {
        let mime: &str = entries.entries[i].0.as_str();
        let content: &str = entries.entries[i].1.as_str();
        assert(entries@.take(i + 1).drop_last() =~= entries@.take(i as int));
        assert(entries@.take(i + 1).last() == (mime@, content@));
        if let Some(v) = clean_entry(mime, content) {
            out.insert(mime.to_owned(), v);
        }
        i = i + 1;
    }
    assert(entries@.take(i as int) =~= entries@);
    out
}

/// What is made harmless is.
pub proof fn law_cleaned_entry_is_harmless(mime: Seq<char>, content: Seq<char>)
    ensures
        match entry_cleaned(mime, content) {
            Some(v) => entry_is_harmless(mime, v),
            None => true,
        },
{
    reveal_strlit("text/html");
    reveal_strlit("text/uri-list");
    reveal_strlit("URL");
    assert("text/html"@.len() == 9 && "text/uri-list"@.len() == 13 && "URL"@.len() == 3);
    law_sanitized_list_is_harmless(content);
}

/// Content stays harmless with a harmless entry more.
pub proof fn lemma_put_harmless(
    m: Seq<(Seq<char>, Seq<char>)>,
    mime: Seq<char>,
    content: Seq<char>,
)
    requires
        content_is_harmless(m),
        entry_is_harmless(mime, content),
    ensures
        content_is_harmless(table::put(m, mime, content)),
{
    table::lemma_position(m, mime, 0);
    let n = table::put(m, mime, content);
    assert forall|i: int| 0 <= i < n.len() implies entry_is_harmless((#[trigger] n[i]).0, n[i].1) by {
        if i < m.len() {
            assert(n[i] == m[i] || n[i] == (mime, content));
        }
    }
}

/// Entries that were each made harmless are.
pub proof fn law_cleaned_entries_are_harmless(entries: Seq<(Seq<char>, Seq<char>)>)
    ensures
        content_is_harmless(entries_cleaned(entries)),
    decreases entries.len(),
{
    if entries.len() > 0 {
        let e = entries.last();
        law_cleaned_entries_are_harmless(entries.drop_last());
        law_cleaned_entry_is_harmless(e.0, e.1);
        if let Some(v) = entry_cleaned(e.0, e.1) {
            lemma_put_harmless(entries_cleaned(entries.drop_last()), e.0, v);
        }
    }
}

// ---------------------------------------------------------------------------
// Paths
// ---------------------------------------------------------------------------

/// The operating systems whose rules differ.
#[derive(Clone, Copy, PartialEq, Eq, Structural)]
pub enum Platform {
    Windows,
    MacOs,
    Linux,
    Android,
    Other,
}

/// The bytes after so many rounds of percent-decoding.
pub open spec fn unescaped(b: Seq<u8>, rounds: nat) -> Seq<u8>
    decreases rounds,
{
    if rounds == 0 {
        b
    } else {
        unescaped(outside::percent_decoded(b), (rounds - 1) as nat)
    }
}

/// Two dots stand in the bytes at `i`.
pub open spec fn dots_at(b: Seq<u8>, i: int) -> bool {
    0 <= i && i + 1 < b.len() && b[i] == 46 && b[i + 1] == 46
}

/// Two dots stand next to each other in the bytes.
pub open spec fn has_dots(b: Seq<u8>) -> bool {
    exists|i: int| dots_at(b, i)
}

/// The bytes of a path hold no `..` and do not begin with `~`.
pub open spec fn bytes_stay_put(b: Seq<u8>) -> bool {
    !has_dots(b) && !(b.len() > 0 && b[0] == 126)
}

/// The path holds no `..` and does not begin with `~`.
pub open spec fn stays_put(path: Seq<char>) -> bool {
    !text::has_sub(path, ".."@) && !"~"@.is_prefix_of(path)
}

/// The path stays put as it is, and its bytes do after five rounds of
/// percent-decoding, whether or not those are UTF-8.
pub open spec fn path_accepted(path: Seq<char>) -> bool {
    stays_put(path) && bytes_stay_put(unescaped(vstd::utf8::encode_utf8(path), 5))
}

fn unescape(path: &str) -> (r: Vec<u8>)
    ensures
        r@ == unescaped(vstd::utf8::encode_utf8(path@), 5),
{
    let mut decoded: Vec<u8> = path.as_bytes_vec();
    let mut left: u8 = 5;
    while left > 0
        invariant
            left <= 5,
            unescaped(decoded@, left as nat) == unescaped(vstd::utf8::encode_utf8(path@), 5),
        decreases left,
    {
        decoded = outside::url_decode_bytes(decoded.as_slice());
        left = left - 1;
    }
    decoded
}

fn stays(path: &str) -> (r: bool)
    ensures
        r == stays_put(path@),
{
    !text::contains(path, "..") && !text::starts_with(path, "~")
}

fn bytes_stay(b: &Vec<u8>) -> (r: bool)
    ensures
        r == bytes_stay_put(b@),
{
    if b.len() > 0 && b[0] == 126 {
        return false;
    }
    let mut i: usize = 0;
    while i < b.len()
        invariant
            i <= b.len(),
            forall|k: int| k < i ==> !dots_at(b@, k),
        decreases b.len() - i,
    {
        if b[i] == 46 && i + 1 < b.len() && b[i + 1] == 46 {
            assert(dots_at(b@, i as int));
            return false;
        }
        i = i + 1;
    }
    true
}

/// The path itself, unless it holds a traversal sequence or begins with a
/// tilde, plainly or behind up to five rounds of percent-encoding.
pub fn validate_file_path(path: &str) -> (r: Option<String>)
    ensures
        match r {
            Some(p) => path_accepted(path@) && p@ == path@,
            None => !path_accepted(path@),
        },
{
    if !stays(path) {
        return None;
    }
    let decoded: Vec<u8> = unescape(path);
    if !bytes_stay(&decoded) {
        return None;
    }
    Some(path.to_owned())
}

proof fn lemma_one_round_more(b: Seq<u8>, rounds: nat)
    ensures
        unescaped(b, rounds + 1) == outside::percent_decoded(unescaped(b, rounds)),
    decreases rounds,
{
    if rounds > 0 {
        lemma_one_round_more(outside::percent_decoded(b), (rounds - 1) as nat);
    } else {
        assert(unescaped(outside::percent_decoded(b), 0) == outside::percent_decoded(b));
    }
}

proof fn lemma_scalar_bytes(c: char)
    ensures
        ({
            let e = vstd::utf8::encode_scalar(c as u32);
            &&& e.len() >= 1
            &&& (c as int) < 128 ==> e.len() == 1 && e[0] == c as int
            &&& (c as int) >= 128 ==> forall|i: int| 0 <= i < e.len() ==> #[trigger] e[i] >= 128
        }),
{
    let n = c as u32;
    let e = vstd::utf8::encode_scalar(n);
    if n < 128 {
        assert((n & 0x7F) as u8 == n) by (bit_vector)
            requires
                n < 128,
        ;
    } else {
        assert(0xC0 | ((n >> 6) & 0x1F) as u8 >= 128) by (bit_vector);
        assert(0xE0 | ((n >> 12) & 0x0F) as u8 >= 128) by (bit_vector);
        assert(0xF0 | ((n >> 18) & 0x7) as u8 >= 128) by (bit_vector);
        assert(0x80 | (n & 0x3F) as u8 >= 128) by (bit_vector);
        assert(0x80 | ((n >> 6) & 0x3F) as u8 >= 128) by (bit_vector);
        assert(0x80 | ((n >> 12) & 0x3F) as u8 >= 128) by (bit_vector);
    }
}

proof fn lemma_first_byte(s: Seq<char>)
    requires
        s.len() > 0,
    ensures
        vstd::utf8::encode_utf8(s).len() > 0,
        (s[0] as int) < 128 ==> vstd::utf8::encode_utf8(s)[0] == s[0] as int,
        vstd::utf8::encode_utf8(s)[0] < 128 ==> s[0] as int == vstd::utf8::encode_utf8(s)[0],
{
    lemma_scalar_bytes(s[0]);
    let e = vstd::utf8::encode_scalar(s[0] as u32);
    assert(vstd::utf8::encode_utf8(s)[0] == e[0]);
}

proof fn lemma_dots_to_bytes(s: Seq<char>, i: int)
    requires
        0 <= i,
        i + 1 < s.len(),
        s[i] == '.',
        s[i + 1] == '.',
    ensures
        has_dots(vstd::utf8::encode_utf8(s)),
    decreases s.len(),
{
    let b = vstd::utf8::encode_utf8(s);
    let e = vstd::utf8::encode_scalar(s[0] as u32);
    let rest = s.drop_first();
    let tail = vstd::utf8::encode_utf8(rest);
    assert(b == e + tail);
    lemma_scalar_bytes(s[0]);
    if i == 0 {
        assert(rest[0] == s[1]);
        lemma_first_byte(rest);
        assert(dots_at(b, 0));
    } else {
        assert(rest[i - 1] == s[i] && rest[i] == s[i + 1]);
        lemma_dots_to_bytes(rest, i - 1);
        let j = choose|j: int| dots_at(tail, j);
        assert(dots_at(b, j + e.len()));
    }
}

proof fn lemma_decoding_keeps_dots(b: Seq<u8>, i: int)
    requires
        dots_at(b, i),
    ensures
        has_dots(outside::percent_decoded(b)),
    decreases b.len(),
{
    let d = outside::percent_decoded(b);
    if i == 0 {
        let rest = b.skip(1);
        assert(rest[0] == 46);
        assert(d[0] == 46);
        assert(outside::percent_decoded(rest)[0] == 46);
        assert(d[1] == outside::percent_decoded(rest)[0]);
        assert(dots_at(d, 0));
    } else if b[0] == 37 && b.len() >= 3 && outside::is_hex(b[1]) && outside::is_hex(b[2]) {
        assert(dots_at(b.skip(3), i - 3));
        lemma_decoding_keeps_dots(b.skip(3), i - 3);
        let tail = outside::percent_decoded(b.skip(3));
        let j = choose|j: int| dots_at(tail, j);
        assert(dots_at(d, j + 1));
    } else {
        assert(dots_at(b.skip(1), i - 1));
        lemma_decoding_keeps_dots(b.skip(1), i - 1);
        let tail = outside::percent_decoded(b.skip(1));
        let j = choose|j: int| dots_at(tail, j);
        assert(dots_at(d, j + 1));
    }
}

proof fn lemma_round_keeps_fault(b: Seq<u8>)
    requires
        !bytes_stay_put(b),
    ensures
        !bytes_stay_put(outside::percent_decoded(b)),
{
    if has_dots(b) {
        let i = choose|i: int| dots_at(b, i);
        lemma_decoding_keeps_dots(b, i);
    } else {
        assert(outside::percent_decoded(b)[0] == 126);
    }
}

proof fn lemma_fault_in_bytes(s: Seq<char>)
    requires
        !stays_put(s),
    ensures
        !bytes_stay_put(vstd::utf8::encode_utf8(s)),
{
    reveal_strlit("..");
    reveal_strlit("~");
    if text::has_sub(s, ".."@) {
        let i = choose|i: int| text::occurs_at(s, ".."@, i);
        assert(s.subrange(i, i + 2)[0] == s[i] && s.subrange(i, i + 2)[1] == s[i + 1]);
        lemma_dots_to_bytes(s, i);
    } else {
        assert(s.subrange(0, 1)[0] == s[0]);
        assert(s[0] == '~');
        lemma_first_byte(s);
    }
}

/// Escapes hide nothing: a path that is accepted holds no `..` and begins with
/// no `~` at any stage of the decoding, however often its escapes are escaped
/// again, up to five times: in its bytes, and so in its text where they are
/// UTF-8.
pub proof fn law_escapes_hide_no_traversal(path: Seq<char>, rounds: nat)
    requires
        path_accepted(path),
        rounds <= 5,
    ensures
        ({
            let b = unescaped(vstd::utf8::encode_utf8(path), rounds);
            bytes_stay_put(b) && (vstd::utf8::valid_utf8(b) ==> stays_put(
                vstd::utf8::decode_utf8(b),
            ))
        }),
    decreases 5 - rounds,
{
    let all = vstd::utf8::encode_utf8(path);
    let b = unescaped(all, rounds);
    if rounds < 5 {
        law_escapes_hide_no_traversal(path, rounds + 1);
        lemma_one_round_more(all, rounds);
        if !bytes_stay_put(b) {
            lemma_round_keeps_fault(b);
        }
    }
    if vstd::utf8::valid_utf8(b) && !stays_put(vstd::utf8::decode_utf8(b)) {
        lemma_fault_in_bytes(vstd::utf8::decode_utf8(b));
        vstd::utf8::decode_utf8_encode_utf8(b);
    }
}

/// How often `s` holds `c`.
pub open spec fn occurrences(s: Seq<char>, c: char) -> nat
    decreases s.len(),
{
    if s.len() == 0 {
        0
    } else {
        occurrences(s.drop_last(), c) + if s.last() == c {
            1nat
        } else {
            0
        }
    }
}

/// The path names an alternate data stream: it holds more than one colon, none
/// of which is that of a drive letter.
pub open spec fn names_stream(path: Seq<char>) -> bool {
    occurrences(path, ':') > 1 && !(path.len() >= 2 && path[1] == ':')
}

/// The name, in capitals, of a device.
pub open spec fn is_device_name(name: Seq<char>) -> bool {
    ||| name == "CON"@
    ||| name == "PRN"@
    ||| name == "AUX"@
    ||| name == "NUL"@
    ||| name.len() == 4 && ("COM"@.is_prefix_of(name) || "LPT"@.is_prefix_of(name)) && '1'
        <= name[3] <= '9'
}

/// The path is accepted on Windows, where `stem` is the name of its file
/// without the extension.
pub open spec fn path_accepted_on_windows(path: Seq<char>, stem: Seq<char>) -> bool {
    path_accepted(path) && !names_stream(path) && !is_device_name(outside::uppercase(stem))
}

fn count_char(s: &str, c: char) -> (r: usize)
    ensures
        r == occurrences(s@, c),
{
    let v: Vec<char> = text::chars_of(s);
    let mut n: usize = 0;
    let mut i: usize = 0;
    while i < v.len()
        invariant
            i <= v.len(),
            v@ == s@,
            n == occurrences(v@.take(i as int), c),
            n <= i,
        decreases v.len() - i,
    {
        assert(v@.take(i + 1).drop_last() =~= v@.take(i as int));
        if v[i] == c {
            n = n + 1;
        }
        i = i + 1;
    }
    assert(v@.take(i as int) =~= s@);
    n
}

/// Whether the name, in capitals, is that of a device.
pub fn device_name(name: &str) -> (r: bool)
    ensures
        r == is_device_name(name@),
{
    proof {
        reveal_strlit("COM");
        reveal_strlit("LPT");
    }
    if text::same(name, "CON") || text::same(name, "PRN") || text::same(name, "AUX") || text::same(
        name,
        "NUL",
    ) {
        return true;
    }
    if name.unicode_len() != 4 {
        return false;
    }
    let d: char = name.get_char(3);
    (text::starts_with(name, "COM") || text::starts_with(name, "LPT")) && '1' <= d && d <= '9'
}

/// The path itself, unless it is one that no platform accepts, names an
/// alternate data stream, or has the stem of a device.
pub fn validate_file_path_windows(path: &str, stem: &str) -> (r: Option<String>)
    ensures
        match r {
            Some(p) => path_accepted_on_windows(path@, stem@) && p@ == path@,
            None => !path_accepted_on_windows(path@, stem@),
        },
{
    if validate_file_path(path).is_none() {
        return None;
    }
    let drive: bool = path.unicode_len() >= 2 && path.get_char(1) == ':';
    if !drive && count_char(path, ':') > 1 {
        return None;
    }
    let upper: String = outside::to_uppercase(stem);
    if device_name(upper.as_str()) {
        return None;
    }
    Some(path.to_owned())
}

/// The accepted ones among the paths, in order.
pub open spec fn accepted_paths(paths: Seq<Seq<char>>) -> Seq<Seq<char>> {
    paths.filter(|p: Seq<char>| path_accepted(p))
}

/// The accepted ones among the paths.
pub fn sanitize_file_paths(paths: Vec<String>) -> (r: Vec<String>)
    ensures
        text::views(r@) == accepted_paths(text::views(paths@)),
{
    let mut kept: Vec<String> = Vec::new();
    let mut i: usize = 0;
    let ghost all = text::views(paths@);
    let ghost f = |p: Seq<char>| path_accepted(p);
    proof {
        reveal(Seq::filter);
        assert(all.take(0).filter(f) =~= Seq::empty());
    }
    while i < paths.len()
        invariant
            i <= paths.len(),
            all == text::views(paths@),
            f == (|p: Seq<char>| path_accepted(p)),
            text::views(kept@) == all.take(i as int).filter(f),
        decreases paths.len() - i,
    {
        let ghost before = kept@;
        assert(all[i as int] == paths@[i as int]@);
        assert(all.take(i + 1).drop_last() =~= all.take(i as int));
        proof {
            reveal(Seq::filter);
        }
        if let Some(p) = validate_file_path(paths[i].as_str()) {
            kept.push(p);
            assert(text::views(kept@) =~= text::views(before).push(p@));
        }
        i = i + 1;
    }
    assert(all.take(i as int) =~= all);
    kept
}

// ---------------------------------------------------------------------------
// Paths and what the file system says of them
// ---------------------------------------------------------------------------

/// What the file system says of a path that is to be read.
pub struct PathFacts {
    pub platform: Platform,
    /// The name of the file without the extension, empty where there is none.
    pub stem: String,
    pub absolute: bool,
    /// The path with its links resolved, or why that failed.
    pub canonical: Result<String, String>,
    /// Whether the resolved path is a directory.
    pub is_dir: bool,
    /// The extension of the resolved path.
    pub extension: Option<String>,
}

/// What the file system says of a path that is to be written.
pub struct WriteFacts {
    pub platform: Platform,
    pub stem: String,
    pub absolute: bool,
    /// The extension of the path as it was given.
    pub extension: Option<String>,
    pub exists: bool,
    /// The path with its links resolved, or why that failed.
    pub canonical: Result<String, String>,
    pub is_dir: bool,
    pub has_parent: bool,
    pub parent_exists: bool,
    /// The parent with its links resolved, or why that failed.
    pub canonical_parent: Result<String, String>,
    pub parent_is_dir: bool,
    pub file_name: Option<String>,
}

/// The path is accepted on the platform.
pub open spec fn accepted_on(path: Seq<char>, platform: Platform, stem: Seq<char>) -> bool {
    if platform == Platform::Windows {
        path_accepted_on_windows(path, stem)
    } else {
        path_accepted(path)
    }
}

/// What is wrong with a path before the file system is asked about it.
pub open spec fn text_fault(
    path: Seq<char>,
    platform: Platform,
    stem: Seq<char>,
    absolute: bool,
) -> Option<Seq<char>> {
    if path.len() == 0 {
        Some("Path is empty"@)
    } else if !accepted_on(path, platform, stem) {
        Some("Path contains invalid sequences"@)
    } else if !absolute {
        Some("Path must be absolute"@)
    } else {
        None
    }
}

/// The extension is that of an HTML file, in any case.
pub open spec fn is_html_extension(extension: Option<Seq<char>>) -> bool {
    match extension {
        Some(e) => text::ascii_lowered(e) == "html"@ || text::ascii_lowered(e) == "htm"@,
        None => false,
    }
}

/// What comes of a path that is to be read as a wiki.
pub open spec fn wiki_path_verdict(path: Seq<char>, f: PathFacts) -> Result<Seq<char>, Seq<char>> {
    match text_fault(path, f.platform, f.stem@, f.absolute) {
        Some(e) => Err(e),
        None => match f.canonical {
            Err(e) => Err("Failed to resolve path: "@ + e@),
            Ok(c) => if f.is_dir {
                Err("Path is a directory, not a file"@)
            } else if !is_html_extension(text::opt_view(f.extension)) {
                Err("Wiki files must have .html or .htm extension"@)
            } else {
                Ok(c@)
            },
        },
    }
}

/// The parent and the name, with one separator between them.
pub open spec fn path_joined(parent: Seq<char>, name: Seq<char>, platform: Platform) -> Seq<char> {
    let sep = if platform == Platform::Windows {
        '\\'
    } else {
        '/'
    };
    if parent.len() > 0 && parent.last() != sep {
        parent.push(sep) + name
    } else {
        parent + name
    }
}

/// What comes of a path to which a wiki is to be written.
pub open spec fn write_path_verdict(path: Seq<char>, f: WriteFacts) -> Result<Seq<char>, Seq<char>> {
    match text_fault(path, f.platform, f.stem@, f.absolute) {
        Some(e) => Err(e),
        None => if !is_html_extension(text::opt_view(f.extension)) {
            Err("Wiki files must have .html or .htm extension"@)
        } else if f.exists {
            match f.canonical {
                Err(e) => Err("Failed to resolve path: "@ + e@),
                Ok(c) => if f.is_dir {
                    Err("Path is a directory, not a file"@)
                } else {
                    Ok(c@)
                },
            }
        } else if !f.has_parent {
            Err("Path has no parent directory"@)
        } else if !f.parent_exists {
            Err("Parent directory does not exist"@)
        } else {
            match f.canonical_parent {
                Err(e) => Err("Failed to resolve parent directory: "@ + e@),
                Ok(p) => if !f.parent_is_dir {
                    Err("Parent path is not a directory"@)
                } else {
                    match f.file_name {
                        None => Err("Path has no filename"@),
                        Some(n) => Ok(path_joined(p@, n@, f.platform)),
                    }
                },
            }
        },
    }
}

/// What comes of a path that is to be a directory.
pub open spec fn directory_verdict(path: Seq<char>, f: PathFacts) -> Result<Seq<char>, Seq<char>> {
    match text_fault(path, f.platform, f.stem@, f.absolute) {
        Some(e) => Err(e),
        None => match f.canonical {
            Err(e) => Err("Failed to resolve path: "@ + e@),
            Ok(c) => if !f.is_dir {
                Err("Path is not a directory"@)
            } else {
                Ok(c@)
            },
        },
    }
}

/// What is wrong with a path before the file system is asked about it.
pub fn check_path_text(path: &str, platform: Platform, stem: &str, absolute: bool) -> (r: Option<String>)
    ensures
        text::opt_view(r) == text_fault(path@, platform, stem@, absolute),
{
    if path.is_empty() {
        return Some("Path is empty".to_owned());
    }
    let accepted: bool = if platform == Platform::Windows {
        validate_file_path_windows(path, stem).is_some()
    } else {
        validate_file_path(path).is_some()
    };
    if !accepted {
        return Some("Path contains invalid sequences".to_owned());
    }
    if !absolute {
        return Some("Path must be absolute".to_owned());
    }
    None
}

fn html_extension(extension: &Option<String>) -> (r: bool)
    ensures
        r == is_html_extension(text::opt_view(*extension)),
{
    match extension {
        Some(e) => {
            let lower: String = text::to_ascii_lowercase(e.as_str());
            text::same(lower.as_str(), "html") || text::same(lower.as_str(), "htm")
        },
        None => false,
    }
}

fn resolve_failure(e: &str) -> (r: String)
    ensures
        r@ == "Failed to resolve path: "@ + e@,
{
    text::concat("Failed to resolve path: ", e)
}

/// The resolved path of a wiki file that is to be read, or why it is refused.
pub fn validate_wiki_path(path: &str, facts: &PathFacts) -> (r: Result<String, String>)
    ensures
        text::result_view(r) == wiki_path_verdict(path@, *facts),
{
    if let Some(e) = check_path_text(path, facts.platform, facts.stem.as_str(), facts.absolute) {
        return Err(e);
    }
    match &facts.canonical {
        Err(e) => Err(resolve_failure(e.as_str())),
        Ok(c) => {
            if facts.is_dir {
                Err("Path is a directory, not a file".to_owned())
            } else if !html_extension(&facts.extension) {
                Err("Wiki files must have .html or .htm extension".to_owned())
            } else {
                Ok(c.clone())
            }
        },
    }
}

fn join_name(parent: &str, name: &str, platform: Platform) -> (r: String)
    ensures
        r@ == path_joined(parent@, name@, platform),
{
    let sep: char = if platform == Platform::Windows {
        '\\'
    } else {
        '/'
    };
    let mut out: String = parent.to_owned();
    let n: usize = parent.unicode_len();
    if n > 0 && parent.get_char(n - 1) != sep {
        out.push(sep);
    }
    out.append(name);
    out
}

/// The path to which a wiki file is to be written, its parent resolved, or why
/// it is refused. The file need not exist; its directory must.
pub fn validate_wiki_path_for_write(path: &str, facts: &WriteFacts) -> (r: Result<String, String>)
    ensures
        text::result_view(r) == write_path_verdict(path@, *facts),
{
    if let Some(e) = check_path_text(path, facts.platform, facts.stem.as_str(), facts.absolute) {
        return Err(e);
    }
    if !html_extension(&facts.extension) {
        return Err("Wiki files must have .html or .htm extension".to_owned());
    }
    if facts.exists {
        return match &facts.canonical {
            Err(e) => Err(resolve_failure(e.as_str())),
            Ok(c) => {
                if facts.is_dir {
                    Err("Path is a directory, not a file".to_owned())
                } else {
                    Ok(c.clone())
                }
            },
        };
    }
    if !facts.has_parent {
        return Err("Path has no parent directory".to_owned());
    }
    if !facts.parent_exists {
        return Err("Parent directory does not exist".to_owned());
    }
    match &facts.canonical_parent {
        Err(e) => Err(text::concat("Failed to resolve parent directory: ", e.as_str())),
        Ok(p) => {
            if !facts.parent_is_dir {
                return Err("Parent path is not a directory".to_owned());
            }
            match &facts.file_name {
                None => Err("Path has no filename".to_owned()),
                Some(n) => Ok(join_name(p.as_str(), n.as_str(), facts.platform)),
            }
        },
    }
}

/// The resolved path of a directory, or why it is refused.
pub fn validate_directory_path(path: &str, facts: &PathFacts) -> (r: Result<String, String>)
    ensures
        text::result_view(r) == directory_verdict(path@, *facts),
{
    if let Some(e) = check_path_text(path, facts.platform, facts.stem.as_str(), facts.absolute) {
        return Err(e);
    }
    match &facts.canonical {
        Err(e) => Err(resolve_failure(e.as_str())),
        Ok(c) => {
            if !facts.is_dir {
                Err("Path is not a directory".to_owned())
            } else {
                Ok(c.clone())
            }
        },
    }
}

// ---------------------------------------------------------------------------
// Where the user may go
// ---------------------------------------------------------------------------

/// What asking for the metadata of a path brought.
#[derive(Clone, Copy, PartialEq, Eq, Structural)]
pub enum PathStatus {
    Found,
    Missing,
    Denied,
}

/// The first of the statuses that is not that of a missing path is that of a
/// path that is there.
pub open spec fn reaches_existing(statuses: Seq<PathStatus>) -> bool
    decreases statuses.len(),
{
    if statuses.len() == 0 {
        false
    } else if statuses[0] == PathStatus::Missing {
        reaches_existing(statuses.skip(1))
    } else {
        statuses[0] == PathStatus::Found
    }
}

/// Whether the path, or the nearest of its ancestors that exists, can be
/// reached. `statuses` holds what was found of the path and of its ancestors,
/// nearest first, as far as they are missing.
pub fn verify_path_permissions(statuses: &[PathStatus]) -> (r: bool)
    ensures
        r == reaches_existing(statuses@),
{
    let mut i: usize = 0;
    assert(statuses@.skip(0) =~= statuses@);
    while i < statuses.len()
        invariant
            i <= statuses.len(),
            reaches_existing(statuses@) == reaches_existing(statuses@.skip(i as int)),
        decreases statuses.len() - i,
    {
        assert(statuses@.skip(i as int)[0] == statuses@[i as int]);
        assert(statuses@.skip(i as int).skip(1) =~= statuses@.skip(i + 1));
        match statuses[i] {
            PathStatus::Found => {
                return true;
            },
            PathStatus::Missing => {},
            PathStatus::Denied => {
                return false;
            },
        }
        i = i + 1;
    }
    false
}

/// The share of a UNC path in lower case: what stands between the separator
/// behind the server and the next one.
pub open spec fn unc_share(path: Seq<char>) -> Option<Seq<char>> {
    if !"\\\\"@.is_prefix_of(path) {
        None
    } else {
        let rest = path.skip(2);
        match text::index_of(rest, '\\', 0) {
            None => None,
            Some(i) => {
                let share = rest.skip(i + 1);
                match text::index_of(share, '\\', 0) {
                    Some(j) => Some(share.take(j)),
                    None => Some(share),
                }
            },
        }
    }
}

/// The share gives access to a whole drive or to the system.
pub open spec fn is_admin_share(share: Seq<char>) -> bool {
    ||| share.len() == 2 && share[1] == '$' && ('a' <= share[0] <= 'z' || 'A' <= share[0] <= 'Z')
    ||| share == "admin$"@
    ||| share == "ipc$"@
    ||| share == "print$"@
}

/// The UNC path in lower case goes through such a share.
pub open spec fn uses_admin_share(path: Seq<char>) -> bool {
    match unc_share(path) {
        Some(s) => is_admin_share(s),
        None => false,
    }
}

/// Whether the UNC path, in lower case, goes through an administrative share.
pub fn is_unc_admin_share(path_lower: &str) -> (r: bool)
    ensures
        r == uses_admin_share(path_lower@),
{
    proof {
        reveal_strlit("\\\\");
    }
    let rest: &str = match text::strip_prefix(path_lower, "\\\\") {
        Some(t) => t,
        None => {
            return false;
        },
    };
    let share: &str = match text::find_char(rest, '\\') {
        Some(i) => text::skip(rest, i + 1),
        None => {
            return false;
        },
    };
    let share: &str = match text::find_char(share, '\\') {
        Some(j) => text::take(share, j),
        None => share,
    };
    if share.unicode_len() == 2 {
        let c: char = share.get_char(0);
        let d: char = share.get_char(1);
        if d == '$' && (('a' <= c && c <= 'z') || ('A' <= c && c <= 'Z')) {
            return true;
        }
    }
    text::same(share, "admin$") || text::same(share, "ipc$") || text::same(share, "print$")
}

/// The parts of a path: what stands between its slashes, without the empty ones
/// and without a `.` that is not at the very front.
pub open spec fn path_parts(path: Seq<char>) -> Seq<Seq<char>> {
    kept_parts(text::split_of(path, '/'), 0)
}

/// The parts from `i` on that count.
pub open spec fn kept_parts(parts: Seq<Seq<char>>, i: int) -> Seq<Seq<char>>
    decreases parts.len() - i,
{
    if i < 0 || i >= parts.len() {
        Seq::empty()
    } else if parts[i].len() == 0 || (parts[i] == "."@ && i > 0) {
        kept_parts(parts, i + 1)
    } else {
        seq![parts[i]] + kept_parts(parts, i + 1)
    }
}

/// The path is `base` or lies below it.
pub open spec fn lies_in(path: Seq<char>, base: Seq<char>) -> bool {
    "/"@.is_prefix_of(path) == "/"@.is_prefix_of(base) && path_parts(base).is_prefix_of(
        path_parts(path),
    )
}

fn parts_of(path: &str) -> (r: Vec<String>)
    ensures
        text::views(r@) == path_parts(path@),
{
    let parts: Vec<String> = text::split_char(path, '/');
    let ghost all = text::views(parts@);
    let mut out: Vec<String> = Vec::new();
    let mut i: usize = 0;
    assert(text::views(out@) + kept_parts(all, 0) =~= kept_parts(all, 0));
    while i < parts.len()
        invariant
            i <= parts.len(),
            all == text::views(parts@),
            text::views(out@) + kept_parts(all, i as int) == kept_parts(all, 0),
        decreases parts.len() - i,
    {
        let ghost before = text::views(out@);
        let part: &str = parts[i].as_str();
        assert(all[i as int] == part@);
        if !part.is_empty() && !(i > 0 && text::same(part, ".")) {
            out.push(parts[i].clone());
            assert(text::views(out@) =~= before.push(part@));
            assert(text::views(out@) + kept_parts(all, i + 1) =~= before + (seq![part@]
                + kept_parts(all, i + 1)));
        }
        i = i + 1;
    }
    assert(text::views(out@) + kept_parts(all, i as int) =~= text::views(out@));
    out
}

/// Whether the path is `base` or lies below it.
pub fn path_lies_in(path: &str, base: &str) -> (r: bool)
    ensures
        r == lies_in(path@, base@),
{
    if text::starts_with(path, "/") != text::starts_with(base, "/") {
        return false;
    }
    let p: Vec<String> = parts_of(path);
    let b: Vec<String> = parts_of(base);
    if b.len() > p.len() {
        return false;
    }
    let ghost ps = text::views(p@);
    let ghost bs = text::views(b@);
    let mut i: usize = 0;
    while i < b.len()
        invariant
            i <= b.len() <= p.len(),
            ps == text::views(p@),
            bs == text::views(b@),
            ps == path_parts(path@),
            bs == path_parts(base@),
            forall|j: int| 0 <= j < i ==> bs[j] == ps[j],
        decreases b.len() - i,
    {
        assert(ps[i as int] == p@[i as int]@ && bs[i as int] == b@[i as int]@);
        if !text::same(p[i].as_str(), b[i].as_str()) {
            assert(bs[i as int] != ps.subrange(0, bs.len() as int)[i as int]);
            return false;
        }
        i = i + 1;
    }
    assert(bs =~= ps.subrange(0, bs.len() as int));
    true
}

/// A lower-case Windows path lies in a directory of the system.
pub open spec fn is_windows_system_path(lower: Seq<char>) -> bool {
    ||| "c:\\windows"@.is_prefix_of(lower)
    ||| "c:\\program files"@.is_prefix_of(lower)
    ||| "c:\\program files (x86)"@.is_prefix_of(lower)
    ||| "c:\\programdata"@.is_prefix_of(lower)
    ||| "c:\\system volume information"@.is_prefix_of(lower)
    ||| "c:\\$recycle.bin"@.is_prefix_of(lower)
}

/// A lower-case Windows path lies among the users' directories, but not in the
/// given one.
pub open spec fn is_other_users_path(lower: Seq<char>, home_lower: Seq<char>) -> bool {
    "c:\\users\\"@.is_prefix_of(lower) && lower != home_lower && !(home_lower
        + "\\"@).is_prefix_of(lower)
}

/// A lower-case Windows path lies where the user may go: on a drive or on a
/// share, but neither in the system's directories, nor in those of another
/// user, nor behind an administrative share.
pub open spec fn windows_location_allowed(lower: Seq<char>, home_lower: Seq<char>) -> bool {
    let b = vstd::utf8::encode_utf8(lower);
    &&& !is_windows_system_path(lower)
    &&& !is_other_users_path(lower, home_lower)
    &&& (b.len() >= 3 && b[1] == 58) || ("\\\\"@.is_prefix_of(lower) && !uses_admin_share(lower))
}

/// Whether a Windows path in lower case lies where the user may go.
pub fn windows_location(lower: &str, home_lower: &str) -> (r: bool)
    ensures
        r == windows_location_allowed(lower@, home_lower@),
{
    if text::starts_with(lower, "c:\\windows") || text::starts_with(lower, "c:\\program files")
        || text::starts_with(lower, "c:\\program files (x86)") || text::starts_with(
        lower,
        "c:\\programdata",
    ) || text::starts_with(lower, "c:\\system volume information") || text::starts_with(
        lower,
        "c:\\$recycle.bin",
    ) {
        return false;
    }
    let home_dir: String = text::concat(home_lower, "\\");
    if text::starts_with(lower, "c:\\users\\") && !text::same(lower, home_lower)
        && !text::starts_with(lower, home_dir.as_str()) {
        return false;
    }
    let bytes: &[u8] = lower.as_bytes();
    (bytes.len() >= 3 && bytes[1] == 58) || (text::starts_with(lower, "\\\\")
        && !is_unc_admin_share(lower))
}

/// The path lies where the user may go on the platform.
pub open spec fn location_allowed(
    platform: Platform,
    path: Seq<char>,
    home: Option<Seq<char>>,
) -> bool {
    match platform {
        Platform::Android => {
            ||| "/data/data/"@.is_prefix_of(path)
            ||| "/data/user/"@.is_prefix_of(path)
            ||| "/storage/emulated/"@.is_prefix_of(path)
            ||| "/sdcard/"@.is_prefix_of(path)
            ||| "content://"@.is_prefix_of(path)
            ||| "{"@.is_prefix_of(path)
        },
        _ => match home {
            None => false,
            Some(h) => match platform {
                Platform::Windows => windows_location_allowed(
                    outside::lowercase(path),
                    outside::lowercase(h),
                ),
                Platform::MacOs => {
                    ||| lies_in(path, h)
                    ||| lies_in(path, "/tmp"@)
                    ||| lies_in(path, "/private/tmp"@)
                    ||| lies_in(path, "/Volumes"@)
                    ||| lies_in(path, "/Applications"@)
                },
                Platform::Linux => {
                    ||| lies_in(path, h)
                    ||| lies_in(path, "/tmp"@)
                    ||| lies_in(path, "/media"@)
                    ||| lies_in(path, "/mnt"@)
                    ||| lies_in(path, "/run/media"@)
                },
                _ => lies_in(path, h),
            },
        },
    }
}

/// The user may go to the path: it lies in an allowed place and, where the
/// platform has users' permissions, can be reached.
pub open spec fn is_accessible(
    platform: Platform,
    path: Seq<char>,
    home: Option<Seq<char>>,
    statuses: Seq<PathStatus>,
) -> bool {
    &&& location_allowed(platform, path, home)
    &&& match platform {
        Platform::Android => true,
        Platform::Other => true,
        _ => reaches_existing(statuses),
    }
}

fn location(platform: Platform, path: &str, home: &str) -> (r: bool)
    ensures
        r == location_allowed(platform, path@, Some(home@)),
{
    match platform {
        Platform::Android => {
            text::starts_with(path, "/data/data/") || text::starts_with(path, "/data/user/")
                || text::starts_with(path, "/storage/emulated/") || text::starts_with(
                path,
                "/sdcard/",
            ) || text::starts_with(path, "content://") || text::starts_with(path, "{")
        },
        Platform::Windows => {
            let lower: String = outside::to_lowercase(path);
            let home_lower: String = outside::to_lowercase(home);
            windows_location(lower.as_str(), home_lower.as_str())
        },
        Platform::MacOs => {
            path_lies_in(path, home) || path_lies_in(path, "/tmp") || path_lies_in(
                path,
                "/private/tmp",
            ) || path_lies_in(path, "/Volumes") || path_lies_in(path, "/Applications")
        },
        Platform::Linux => {
            path_lies_in(path, home) || path_lies_in(path, "/tmp") || path_lies_in(path, "/media")
                || path_lies_in(path, "/mnt") || path_lies_in(path, "/run/media")
        },
        Platform::Other => path_lies_in(path, home),
    }
}

/// Whether the user may go to the path. `home` is the user's own directory and
/// `statuses` what was found of the path and its ancestors.
pub fn is_user_accessible_path(
    platform: Platform,
    path: &str,
    home: Option<&str>,
    statuses: &[PathStatus],
) -> (r: bool)
    ensures
        r == is_accessible(
            platform,
            path@,
            match home {
                Some(h) => Some(h@),
                None => None,
            },
            statuses@,
        ),
{
    let allowed: bool = match home {
        Some(h) => location(platform, path, h),
        None => {
            if platform == Platform::Android {
                location(platform, path, "")
            } else {
                false
            }
        },
    };
    if !allowed {
        return false;
    }
    if platform == Platform::Android || platform == Platform::Other {
        return true;
    }
    verify_path_permissions(statuses)
}

/// What comes of a path of the user's that is to be read.
pub open spec fn user_file_verdict(path: Seq<char>, f: PathFacts, accessible: bool) -> Result<
    Seq<char>,
    Seq<char>,
> {
    match text_fault(path, f.platform, f.stem@, f.absolute) {
        Some(e) => Err(e),
        None => match f.canonical {
            Err(e) => Err("Failed to resolve path: "@ + e@),
            Ok(c) => if f.is_dir {
                Err("Path is a directory, not a file"@)
            } else if !accessible {
                Err("Access to system directories is not allowed"@)
            } else {
                Ok(c@)
            },
        },
    }
}

/// What comes of a directory of the user's.
pub open spec fn user_directory_verdict(path: Seq<char>, f: PathFacts, accessible: bool) -> Result<
    Seq<char>,
    Seq<char>,
> {
    match directory_verdict(path, f) {
        Err(e) => Err(e),
        Ok(c) => if !accessible {
            Err("Access to system directories is not allowed"@)
        } else {
            Ok(c)
        },
    }
}

/// The user's directory and what was found of a resolved path and its
/// ancestors.
pub struct AccessFacts {
    pub home: Option<String>,
    pub statuses: Vec<PathStatus>,
}

/// The user may go to the resolved path.
pub open spec fn canonical_accessible(f: PathFacts, a: AccessFacts) -> bool {
    match f.canonical {
        Ok(c) => is_accessible(f.platform, c@, text::opt_view(a.home), a.statuses@),
        Err(_) => false,
    }
}

fn accessible(f: &PathFacts, a: &AccessFacts) -> (r: bool)
    ensures
        r == canonical_accessible(*f, *a),
{
    let home: Option<&str> = match &a.home {
        Some(h) => Some(h.as_str()),
        None => None,
    };
    match &f.canonical {
        Ok(c) => is_user_accessible_path(f.platform, c.as_str(), home, a.statuses.as_slice()),
        Err(_) => false,
    }
}

/// The resolved path of a file of the user's, or why it is refused.
pub fn validate_user_file_path(path: &str, facts: &PathFacts, access: &AccessFacts) -> (r: Result<
    String,
    String,
>)
    ensures
        text::result_view(r) == user_file_verdict(
            path@,
            *facts,
            canonical_accessible(*facts, *access),
        ),
{
    if let Some(e) = check_path_text(path, facts.platform, facts.stem.as_str(), facts.absolute) {
        return Err(e);
    }
    match &facts.canonical {
        Err(e) => Err(resolve_failure(e.as_str())),
        Ok(c) => {
            if facts.is_dir {
                Err("Path is a directory, not a file".to_owned())
            } else if !accessible(facts, access) {
                Err("Access to system directories is not allowed".to_owned())
            } else {
                Ok(c.clone())
            }
        },
    }
}

/// The resolved path of a directory of the user's, or why it is refused.
pub fn validate_user_directory_path(path: &str, facts: &PathFacts, access: &AccessFacts) -> (r:
    Result<String, String>)
    ensures
        text::result_view(r) == user_directory_verdict(
            path@,
            *facts,
            canonical_accessible(*facts, *access),
        ),
{
    match validate_directory_path(path, facts) {
        Err(e) => Err(e),
        Ok(c) => {
            if !accessible(facts, access) {
                Err("Access to system directories is not allowed".to_owned())
            } else {
                Ok(c)
            }
        },
    }
}

/// What is granted to read or to write came from a path that stays put, plainly
/// and with its percent-escapes decoded.
pub proof fn law_granted_paths_stay_put(path: Seq<char>, f: PathFacts, w: WriteFacts, accessible: bool)
    ensures
        wiki_path_verdict(path, f) is Ok ==> path_accepted(path),
        write_path_verdict(path, w) is Ok ==> path_accepted(path),
        directory_verdict(path, f) is Ok ==> path_accepted(path),
        user_file_verdict(path, f, accessible) is Ok ==> path_accepted(path) && accessible,
        user_directory_verdict(path, f, accessible) is Ok ==> path_accepted(path) && accessible,
{
}

// ---------------------------------------------------------------------------
// What stays, and what goes
// ---------------------------------------------------------------------------

proof fn lemma_scheme_prefix(
    whole: Seq<char>,
    name: Seq<char>,
    more: Seq<char>,
    scheme: Seq<char>,
    rest: Seq<char>,
)
    requires
        whole =~= name.push(':') + more,
        !name.contains(':'),
        !scheme.contains(':'),
    ensures
        whole.is_prefix_of(scheme.push(':') + rest) <==> (scheme == name && more.is_prefix_of(rest)),
{
    let url = scheme.push(':') + rest;
    if whole.is_prefix_of(url) {
        assert(forall|i: int| 0 <= i < whole.len() ==> whole[i] == url[i]);
        if name.len() < scheme.len() {
            assert(whole[name.len() as int] == ':');
            assert(url[name.len() as int] == scheme[name.len() as int]);
            assert(scheme.contains(':'));
        }
        if scheme.len() < name.len() {
            assert(url[scheme.len() as int] == ':');
            assert(whole[scheme.len() as int] == name[scheme.len() as int]);
            assert(name.contains(':'));
        }
        assert forall|i: int| 0 <= i < name.len() implies scheme[i] == name[i] by {
            assert(whole[i] == name[i] && url[i] == scheme[i]);
        }
        assert(scheme =~= name);
        let n = name.len() as int + 1;
        assert forall|i: int| 0 <= i < more.len() implies more[i] == rest[i] by {
            assert(whole[n + i] == more[i] && url[n + i] == rest[i]);
        }
        assert(more =~= rest.take(more.len() as int));
    } else if scheme == name && more.is_prefix_of(rest) {
        assert forall|i: int| 0 <= i < whole.len() implies whole[i] == url[i] by {
            let n = name.len() as int + 1;
            if i >= n {
                assert(whole[i] == more[i - n] && url[i] == rest[i - n]);
                assert(rest.take(more.len() as int)[i - n] == more[i - n]);
            }
        }
        assert(whole =~= url.take(whole.len() as int));
    }
}

/// The scheme decides: among lower-case URLs those of the schemes `javascript`,
/// `vbscript`, `about` and `blob` are dangerous, of the scheme `data` those that
/// hold HTML or a script, and no others.
pub proof fn law_scheme_decides(scheme: Seq<char>, rest: Seq<char>)
    requires
        !scheme.contains(':'),
    ensures
        has_dangerous_scheme(scheme.push(':') + rest) <==> {
            ||| scheme == "javascript"@
            ||| scheme == "vbscript"@
            ||| scheme == "about"@
            ||| scheme == "blob"@
            ||| scheme == "data"@ && ("text/html"@.is_prefix_of(rest)
                || "application/javascript"@.is_prefix_of(rest)
                || "application/x-javascript"@.is_prefix_of(rest))
        },
{
    reveal_strlit("javascript");
    reveal_strlit("vbscript");
    reveal_strlit("about");
    reveal_strlit("blob");
    reveal_strlit("data");
    reveal_strlit("text/html");
    reveal_strlit("application/javascript");
    reveal_strlit("application/x-javascript");
    reveal_strlit("javascript:");
    reveal_strlit("vbscript:");
    reveal_strlit("about:");
    reveal_strlit("blob:");
    reveal_strlit("data:text/html");
    reveal_strlit("data:application/javascript");
    reveal_strlit("data:application/x-javascript");
    let none = Seq::<char>::empty();
    assert(none.is_prefix_of(rest)) by {
        assert(rest.take(0) =~= none);
    }
    lemma_scheme_prefix("javascript:"@, "javascript"@, none, scheme, rest);
    lemma_scheme_prefix("vbscript:"@, "vbscript"@, none, scheme, rest);
    lemma_scheme_prefix("about:"@, "about"@, none, scheme, rest);
    lemma_scheme_prefix("blob:"@, "blob"@, none, scheme, rest);
    lemma_scheme_prefix("data:text/html"@, "data"@, "text/html"@, scheme, rest);
    lemma_scheme_prefix(
        "data:application/javascript"@,
        "data"@,
        "application/javascript"@,
        scheme,
        rest,
    );
    lemma_scheme_prefix(
        "data:application/x-javascript"@,
        "data"@,
        "application/x-javascript"@,
        scheme,
        rest,
    );
}

/// A line that may stay stays, and one with a dangerous URL goes, whatever stands
/// before and behind it; the lines keep their order.
pub proof fn law_harmless_lines_stay(before: Seq<Seq<char>>, line: Seq<char>, behind: Seq<Seq<char>>)
    ensures
        harmless_lines(before + seq![line] + behind) == harmless_lines(before) + (
        if text::trimmed(line).len() == 0 || text::trimmed(line)[0] == '#' || !is_dangerous(
            text::trimmed(line),
        ) {
            seq![line]
        } else {
            Seq::empty()
        }) + harmless_lines(behind),
{
    let f = |l: Seq<char>| line_is_harmless(l);
    let one = seq![line];
    Seq::filter_distributes_over_add(before + one, behind, f);
    Seq::filter_distributes_over_add(before, one, f);
    reveal(Seq::filter);
    assert(one.drop_last() =~= Seq::empty());
    assert(one.last() == line);
    assert(one.drop_last().filter(f) =~= Seq::empty());
    assert(one.filter(f) =~= if line_is_harmless(line) {
        one
    } else {
        Seq::empty()
    });
}

proof fn lemma_joined_lines(lines: Seq<Seq<char>>)
    requires
        forall|i: int|
            0 <= i < lines.len() ==> (#[trigger] lines[i]).len() > 0 && !lines[i].contains('\n')
                && lines[i].last() != '\r',
    ensures
        text::lines_of(text::joined(lines, "\n"@)) == lines,
    decreases lines.len(),
{
    reveal_strlit("\n");
    let all = text::joined(lines, "\n"@);
    if lines.len() == 0 {
        assert(text::lines_of(all) =~= lines);
    } else if lines.len() == 1 {
        assert(lines[0].len() > 0);
        text::lemma_index_of(all, '\n', 0);
        if text::index_of(all, '\n', 0) is Some {
            assert(lines[0].contains('\n'));
        }
        assert(text::lines_of(all) =~= lines);
    } else {
        let rest = lines.skip(1);
        assert forall|i: int| 0 <= i < rest.len() implies (#[trigger] rest[i]).len() > 0
            && !rest[i].contains('\n') && rest[i].last() != '\r' by {
            assert(rest[i] == lines[i + 1]);
        }
        lemma_joined_lines(rest);
        let k = lines[0].len() as int;
        let more = text::joined(rest, "\n"@);
        assert(all =~= lines[0] + seq!['\n'] + more);
        assert forall|j: int| 0 <= j < k implies all[j] != '\n' by {
            assert(all[j] == lines[0][j]);
            assert(!lines[0].contains('\n'));
        }
        lemma_index_of_first(all, '\n', 0, k);
        assert(all.take(k) =~= lines[0]);
        assert(all.skip(k + 1) =~= more);
        assert(lines[0].len() > 0);
        assert(text::without_cr(all.take(k)) == lines[0]);
        assert(text::lines_of(all) =~= seq![lines[0]] + text::lines_of(more));
        assert(lines =~= seq![lines[0]] + rest);
    }
}

/// A URI list is sanitized line by line: of a list of lines, none of them empty,
/// the list of those is left that may stay; where all may stay the list is left
/// as it is.
pub proof fn law_list_is_sanitized_by_lines(lines: Seq<Seq<char>>)
    requires
        forall|i: int|
            0 <= i < lines.len() ==> (#[trigger] lines[i]).len() > 0 && !lines[i].contains('\n')
                && lines[i].last() != '\r',
    ensures
        uri_list_sanitized(text::joined(lines, "\n"@)) == text::joined(
            harmless_lines(lines),
            "\n"@,
        ),
        list_cleaned(text::joined(lines, "\n"@)) == text::joined(harmless_lines(lines), "\n"@),
{
    lemma_joined_lines(lines);
    let list = text::joined(lines, "\n"@);
    if list_is_harmless(list) {
        let f = |l: Seq<char>| line_is_harmless(l);
        lemma_filter_keeps_all(lines, f);
    }
}

proof fn lemma_filter_keeps_all(lines: Seq<Seq<char>>, f: spec_fn(Seq<char>) -> bool)
    requires
        forall|i: int| 0 <= i < lines.len() ==> f(#[trigger] lines[i]),
    ensures
        lines.filter(f) == lines,
    decreases lines.len(),
{
    reveal(Seq::filter);
    if lines.len() > 0 {
        let front = lines.drop_last();
        assert forall|i: int| 0 <= i < front.len() implies f(#[trigger] front[i]) by {
            assert(front[i] == lines[i]);
        }
        lemma_filter_keeps_all(front, f);
        assert(f(lines[lines.len() - 1]));
        assert(front.push(lines.last()) =~= lines);
    } else {
        assert(lines.filter(f) =~= lines);
    }
}

/// A list whose lines may all stay is left as it is, to the character; a link
/// without a dangerous scheme is; and so is content of every other type.
pub proof fn law_harmless_content_stays(mime: Seq<char>, content: Seq<char>)
    ensures
        list_is_harmless(content) ==> entry_cleaned("text/uri-list"@, content) == Some(content),
        entry_cleaned("URL"@, content) == (if is_dangerous(content) {
            None
        } else {
            Some(content)
        }),
        mime != "text/html"@ && mime != "text/uri-list"@ && mime != "URL"@ ==> entry_cleaned(
            mime,
            content,
        ) == Some(content),
        entry_cleaned(mime, content) is None ==> mime == "URL"@,
{
    reveal_strlit("text/html");
    reveal_strlit("text/uri-list");
    reveal_strlit("URL");
    assert("text/html"@.len() == 9 && "text/uri-list"@.len() == 13 && "URL"@.len() == 3);
}

/// Each entry is made harmless by itself: under each type there is what comes of
/// the content of that type, and there are no other types.
pub proof fn law_each_entry_is_cleaned(entries: Seq<(Seq<char>, Seq<char>)>, key: Seq<char>)
    requires
        table::distinct_keys(entries),
    ensures
        table::lookup(entries_cleaned(entries), key) == match table::lookup(entries, key) {
            Some(v) => entry_cleaned(key, v),
            None => None,
        },
    decreases entries.len(),
{
    if entries.len() > 0 {
        let front = entries.drop_last();
        let e = entries.last();
        assert forall|i: int, j: int| 0 <= i < j < front.len() implies front[i].0 != front[j].0 by {
            assert(front[i] == entries[i] && front[j] == entries[j]);
        }
        law_each_entry_is_cleaned(front, key);
        let before = entries_cleaned(front);
        if let Some(v) = entry_cleaned(e.0, e.1) {
            table::law_put_then_lookup(before, e.0, v, key);
        }
        table::lemma_position(front, key, 0);
        if key == e.0 {
            if let Some(i) = table::position(front, key, 0) {
                assert(entries[i].0 == front[i].0);
                assert(entries[entries.len() - 1].0 == key);
            }
            assert forall|j: int| 0 <= j < entries.len() - 1 implies entries[j].0 != key by {
                assert(entries[entries.len() - 1].0 == key);
            }
            table::lemma_position_is(entries, key, 0, entries.len() - 1);
        } else {
            match table::position(front, key, 0) {
                Some(i) => {
                    assert forall|j: int| 0 <= j < i implies entries[j].0 != key by {
                        assert(entries[j] == front[j]);
                    }
                    assert(entries[i] == front[i]);
                    table::lemma_position_is(entries, key, 0, i);
                },
                None => {
                    table::lemma_position(entries, key, 0);
                    if let Some(i) = table::position(entries, key, 0) {
                        assert(entries[i] == front[i]);
                    }
                },
            }
        }
    }
}

proof fn lemma_nothing_to_decode(b: Seq<u8>)
    requires
        forall|i: int| 0 <= i < b.len() ==> b[i] != 37,
    ensures
        outside::percent_decoded(b) == b,
    decreases b.len(),
{
    if b.len() > 0 {
        let rest = b.skip(1);
        assert forall|i: int| 0 <= i < rest.len() implies rest[i] != 37 by {
            assert(rest[i] == b[i + 1]);
        }
        lemma_nothing_to_decode(rest);
        assert(b =~= seq![b[0]] + rest);
    }
    assert(outside::percent_decoded(b) =~= b);
}

proof fn lemma_byte_of_char(s: Seq<char>, i: int)
    requires
        0 <= i < vstd::utf8::encode_utf8(s).len(),
        vstd::utf8::encode_utf8(s)[i] < 128,
    ensures
        exists|k: int| 0 <= k < s.len() && #[trigger] s[k] as int == vstd::utf8::encode_utf8(s)[i],
        i + 1 < vstd::utf8::encode_utf8(s).len() && vstd::utf8::encode_utf8(s)[i + 1] < 128
            ==> exists|k: int|
            0 <= k && k + 1 < s.len() && #[trigger] s[k] as int == vstd::utf8::encode_utf8(s)[i]
                && s[k + 1] as int == vstd::utf8::encode_utf8(s)[i + 1],
    decreases s.len(),
{
    let b = vstd::utf8::encode_utf8(s);
    if s.len() > 0 {
        let e = vstd::utf8::encode_scalar(s[0] as u32);
        let rest = s.drop_first();
        let tail = vstd::utf8::encode_utf8(rest);
        assert(b == e + tail);
        lemma_scalar_bytes(s[0]);
        if i < e.len() {
            assert(b[i] == e[i]);
            assert((s[0] as int) < 128);
            assert(s[0] as int == b[i]);
            if i + 1 < b.len() && b[i + 1] < 128 {
                assert(b[i + 1] == tail[0]);
                if rest.len() > 0 {
                    lemma_first_byte(rest);
                    assert(rest[0] == s[1]);
                    assert(s[0] as int == b[i] && s[1] as int == b[i + 1]);
                }
            }
        } else {
            lemma_byte_of_char(rest, i - e.len());
            assert(b[i] == tail[i - e.len()]);
            let k = choose|k: int|
                0 <= k < rest.len() && #[trigger] rest[k] as int == tail[i - e.len()];
            assert(s[k + 1] == rest[k]);
            if i + 1 < b.len() && b[i + 1] < 128 {
                assert(b[i + 1] == tail[i + 1 - e.len()]);
                let m = choose|m: int|
                    0 <= m && m + 1 < rest.len() && #[trigger] rest[m] as int == tail[i - e.len()]
                        && rest[m + 1] as int == tail[i - e.len() + 1];
                assert(s[m + 1] == rest[m] && s[m + 1 + 1] == rest[m + 1]);
            }
        }
    }
}

/// An ordinary path is accepted: one without a percent sign, without two dots in a
/// row and without a tilde at the front. One with two dots in a row, or with a
/// tilde at the front, is refused, whatever else it holds.
pub proof fn law_ordinary_paths_are_accepted(path: Seq<char>)
    ensures
        (forall|i: int| 0 <= i < path.len() ==> #[trigger] path[i] != '%') && (forall|i: int|
            0 <= i && i + 1 < path.len() && #[trigger] path[i] == '.' ==> path[i + 1] != '.') && !(
        path.len() > 0 && path[0] == '~') ==> path_accepted(path),
        (exists|i: int| 0 <= i && i + 1 < path.len() && #[trigger] path[i] == '.' && path[i + 1]
            == '.') ==> !path_accepted(path),
        path.len() > 0 && path[0] == '~' ==> !path_accepted(path),
{
    reveal_strlit("..");
    reveal_strlit("~");
    let b = vstd::utf8::encode_utf8(path);
    if (forall|i: int| 0 <= i < path.len() ==> #[trigger] path[i] != '%') && (forall|i: int|
        0 <= i && i + 1 < path.len() && #[trigger] path[i] == '.' ==> path[i + 1] != '.') && !(
    path.len() > 0 && path[0] == '~') {
        assert forall|i: int| 0 <= i < b.len() implies b[i] != 37 by {
            if b[i] == 37 {
                lemma_byte_of_char(path, i);
                let k = choose|k: int| 0 <= k < path.len() && #[trigger] path[k] as int == b[i];
                assert(path[k] == '%');
            }
        }
        lemma_nothing_to_decode(b);
        reveal_with_fuel(unescaped, 6);
        assert(unescaped(b, 5) == b);
        if has_dots(b) {
            let i = choose|i: int| dots_at(b, i);
            lemma_byte_of_char(path, i);
            let k = choose|k: int|
                0 <= k && k + 1 < path.len() && #[trigger] path[k] as int == b[i] && path[k + 1] as int
                    == b[i + 1];
            assert(path[k] == '.' && path[k + 1] == '.');
        }
        if path.len() > 0 {
            lemma_first_byte(path);
        } else {
            assert(b =~= Seq::empty());
        }
        if text::has_sub(path, ".."@) {
            let i = choose|i: int| text::occurs_at(path, ".."@, i);
            assert(path.subrange(i, i + 2)[0] == path[i] && path.subrange(i, i + 2)[1] == path[i
                + 1]);
        }
        if "~"@.is_prefix_of(path) {
            assert(path.subrange(0, 1)[0] == path[0]);
        }
    }
    if exists|i: int| 0 <= i && i + 1 < path.len() && #[trigger] path[i] == '.' && path[i + 1]
        == '.' {
        let i = choose|i: int|
            0 <= i && i + 1 < path.len() && #[trigger] path[i] == '.' && path[i + 1] == '.';
        assert(path.subrange(i, i + 2) =~= ".."@);
        assert(text::occurs_at(path, ".."@, i));
    }
    if path.len() > 0 && path[0] == '~' {
        assert(path.subrange(0, 1) =~= "~"@);
    }
}

/// Accepted paths are handed on, all of them, as they are and in their order, and
/// no others.
pub proof fn law_accepted_paths_are_kept(before: Seq<Seq<char>>, path: Seq<char>, behind: Seq<
    Seq<char>,
>)
    ensures
        accepted_paths(before + seq![path] + behind) == accepted_paths(before) + (if path_accepted(
            path,
        ) {
            seq![path]
        } else {
            Seq::empty()
        }) + accepted_paths(behind),
{
    let f = |p: Seq<char>| path_accepted(p);
    let one = seq![path];
    Seq::filter_distributes_over_add(before + one, behind, f);
    Seq::filter_distributes_over_add(before, one, f);
    reveal(Seq::filter);
    assert(one.drop_last() =~= Seq::empty());
    assert(one.last() == path);
    assert(one.drop_last().filter(f) =~= Seq::empty());
    assert(one.filter(f) =~= if path_accepted(path) {
        one
    } else {
        Seq::empty()
    });
}

proof fn lemma_split_of_two(a: Seq<char>, b: Seq<char>, c: char)
    ensures
        text::split_of(a.push(c) + b, c) == text::split_of(a, c) + text::split_of(b, c),
        text::split_of(a, c).len() > 0,
    decreases a.len(),
{
    let s = a.push(c) + b;
    text::lemma_index_of(a, c, 0);
    match text::index_of(a, c, 0) {
        Some(i) => {
            lemma_index_of_first(s, c, 0, i);
            assert(s.take(i) =~= a.take(i));
            assert(s.skip(i + 1) =~= a.skip(i + 1).push(c) + b);
            lemma_split_of_two(a.skip(i + 1), b, c);
            assert(text::split_of(s, c) =~= text::split_of(a, c) + text::split_of(b, c));
        },
        None => {
            let i = a.len() as int;
            assert(s[i] == c);
            lemma_index_of_first(s, c, 0, i);
            assert(s.take(i) =~= a);
            assert(s.skip(i + 1) =~= b);
            assert(text::split_of(s, c) =~= text::split_of(a, c) + text::split_of(b, c));
        },
    }
}

proof fn lemma_kept_of_two(x: Seq<Seq<char>>, y: Seq<Seq<char>>, i: int)
    requires
        0 <= i <= x.len(),
    ensures
        kept_parts(x + y, i) == kept_parts(x, i) + kept_parts(x + y, x.len() as int),
    decreases x.len() - i,
{
    if i < x.len() {
        lemma_kept_of_two(x, y, i + 1);
        assert((x + y)[i] == x[i]);
        assert(kept_parts(x + y, i) =~= kept_parts(x, i) + kept_parts(x + y, x.len() as int));
    } else {
        assert(kept_parts(x, i) =~= Seq::empty());
        assert(kept_parts(x + y, i) =~= kept_parts(x, i) + kept_parts(x + y, x.len() as int));
    }
}

proof fn lemma_parts_below(base: Seq<char>, name: Seq<char>)
    ensures
        path_parts(base).is_prefix_of(path_parts(base.push('/') + name)),
{
    lemma_split_of_two(base, name, '/');
    let x = text::split_of(base, '/');
    let y = text::split_of(name, '/');
    lemma_kept_of_two(x, y, 0);
    let all = path_parts(base.push('/') + name);
    assert(all.subrange(0, path_parts(base).len() as int) =~= path_parts(base));
}

/// A directory lies in itself, what is below it lies in it, and what lies in what
/// lies in it does.
pub proof fn law_what_is_below_lies_in(base: Seq<char>, name: Seq<char>, a: Seq<char>, c: Seq<char>)
    requires
        base.len() > 0,
    ensures
        lies_in(base, base),
        lies_in(base.push('/') + name, base),
        lies_in(a, base) && lies_in(base, c) ==> lies_in(a, c),
{
    reveal_strlit("/");
    let below = base.push('/') + name;
    lemma_parts_below(base, name);
    assert(path_parts(base).subrange(0, path_parts(base).len() as int) =~= path_parts(base));
    assert(below.subrange(0, 1)[0] == base[0]);
    assert(base.subrange(0, 1)[0] == base[0]);
    if "/"@.is_prefix_of(base) {
        assert(base[0] == '/');
        assert(below.subrange(0, 1) =~= "/"@);
    }
    if "/"@.is_prefix_of(below) {
        assert(base[0] == '/');
        assert(base.subrange(0, 1) =~= "/"@);
    }
    if lies_in(a, base) && lies_in(base, c) {
        let pa = path_parts(a);
        let pb = path_parts(base);
        let pc = path_parts(c);
        assert forall|i: int| 0 <= i < pc.len() implies pc[i] == pa[i] by {
            assert(pb.subrange(0, pc.len() as int)[i] == pc[i]);
            assert(pa.subrange(0, pb.len() as int)[i] == pb[i]);
        }
        assert(pa.subrange(0, pc.len() as int) =~= pc);
    }
}

proof fn lemma_split_one(s: Seq<char>, c: char)
    requires
        !s.contains(c),
    ensures
        text::split_of(s, c) == seq![s],
{
    text::lemma_index_of(s, c, 0);
}

proof fn lemma_parts_of_one(name: Seq<char>)
    requires
        name.len() > 0,
        !name.contains('/'),
        name != "."@,
    ensures
        path_parts(seq!['/'] + name) == seq![name],
{
    let none = Seq::<char>::empty();
    lemma_split_of_two(none, name, '/');
    lemma_split_one(none, '/');
    lemma_split_one(name, '/');
    assert(none.push('/') + name =~= seq!['/'] + name);
    let all = text::split_of(seq!['/'] + name, '/');
    assert(all =~= seq![none, name]);
    reveal_with_fuel(kept_parts, 3);
    assert(kept_parts(all, 2) =~= Seq::empty());
    assert(kept_parts(all, 1) =~= seq![name]);
    assert(kept_parts(all, 0) =~= seq![name]);
}

/// What lies below one directory at the root does not lie below another: names
/// count as a whole, also where one begins with the other.
pub proof fn law_neighbours_are_apart(a: Seq<char>, b: Seq<char>, rest: Seq<char>)
    requires
        a.len() > 0,
        b.len() > 0,
        !a.contains('/'),
        !b.contains('/'),
        a != "."@,
        b != "."@,
        a != b,
    ensures
        !lies_in(seq!['/'] + a, seq!['/'] + b),
        !lies_in((seq!['/'] + a).push('/') + rest, seq!['/'] + b),
{
    lemma_parts_of_one(a);
    lemma_parts_of_one(b);
    let below = (seq!['/'] + a).push('/') + rest;
    lemma_parts_below(seq!['/'] + a, rest);
    let p = path_parts(below);
    assert(p.subrange(0, 1)[0] == a);
    if lies_in(below, seq!['/'] + b) {
        assert(p.subrange(0, 1)[0] == b);
    }
    if lies_in(seq!['/'] + a, seq!['/'] + b) {
        assert(seq![a].subrange(0, 1)[0] == b);
    }
}

/// The user may go to their own directory and below it wherever paths have
/// slashes, and on Linux and macOS below the places for temporary files and for
/// other drives; without a directory of their own they may go nowhere there.
pub proof fn law_home_is_open(platform: Platform, home: Seq<char>, name: Seq<char>)
    requires
        home.len() > 0,
        platform != Platform::Windows,
        platform != Platform::Android,
    ensures
        location_allowed(platform, home, Some(home)),
        location_allowed(platform, home.push('/') + name, Some(home)),
        platform == Platform::Linux ==> location_allowed(platform, "/tmp"@.push('/') + name, Some(home))
            && location_allowed(platform, "/media"@.push('/') + name, Some(home))
            && location_allowed(platform, "/mnt"@.push('/') + name, Some(home))
            && location_allowed(platform, "/run/media"@.push('/') + name, Some(home)),
        platform == Platform::MacOs ==> location_allowed(platform, "/tmp"@.push('/') + name, Some(home))
            && location_allowed(platform, "/private/tmp"@.push('/') + name, Some(home))
            && location_allowed(platform, "/Volumes"@.push('/') + name, Some(home))
            && location_allowed(platform, "/Applications"@.push('/') + name, Some(home)),
        !location_allowed(platform, home.push('/') + name, None),
{
    reveal_strlit("/tmp");
    reveal_strlit("/media");
    reveal_strlit("/mnt");
    reveal_strlit("/run/media");
    reveal_strlit("/private/tmp");
    reveal_strlit("/Volumes");
    reveal_strlit("/Applications");
    law_what_is_below_lies_in(home, name, home, home);
    law_what_is_below_lies_in("/tmp"@, name, home, home);
    law_what_is_below_lies_in("/media"@, name, home, home);
    law_what_is_below_lies_in("/mnt"@, name, home, home);
    law_what_is_below_lies_in("/run/media"@, name, home, home);
    law_what_is_below_lies_in("/private/tmp"@, name, home, home);
    law_what_is_below_lies_in("/Volumes"@, name, home, home);
    law_what_is_below_lies_in("/Applications"@, name, home, home);
}

proof fn lemma_parts_of_run_media()
    ensures
        path_parts("/run/media"@).len() == 2,
        path_parts("/run/media"@)[0] == "run"@,
        path_parts("/private/tmp"@).len() == 2,
        path_parts("/private/tmp"@)[0] == "private"@,
{
    reveal_strlit("/run/media");
    reveal_strlit("/private/tmp");
    reveal_strlit("run");
    reveal_strlit("private");
    reveal_strlit("media");
    reveal_strlit("tmp");
    reveal_strlit(".");
    lemma_two_parts("run"@, "media"@);
    lemma_two_parts("private"@, "tmp"@);
    assert("/run/media"@ =~= (seq!['/'] + "run"@).push('/') + "media"@);
    assert("/private/tmp"@ =~= (seq!['/'] + "private"@).push('/') + "tmp"@);
}

proof fn lemma_two_parts(a: Seq<char>, b: Seq<char>)
    requires
        a.len() > 1,
        b.len() > 1,
        !a.contains('/'),
        !b.contains('/'),
    ensures
        path_parts((seq!['/'] + a).push('/') + b) == seq![a, b],
{
    reveal_strlit(".");
    lemma_parts_of_one(a);
    lemma_split_of_two(seq!['/'] + a, b, '/');
    lemma_split_one(b, '/');
    let x = text::split_of(seq!['/'] + a, '/');
    let y = seq![b];
    lemma_kept_of_two(x, y, 0);
    let n = x.len() as int;
    assert((x + y)[n] == b);
    reveal_with_fuel(kept_parts, 2);
    assert(kept_parts(x + y, n + 1) =~= Seq::empty());
    assert(kept_parts(x + y, n) =~= seq![b]);
    assert(seq![a] + seq![b] =~= seq![a, b]);
}

/// The user may not go to a place of the system: to what lies below a directory
/// at the root that is none of the places for temporary files and other drives,
/// unless it is their own.
pub proof fn law_system_is_closed(platform: Platform, home: Seq<char>, top: Seq<char>, rest: Seq<char>)
    requires
        platform == Platform::Linux || platform == Platform::MacOs,
        top.len() > 0,
        !top.contains('/'),
        top != "."@,
        top != "tmp"@,
        platform == Platform::Linux ==> top != "media"@ && top != "mnt"@ && top != "run"@,
        platform == Platform::MacOs ==> top != "private"@ && top != "Volumes"@ && top
            != "Applications"@,
        !lies_in((seq!['/'] + top).push('/') + rest, home),
    ensures
        !location_allowed(platform, (seq!['/'] + top).push('/') + rest, Some(home)),
{
    reveal_strlit("/tmp");
    reveal_strlit("/media");
    reveal_strlit("/mnt");
    reveal_strlit("/Volumes");
    reveal_strlit("/Applications");
    reveal_strlit("tmp");
    reveal_strlit("media");
    reveal_strlit("mnt");
    reveal_strlit("Volumes");
    reveal_strlit("Applications");
    reveal_strlit(".");
    assert("/tmp"@ =~= seq!['/'] + "tmp"@);
    assert("/media"@ =~= seq!['/'] + "media"@);
    assert("/mnt"@ =~= seq!['/'] + "mnt"@);
    assert("/Volumes"@ =~= seq!['/'] + "Volumes"@);
    assert("/Applications"@ =~= seq!['/'] + "Applications"@);
    law_neighbours_are_apart(top, "tmp"@, rest);
    let path = (seq!['/'] + top).push('/') + rest;
    lemma_parts_of_one(top);
    lemma_parts_below(seq!['/'] + top, rest);
    lemma_parts_of_run_media();
    let p = path_parts(path);
    assert(p.subrange(0, 1)[0] == top);
    if platform == Platform::Linux {
        law_neighbours_are_apart(top, "media"@, rest);
        law_neighbours_are_apart(top, "mnt"@, rest);
        if lies_in(path, "/run/media"@) {
            assert(p.subrange(0, 2)[0] == "run"@);
        }
    } else {
        law_neighbours_are_apart(top, "Volumes"@, rest);
        law_neighbours_are_apart(top, "Applications"@, rest);
        if lies_in(path, "/private/tmp"@) {
            assert(p.subrange(0, 2)[0] == "private"@);
        }
    }
}

/// The status at `i` is that of a path that is there, and those before it are of
/// missing ones.
pub open spec fn is_nearest(statuses: Seq<PathStatus>, i: int) -> bool {
    &&& 0 <= i < statuses.len()
    &&& statuses[i] == PathStatus::Found
    &&& forall|j: int| 0 <= j < i ==> #[trigger] statuses[j] == PathStatus::Missing
}

proof fn lemma_nearest_is_reached(statuses: Seq<PathStatus>, i: int)
    requires
        is_nearest(statuses, i),
    ensures
        reaches_existing(statuses),
    decreases statuses.len(),
{
    if i > 0 {
        let rest = statuses.skip(1);
        assert(statuses[0] == PathStatus::Missing);
        assert forall|j: int| 0 <= j < i - 1 implies #[trigger] rest[j] == PathStatus::Missing by {
            assert(rest[j] == statuses[j + 1]);
        }
        assert(rest[i - 1] == statuses[i]);
        lemma_nearest_is_reached(rest, i - 1);
    }
}

proof fn lemma_reached_is_nearest(statuses: Seq<PathStatus>) -> (i: int)
    requires
        reaches_existing(statuses),
    ensures
        is_nearest(statuses, i),
    decreases statuses.len(),
{
    if statuses[0] == PathStatus::Missing {
        let rest = statuses.skip(1);
        let i = lemma_reached_is_nearest(rest);
        assert(statuses[i + 1] == rest[i]);
        assert forall|j: int| 0 <= j < i + 1 implies #[trigger] statuses[j]
            == PathStatus::Missing by {
            if j > 0 {
                assert(statuses[j] == rest[j - 1]);
            }
        }
        i + 1
    } else {
        0
    }
}

/// A path can be reached if it is there, or if the nearest of its ancestors that
/// is not missing is; and only so.
pub proof fn law_nearest_ancestor_decides(statuses: Seq<PathStatus>)
    ensures
        reaches_existing(statuses) <==> exists|i: int| #[trigger] is_nearest(statuses, i),
{
    if reaches_existing(statuses) {
        let i = lemma_reached_is_nearest(statuses);
        assert(is_nearest(statuses, i));
    }
    if exists|i: int| #[trigger] is_nearest(statuses, i) {
        let i = choose|i: int| #[trigger] is_nearest(statuses, i);
        lemma_nearest_is_reached(statuses, i);
    }
}

/// A share of another machine is open, whatever lies behind it, unless it is one
/// of administration: a drive, `admin$`, `ipc$` or `print$`.
pub proof fn law_shares_are_open(
    server: Seq<char>,
    share: Seq<char>,
    rest: Seq<char>,
    home_lower: Seq<char>,
)
    requires
        !server.contains('\\'),
        !share.contains('\\'),
    ensures
        ({
            let path = "\\\\"@ + server.push('\\') + share.push('\\') + rest;
            windows_location_allowed(path, home_lower) <==> !((share.len() == 2 && share[1] == '$'
                && ('a' <= share[0] <= 'z' || 'A' <= share[0] <= 'Z')) || share == "admin$"@
                || share == "ipc$"@ || share == "print$"@)
        }),
{
    reveal_strlit("\\\\");
    reveal_strlit("c:\\windows");
    reveal_strlit("c:\\program files");
    reveal_strlit("c:\\program files (x86)");
    reveal_strlit("c:\\programdata");
    reveal_strlit("c:\\system volume information");
    reveal_strlit("c:\\$recycle.bin");
    reveal_strlit("c:\\users\\");
    let path = "\\\\"@ + server.push('\\') + share.push('\\') + rest;
    assert(path[0] == '\\' && path[1] == '\\');
    assert(path.subrange(0, 2) =~= "\\\\"@);
    assert forall|p: Seq<char>| p.len() > 0 && p[0] == 'c' implies !#[trigger] p.is_prefix_of(path) by {
        if p.is_prefix_of(path) {
            assert(path.subrange(0, p.len() as int)[0] == p[0]);
        }
    }
    let behind = path.skip(2);
    assert(behind =~= server.push('\\') + share.push('\\') + rest);
    let n = server.len() as int;
    assert forall|j: int| 0 <= j < n implies behind[j] != '\\' by {
        assert(behind[j] == server[j]);
    }
    assert(behind[n] == '\\');
    lemma_index_of_first(behind, '\\', 0, n);
    let on = behind.skip(n + 1);
    assert(on =~= share.push('\\') + rest);
    let m = share.len() as int;
    assert forall|j: int| 0 <= j < m implies on[j] != '\\' by {
        assert(on[j] == share[j]);
    }
    assert(on[m] == '\\');
    lemma_index_of_first(on, '\\', 0, m);
    assert(on.take(m) =~= share);
    let b = vstd::utf8::encode_utf8(path);
    lemma_second_byte(path);
    assert(b[1] == 92);
}

proof fn lemma_second_byte(s: Seq<char>)
    requires
        s.len() > 1,
        (s[0] as int) < 128,
        (s[1] as int) < 128,
    ensures
        vstd::utf8::encode_utf8(s).len() > 1,
        vstd::utf8::encode_utf8(s)[0] == s[0] as int,
        vstd::utf8::encode_utf8(s)[1] == s[1] as int,
        s.len() > 2 ==> vstd::utf8::encode_utf8(s).len() > 2,
{
    let e = vstd::utf8::encode_scalar(s[0] as u32);
    let rest = s.drop_first();
    let tail = vstd::utf8::encode_utf8(rest);
    lemma_scalar_bytes(s[0]);
    assert(vstd::utf8::encode_utf8(s) == e + tail);
    assert(rest[0] == s[1]);
    lemma_scalar_bytes(rest[0]);
    let last = rest.drop_first();
    assert(tail == vstd::utf8::encode_scalar(rest[0] as u32) + vstd::utf8::encode_utf8(last));
    if s.len() > 2 {
        lemma_first_byte(last);
    }
}

/// Every drive but the system's is open; on the system's drive the directories of
/// Windows, of its programs, and of other users are closed.
pub proof fn law_drives_are_open(drive: char, rest: Seq<char>, home_lower: Seq<char>)
    requires
        (drive as int) < 128,
        drive != 'c',
        drive != '\\',
    ensures
        windows_location_allowed(seq![drive, ':', '\\'] + rest, home_lower),
        !windows_location_allowed("c:\\windows"@ + rest, home_lower),
        !windows_location_allowed("c:\\program files"@ + rest, home_lower),
        !windows_location_allowed("c:\\programdata"@ + rest, home_lower),
        !windows_location_allowed("c:\\system volume information"@ + rest, home_lower),
        !windows_location_allowed("c:\\$recycle.bin"@ + rest, home_lower),
        "c:\\users\\"@ + rest != home_lower && !(home_lower + "\\"@).is_prefix_of(
            "c:\\users\\"@ + rest,
        ) ==> !windows_location_allowed("c:\\users\\"@ + rest, home_lower),
{
    reveal_strlit("c:\\windows");
    reveal_strlit("c:\\program files");
    reveal_strlit("c:\\program files (x86)");
    reveal_strlit("c:\\programdata");
    reveal_strlit("c:\\system volume information");
    reveal_strlit("c:\\$recycle.bin");
    reveal_strlit("c:\\users\\");
    let path = seq![drive, ':', '\\'] + rest;
    assert(path[0] == drive && path[1] == ':' && path[2] == '\\');
    assert forall|p: Seq<char>| p.len() > 0 && p[0] == 'c' implies !#[trigger] p.is_prefix_of(path) by {
        if p.is_prefix_of(path) {
            assert(path.subrange(0, p.len() as int)[0] == p[0]);
        }
    }
    lemma_second_byte(path);
    lemma_is_prefix("c:\\windows"@, rest);
    lemma_is_prefix("c:\\program files"@, rest);
    lemma_is_prefix("c:\\programdata"@, rest);
    lemma_is_prefix("c:\\system volume information"@, rest);
    lemma_is_prefix("c:\\$recycle.bin"@, rest);
    lemma_is_prefix("c:\\users\\"@, rest);
}

proof fn lemma_is_prefix(a: Seq<char>, b: Seq<char>)
    ensures
        a.is_prefix_of(a + b),
{
    assert((a + b).subrange(0, a.len() as int) =~= a);
}

/// The names of devices, in capitals: four names, and each of the nine ports of
/// two sorts. None of them is a path on Windows, and a path with two colons that
/// does not begin with a drive is none.
pub proof fn law_devices_are_no_paths(path: Seq<char>, stem: Seq<char>, port: char)
    requires
        '1' <= port <= '9',
    ensures
        is_device_name("CON"@) && is_device_name("PRN"@) && is_device_name("AUX"@)
            && is_device_name("NUL"@),
        is_device_name("COM"@.push(port)),
        is_device_name("LPT"@.push(port)),
        is_device_name(outside::uppercase(stem)) ==> !path_accepted_on_windows(path, stem),
        forall|i: int, j: int|
            0 <= i < j < path.len() && #[trigger] path[i] == ':' && #[trigger] path[j] == ':'
                && path[1] != ':' ==> !path_accepted_on_windows(path, stem),
        path_accepted(path) && !path.contains(':') && !is_device_name(outside::uppercase(stem))
            ==> path_accepted_on_windows(path, stem),
{
    reveal_strlit("COM");
    reveal_strlit("LPT");
    let a = "COM"@.push(port);
    let b = "LPT"@.push(port);
    assert(a.subrange(0, 3) =~= "COM"@);
    assert(b.subrange(0, 3) =~= "LPT"@);
    assert forall|i: int, j: int|
        0 <= i < j < path.len() && #[trigger] path[i] == ':' && #[trigger] path[j] == ':' && path[1]
            != ':' implies !path_accepted_on_windows(path, stem) by {
        lemma_two_occurrences(path, ':', i, j);
    }
    if !path.contains(':') {
        lemma_no_occurrence(path, ':');
    }
}

proof fn lemma_two_occurrences(s: Seq<char>, c: char, i: int, j: int)
    requires
        0 <= i < j < s.len(),
        s[i] == c,
        s[j] == c,
    ensures
        occurrences(s, c) >= 2,
    decreases s.len(),
{
    if j < s.len() - 1 {
        lemma_two_occurrences(s.drop_last(), c, i, j);
    } else {
        lemma_one_occurrence(s.drop_last(), c, i);
    }
}

proof fn lemma_one_occurrence(s: Seq<char>, c: char, i: int)
    requires
        0 <= i < s.len(),
        s[i] == c,
    ensures
        occurrences(s, c) >= 1,
    decreases s.len(),
{
    if i < s.len() - 1 {
        lemma_one_occurrence(s.drop_last(), c, i);
    }
}

proof fn lemma_no_occurrence(s: Seq<char>, c: char)
    requires
        !s.contains(c),
    ensures
        occurrences(s, c) == 0,
    decreases s.len(),
{
    if s.len() > 0 {
        assert forall|i: int| 0 <= i < s.drop_last().len() implies s.drop_last()[i] != c by {
            assert(s[i] == s.drop_last()[i]);
        }
        lemma_no_occurrence(s.drop_last(), c);
        assert(s[s.len() - 1] == s.last());
    }
}

/// A wiki is read from the place that its path resolves to, and written there or,
/// where it is new, below the resolved parent under its own name; and that for
/// every accepted absolute path of an HTML file that is no directory.
pub proof fn law_ordinary_wikis_are_granted(path: Seq<char>, f: PathFacts, w: WriteFacts)
    ensures
        path.len() > 0 && accepted_on(path, f.platform, f.stem@) && f.absolute && f.canonical is Ok
            ==> {
            &&& !f.is_dir && is_html_extension(text::opt_view(f.extension)) ==> wiki_path_verdict(
                path,
                f,
            ) == Ok::<Seq<char>, Seq<char>>(f.canonical->Ok_0@)
            &&& f.is_dir ==> directory_verdict(path, f) == Ok::<Seq<char>, Seq<char>>(
                f.canonical->Ok_0@,
            )
            &&& !f.is_dir ==> user_file_verdict(path, f, true) == Ok::<Seq<char>, Seq<char>>(
                f.canonical->Ok_0@,
            )
        },
        path.len() > 0 && accepted_on(path, w.platform, w.stem@) && w.absolute && is_html_extension(
            text::opt_view(w.extension),
        ) ==> {
            &&& w.exists && w.canonical is Ok && !w.is_dir ==> write_path_verdict(path, w) == Ok::<
                Seq<char>,
                Seq<char>,
            >(w.canonical->Ok_0@)
            &&& !w.exists && w.has_parent && w.parent_exists && w.canonical_parent is Ok
                && w.parent_is_dir && w.file_name is Some && w.canonical_parent->Ok_0@.len() > 0
                && w.platform != Platform::Windows && w.canonical_parent->Ok_0@.last() != '/'
                ==> write_path_verdict(path, w) == Ok::<Seq<char>, Seq<char>>(
                w.canonical_parent->Ok_0@ + seq!['/'] + w.file_name->0@,
            )
        },
        path.len() == 0 || !f.absolute || !accepted_on(path, f.platform, f.stem@) || f.canonical is Err
            ==> wiki_path_verdict(path, f) is Err && directory_verdict(path, f) is Err
            && user_file_verdict(path, f, true) is Err,
        f.is_dir ==> wiki_path_verdict(path, f) is Err && user_file_verdict(path, f, true) is Err,
        !f.is_dir ==> directory_verdict(path, f) is Err,
{
    if w.canonical_parent is Ok && w.file_name is Some {
        let p = w.canonical_parent->Ok_0@;
        let n = w.file_name->0@;
        assert(p.push('/') + n =~= p + seq!['/'] + n);
    }
}

/// The extensions of HTML files are `html` and `htm`, each letter in either case.
pub proof fn law_html_extensions(e: Seq<char>)
    ensures
        is_html_extension(Some(e)) <==> (e.len() == 3 || e.len() == 4) && (e[0] == 'h' || e[0]
            == 'H') && (e[1] == 't' || e[1] == 'T') && (e[2] == 'm' || e[2] == 'M') && (e.len() == 4
            ==> e[3] == 'l' || e[3] == 'L'),
        !is_html_extension(None),
{
    reveal_strlit("html");
    reveal_strlit("htm");
    let l = text::ascii_lowered(e);
    assert(l.len() == e.len());
    if e.len() == 4 {
        assert(l =~= "html"@ <==> l[0] == 'h' && l[1] == 't' && l[2] == 'm' && l[3] == 'l');
        lemma_lower(e[0], 'h');
        lemma_lower(e[1], 't');
        lemma_lower(e[2], 'm');
        lemma_lower(e[3], 'l');
    }
    if e.len() == 3 {
        assert(l =~= "htm"@ <==> l[0] == 'h' && l[1] == 't' && l[2] == 'm');
        lemma_lower(e[0], 'h');
        lemma_lower(e[1], 't');
        lemma_lower(e[2], 'm');
    }
}

proof fn lemma_lower(c: char, small: char)
    requires
        'a' <= small <= 'z',
    ensures
        text::ascii_lower(c) == small <==> c == small || c as int == small as int - 32,
{
    if 'A' <= c <= 'Z' {
        assert(text::ascii_lower(c) as int == c as int + 32);
    }
}

} // verus!
