//! What of HTML is dangerous, said of its characters, and what it means that
//! nothing else is taken out.

use vstd::prelude::*;
use crate::text;

verus! {

// ---------------------------------------------------------------------------
// Characters
// ---------------------------------------------------------------------------

/// The character is the small letter, or what counts as that letter in another
/// case; any other character stands for itself.
pub open spec fn is_letter(c: char, small: char) -> bool {
    ||| c == small
    ||| 'a' <= small <= 'z' && c as int == small as int - 32
    ||| small == 's' && c == '\u{17F}'
    ||| small == 'k' && c == '\u{212A}'
}

/// The word stands at `i`, in whatever case.
pub open spec fn reads(s: Seq<char>, i: int, word: Seq<char>) -> bool {
    &&& 0 <= i
    &&& i + word.len() <= s.len()
    &&& forall|k: int| 0 <= k < word.len() ==> is_letter(#[trigger] s[i + k], word[k])
}

/// There is only white space from `a` to `b`.
pub open spec fn spaces(s: Seq<char>, a: int, b: int) -> bool {
    0 <= a <= b <= s.len() && forall|k: int| a <= k < b ==> text::is_space(#[trigger] s[k])
}

/// The character is not among those from `a` to `b`.
pub open spec fn free_of(s: Seq<char>, a: int, b: int, c: char) -> bool {
    forall|k: int| a <= k < b ==> #[trigger] s[k] != c
}

/// A quotation mark.
pub open spec fn is_quote(c: char) -> bool {
    c == '"' || c == '\''
}

/// A letter or digit of ASCII, or an underscore.
pub open spec fn is_ascii_word(c: char) -> bool {
    '0' <= c <= '9' || 'A' <= c <= 'Z' || 'a' <= c <= 'z' || c == '_'
}

/// A character that names may be made of: all that are not ASCII count.
pub open spec fn may_be_word(c: char) -> bool {
    c as int >= 128 || is_ascii_word(c)
}

// ---------------------------------------------------------------------------
// Parts of HTML
// ---------------------------------------------------------------------------

/// From `i` to `j` there is the word, and then whatever up to the next `>`.
pub open spec fn is_tag(s: Seq<char>, i: int, j: int, word: Seq<char>) -> bool {
    &&& reads(s, i, word)
    &&& i + word.len() < j <= s.len()
    &&& s[j - 1] == '>'
    &&& free_of(s, i + word.len(), j - 1, '>')
}

/// At `a` there is the name of an event handler, and its equals sign at `c`.
pub open spec fn is_handler(s: Seq<char>, a: int, c: int) -> bool {
    &&& reads(s, a, "on"@)
    &&& 0 <= c < s.len()
    &&& s[c] == '='
    &&& exists|b: int|
        a + 2 < b <= c && #[trigger] spaces(s, b, c) && forall|k: int|
            a + 2 <= k < b ==> may_be_word(#[trigger] s[k])
}

/// At `a` there is the name of an event handler in ASCII, and its equals sign at
/// `c`.
pub open spec fn is_ascii_handler(s: Seq<char>, a: int, c: int) -> bool {
    &&& reads(s, a, "on"@)
    &&& 0 <= c < s.len()
    &&& s[c] == '='
    &&& exists|b: int|
        a + 2 < b <= c && #[trigger] spaces(s, b, c) && forall|k: int|
            a + 2 <= k < b ==> is_ascii_word(#[trigger] s[k])
}

/// From `d` to `j` there is something between two quotation marks, and no other
/// mark.
pub open spec fn is_quoted(s: Seq<char>, d: int, j: int) -> bool {
    &&& 0 <= d
    &&& d + 2 <= j <= s.len()
    &&& is_quote(s[d])
    &&& is_quote(s[j - 1])
    &&& free_of(s, d + 1, j - 1, '"')
    &&& free_of(s, d + 1, j - 1, '\'')
}

/// From `d` to `j` there is the value of an attribute: between two equal
/// quotation marks, or without white space, quotation marks and `>`.
pub open spec fn is_value(s: Seq<char>, d: int, j: int) -> bool {
    ||| 0 <= d && d + 2 <= j <= s.len() && is_quote(s[d]) && s[j - 1] == s[d] && free_of(
        s,
        d + 1,
        j - 1,
        s[d],
    )
    ||| 0 <= d <= j <= s.len() && forall|k: int|
        d <= k < j ==> !text::is_space(#[trigger] s[k]) && s[k] != '>' && !is_quote(s[k])
}

/// A letter with which the name of a tag begins.
pub open spec fn begins_tag(c: char) -> bool {
    'a' <= c <= 'z' || 'A' <= c <= 'Z' || c == '\u{17F}' || c == '\u{212A}'
}

/// The character at `p` stands between two equal quotation marks, behind `k` and
/// before `i`.
pub open spec fn is_enclosed(s: Seq<char>, k: int, p: int, i: int) -> bool {
    exists|q: int, r: int|
        k < q < p && p < r < i && is_quote(#[trigger] s[q]) && #[trigger] s[r] == s[q]
}

/// What begins at `k` is a tag, and goes on at `i`: between them each `>` stands
/// between quotation marks.
pub open spec fn in_tag(s: Seq<char>, k: int, i: int) -> bool {
    &&& 0 <= k
    &&& k + 1 < i <= s.len()
    &&& s[k] == '<'
    &&& begins_tag(s[k + 1])
    &&& forall|p: int| k + 1 < p < i && #[trigger] s[p] == '>' ==> is_enclosed(s, k, p, i)
}

/// What begins at `k` is a tag, and goes on at `i`: there is no `>` between them.
pub open spec fn in_plain_tag(s: Seq<char>, k: int, i: int) -> bool {
    &&& 0 <= k
    &&& k + 1 < i <= s.len()
    &&& s[k] == '<'
    &&& begins_tag(s[k + 1])
    &&& free_of(s, k + 2, i, '>')
}

/// One of the attributes that hold a URL is named at `i`, up to `a`.
pub open spec fn names_url(s: Seq<char>, i: int, a: int) -> bool {
    ||| reads(s, i, "href"@) && a == i + 4
    ||| reads(s, i, "src"@) && a == i + 3
    ||| reads(s, i, "action"@) && a == i + 6
    ||| reads(s, i, "formaction"@) && a == i + 10
    ||| reads(s, i, "data"@) && a == i + 4
}

/// From `b`, where there is an equals sign, to `j` there is a quoted
/// `javascript:` URL.
pub open spec fn is_script_url(s: Seq<char>, b: int, c: int, d: int, j: int) -> bool {
    &&& 0 <= b < c
    &&& s[b] == '='
    &&& spaces(s, b + 1, c)
    &&& c < s.len()
    &&& is_quote(s[c])
    &&& spaces(s, c + 1, d)
    &&& reads(s, d, "javascript:"@)
    &&& d + 11 < j <= s.len()
    &&& is_quote(s[j - 1])
    &&& free_of(s, d + 11, j - 1, '"')
    &&& free_of(s, d + 11, j - 1, '\'')
}

// ---------------------------------------------------------------------------
// Dangers
// ---------------------------------------------------------------------------

/// What is dangerous in HTML.
pub ghost enum Danger {
    /// A `<script>` element.
    ScriptElement,
    /// A tag of a `<script>` element.
    ScriptTag,
    /// What looks like an event handler attribute with a quoted value, wherever it
    /// stands.
    QuotedHandler,
    /// An event handler attribute of a tag, with the white space before it.
    SpacedHandler,
    /// An event handler attribute of a tag that follows a slash or a quoted value.
    JoinedHandler,
    /// An attribute that holds a `javascript:` URL.
    ScriptAttribute,
    /// A CSS expression, or `javascript:` by itself.
    Remnant,
}

/// The characters from `i` to `j` are such a danger.
pub open spec fn is_danger(kind: Danger, s: Seq<char>, i: int, j: int) -> bool {
    match kind {
        Danger::ScriptElement => exists|a: int, b: int|
            a <= b && #[trigger] is_tag(s, i, a, "<script"@) && #[trigger] is_tag(
                s,
                b,
                j,
                "</script"@,
            ),
        Danger::ScriptTag => is_tag(s, i, j, "<script"@) || is_tag(s, i, j, "</script"@),
        Danger::QuotedHandler => exists|a: int, c: int, d: int|
            i < a && #[trigger] spaces(s, i, a) && #[trigger] is_handler(s, a, c) && spaces(
                s,
                c + 1,
                d,
            ) && #[trigger] is_quoted(s, d, j),
        Danger::SpacedHandler => exists|k: int, a: int, c: int, d: int|
            i < a && #[trigger] in_tag(s, k, i) && #[trigger] spaces(s, i, a)
                && #[trigger] is_handler(s, a, c) && spaces(s, c + 1, d) && #[trigger] is_value(
                s,
                d,
                j,
            ),
        Danger::JoinedHandler => exists|k: int, c: int, d: int|
            #[trigger] in_tag(s, k, i) && (s[i - 1] == '/' || is_quote(s[i - 1]))
                && #[trigger] is_handler(s, i, c) && spaces(s, c + 1, d) && #[trigger] is_value(
                s,
                d,
                j,
            ),
        Danger::ScriptAttribute => exists|a: int, b: int, c: int, d: int|
            #[trigger] names_url(s, i, a) && #[trigger] spaces(s, a, b)
                && #[trigger] is_script_url(s, b, c, d, j),
        Danger::Remnant => {
            ||| reads(s, i, "javascript:"@) && j == i + 11
            ||| exists|a: int|
                reads(s, i, "expression"@) && #[trigger] spaces(s, i + 10, a) && a + 1 < j
                    <= s.len() && s[a] == '(' && s[j - 1] == ')' && free_of(s, a + 1, j - 1, ')')
        },
    }
}

/// The HTML holds such a danger. What is said here of names is said of ASCII, and
/// of a tag that it holds no `>` before its attribute.
pub open spec fn holds(kind: Danger, s: Seq<char>) -> bool {
    match kind {
        Danger::ScriptElement | Danger::ScriptAttribute | Danger::Remnant => exists|i: int, j: int|
            #[trigger] is_danger(kind, s, i, j),
        Danger::ScriptTag => {
            ||| exists|i: int, j: int|
                #[trigger] is_tag(s, i, j, "<script"@) && !may_be_word(s[i + 7])
            ||| exists|i: int, j: int|
                #[trigger] is_tag(s, i, j, "</script"@) && !may_be_word(s[i + 8])
        },
        Danger::QuotedHandler => exists|i: int, a: int, c: int, d: int, j: int|
            i < a && #[trigger] spaces(s, i, a) && #[trigger] is_ascii_handler(s, a, c) && spaces(
                s,
                c + 1,
                d,
            ) && #[trigger] is_quoted(s, d, j),
        Danger::SpacedHandler => exists|k: int, i: int, a: int, c: int|
            i < a && #[trigger] in_plain_tag(s, k, i) && #[trigger] spaces(s, i, a)
                && #[trigger] is_ascii_handler(s, a, c),
        Danger::JoinedHandler => exists|k: int, i: int, c: int|
            #[trigger] in_plain_tag(s, k, i) && s[i - 1] == '/' && free_of(s, k + 2, i, '"')
                && free_of(s, k + 2, i, '\'') && k + 2 < i && #[trigger] is_ascii_handler(s, i, c),
    }
}

// ---------------------------------------------------------------------------
// Taking dangers out
// ---------------------------------------------------------------------------

/// `t` is what is left of `s` from `i` on where some stretches of it are cut out,
/// each of them such a danger.
pub open spec fn is_left(kind: Danger, s: Seq<char>, i: int, t: Seq<char>) -> bool
    decreases s.len() - i,
{
    if i < 0 || i >= s.len() {
        t.len() == 0
    } else {
        ||| t.len() > 0 && t[0] == s[i] && is_left(kind, s, i + 1, t.skip(1))
        ||| exists|j: int| i < j <= s.len() && #[trigger] is_danger(kind, s, i, j) && is_left(kind, s, j, t)
    }
}

/// `t` is `s` without some such dangers, and is not `s` itself where `s` holds
/// one.
pub open spec fn is_without(kind: Danger, s: Seq<char>, t: Seq<char>) -> bool {
    is_left(kind, s, 0, t) && (t == s ==> !holds(kind, s))
}

/// Dangers of one sort are cut out of the one, which leaves the other.
pub open spec fn is_step(s: Seq<char>, t: Seq<char>) -> bool {
    exists|kind: Danger| #[trigger] is_left(kind, s, 0, t)
}

/// Each of the texts is what is left of the one before it.
pub open spec fn is_course(stages: Seq<Seq<char>>, s: Seq<char>, t: Seq<char>) -> bool {
    &&& stages.len() > 0
    &&& stages[0] == s
    &&& stages.last() == t
    &&& forall|n: int| 0 < n < stages.len() ==> is_step(stages[n - 1], #[trigger] stages[n])
}

/// The one comes of the other by cutting dangers out, and by nothing else.
pub open spec fn comes_of(s: Seq<char>, t: Seq<char>) -> bool {
    exists|stages: Seq<Seq<char>>| #[trigger] is_course(stages, s, t)
}

/// Nothing comes of nothing being cut out.
pub proof fn lemma_comes_of_itself(s: Seq<char>)
    ensures
        comes_of(s, s),
{
    assert(is_course(seq![s], s, s));
}

/// Cutting out goes on from what is left.
pub proof fn lemma_comes_on(s: Seq<char>, t: Seq<char>, u: Seq<char>, kind: Danger)
    requires
        comes_of(s, t),
        is_left(kind, t, 0, u),
    ensures
        comes_of(s, u),
{
    let stages = choose|stages: Seq<Seq<char>>| #[trigger] is_course(stages, s, t);
    let more = stages.push(u);
    assert forall|n: int| 0 < n < more.len() implies is_step(more[n - 1], #[trigger] more[n]) by {
        if n < stages.len() {
            assert(more[n] == stages[n] && more[n - 1] == stages[n - 1]);
        } else {
            assert(more[n - 1] == t && more[n] == u);
        }
    }
    assert(is_course(more, s, u));
}

/// What comes of what is left comes of the whole.
pub proof fn lemma_comes_further(s: Seq<char>, t: Seq<char>, u: Seq<char>)
    requires
        comes_of(s, t),
        comes_of(t, u),
    ensures
        comes_of(s, u),
{
    let first = choose|stages: Seq<Seq<char>>| #[trigger] is_course(stages, s, t);
    let second = choose|stages: Seq<Seq<char>>| #[trigger] is_course(stages, t, u);
    let all = first + second.skip(1);
    let f = first.len() as int;
    assert forall|n: int| 0 < n < all.len() implies is_step(all[n - 1], #[trigger] all[n]) by {
        if n < f {
            assert(all[n] == first[n] && all[n - 1] == first[n - 1]);
        } else {
            assert(all[n] == second[n - f + 1]);
            assert(all[n - 1] == second[n - f]);
        }
    }
    assert(all.last() == u);
    assert(is_course(all, s, u));
}

/// HTML without scripts, said of its characters: it has no `<script` and no
/// `</script`, no `javascript:`, no `expression` before a bracket, no name of an
/// event handler with an equals sign behind white space, a slash or a quotation
/// mark in a tag, and none with a quoted value behind white space.
pub open spec fn is_plain(s: Seq<char>) -> bool {
    &&& forall|i: int| !#[trigger] reads(s, i, "<script"@)
    &&& forall|i: int| !#[trigger] reads(s, i, "</script"@)
    &&& forall|i: int| !#[trigger] reads(s, i, "javascript:"@)
    &&& forall|i: int, a: int|
        #[trigger] reads(s, i, "expression"@) && #[trigger] spaces(s, i + 10, a) && a < s.len()
            ==> s[a] != '('
    &&& forall|k: int, a: int, c: int|
        #[trigger] in_tag(s, k, a) && #[trigger] is_handler(s, a, c) ==> !text::is_space(s[a - 1])
            && s[a - 1] != '/' && !is_quote(s[a - 1])
    &&& forall|a: int, c: int, d: int, j: int|
        0 < a && text::is_space(s[a - 1]) && #[trigger] is_handler(s, a, c) && spaces(s, c + 1, d)
            ==> !#[trigger] is_quoted(s, d, j)
}

proof fn lemma_tag_goes_on(s: Seq<char>, k: int, i: int, a: int)
    requires
        in_tag(s, k, i),
        spaces(s, i, a),
    ensures
        in_tag(s, k, a),
{
    assert forall|p: int| k + 1 < p < a && #[trigger] s[p] == '>' implies is_enclosed(s, k, p, a) by {
        if p < i {
            assert(is_enclosed(s, k, p, i));
        } else {
            assert(text::is_space(s[p]));
        }
    }
}

proof fn lemma_plain_holds_no_danger(s: Seq<char>, kind: Danger, i: int, j: int)
    requires
        is_plain(s),
        0 <= i,
    ensures
        !is_danger(kind, s, i, j),
{
    if is_danger(kind, s, i, j) {
        match kind {
            Danger::QuotedHandler => {
                let (a, c, d) = choose|a: int, c: int, d: int|
                    i < a && #[trigger] spaces(s, i, a) && #[trigger] is_handler(s, a, c)
                        && spaces(s, c + 1, d) && #[trigger] is_quoted(s, d, j);
                assert(text::is_space(s[a - 1]));
            },
            Danger::SpacedHandler => {
                let (k, a, c, d) = choose|k: int, a: int, c: int, d: int|
                    i < a && #[trigger] in_tag(s, k, i) && #[trigger] spaces(s, i, a)
                        && #[trigger] is_handler(s, a, c) && spaces(s, c + 1, d)
                        && #[trigger] is_value(s, d, j);
                lemma_tag_goes_on(s, k, i, a);
                assert(text::is_space(s[a - 1]));
            },
            Danger::ScriptAttribute => {
                let (a, b, c, d) = choose|a: int, b: int, c: int, d: int|
                    #[trigger] names_url(s, i, a) && #[trigger] spaces(s, a, b)
                        && #[trigger] is_script_url(s, b, c, d, j);
                assert(reads(s, d, "javascript:"@));
            },
            _ => {},
        }
    }
}

proof fn lemma_all_is_left(kind: Danger, s: Seq<char>, i: int, t: Seq<char>)
    requires
        is_plain(s),
        0 <= i <= s.len(),
        is_left(kind, s, i, t),
    ensures
        t == s.skip(i),
    decreases s.len() - i,
{
    if i < s.len() {
        assert forall|j: int| !#[trigger] is_danger(kind, s, i, j) by {
            lemma_plain_holds_no_danger(s, kind, i, j);
        }
        lemma_all_is_left(kind, s, i + 1, t.skip(1));
        assert(t =~= seq![t[0]] + t.skip(1));
        assert(s.skip(i) =~= seq![s[i]] + s.skip(i + 1));
    } else {
        assert(t =~= s.skip(i));
    }
}

proof fn lemma_course_stays(stages: Seq<Seq<char>>, s: Seq<char>, t: Seq<char>, n: int)
    requires
        is_plain(s),
        is_course(stages, s, t),
        0 <= n < stages.len(),
    ensures
        stages[n] == s,
    decreases n,
{
    if n > 0 {
        lemma_course_stays(stages, s, t, n - 1);
        assert(is_step(stages[n - 1], stages[n]));
        let kind = choose|kind: Danger| #[trigger] is_left(kind, stages[n - 1], 0, stages[n]);
        lemma_all_is_left(kind, s, 0, stages[n]);
        assert(s.skip(0) =~= s);
    }
}

/// HTML without scripts is what comes of it: nothing is taken out of it.
pub proof fn law_plain_html_stays(s: Seq<char>, t: Seq<char>)
    requires
        is_plain(s),
        comes_of(s, t),
    ensures
        t == s,
{
    let stages = choose|stages: Seq<Seq<char>>| #[trigger] is_course(stages, s, t);
    lemma_course_stays(stages, s, t, stages.len() - 1);
}

proof fn lemma_next_end(s: Seq<char>, from: int, p: int) -> (q: int)
    requires
        0 <= from <= p < s.len(),
        s[p] == '>',
    ensures
        from <= q <= p,
        s[q] == '>',
        free_of(s, from, q, '>'),
    decreases p - from,
{
    if s[from] == '>' {
        from
    } else {
        let q = lemma_next_end(s, from + 1, p);
        assert(free_of(s, from, q, '>'));
        q
    }
}

/// HTML that holds none of the dangers has no `<script` and no `</script` that
/// begins a tag, in whatever case.
pub proof fn law_no_script_tag_is_left(s: Seq<char>, i: int, p: int)
    requires
        forall|kind: Danger| !#[trigger] holds(kind, s),
        0 <= p < s.len(),
        s[p] == '>',
    ensures
        reads(s, i, "<script"@) && i + 7 <= p ==> may_be_word(s[i + 7]),
        reads(s, i, "</script"@) && i + 8 <= p ==> may_be_word(s[i + 8]),
{
    reveal_strlit("<script");
    reveal_strlit("</script");
    assert(!holds(Danger::ScriptTag, s));
    if reads(s, i, "<script"@) && i + 7 <= p {
        let q = lemma_next_end(s, i + 7, p);
        assert(is_tag(s, i, q + 1, "<script"@));
    }
    if reads(s, i, "</script"@) && i + 8 <= p {
        let q = lemma_next_end(s, i + 8, p);
        assert(is_tag(s, i, q + 1, "</script"@));
    }
}

/// HTML that holds none of the dangers has no `javascript:`, in whatever case.
pub proof fn law_no_script_url_is_left(s: Seq<char>, i: int)
    requires
        forall|kind: Danger| !#[trigger] holds(kind, s),
    ensures
        !reads(s, i, "javascript:"@),
{
    assert(!holds(Danger::Remnant, s));
    if reads(s, i, "javascript:"@) {
        assert(is_danger(Danger::Remnant, s, i, i + 11));
    }
}

/// HTML that holds none of the dangers has no event handler in a tag: nowhere
/// behind a `<`, a letter and characters that are no `>` is there white space and
/// then the name of a handler, in ASCII, and an equals sign.
pub proof fn law_no_handler_is_left(s: Seq<char>, k: int, a: int, c: int)
    requires
        forall|kind: Danger| !#[trigger] holds(kind, s),
        in_plain_tag(s, k, a),
        k + 2 < a,
        text::is_space(s[a - 1]) || (s[a - 1] == '/' && free_of(s, k + 2, a, '"') && free_of(
            s,
            k + 2,
            a,
            '\'',
        )),
    ensures
        !is_ascii_handler(s, a, c),
{
    assert(!holds(Danger::SpacedHandler, s));
    assert(!holds(Danger::JoinedHandler, s));
    if is_ascii_handler(s, a, c) {
        if text::is_space(s[a - 1]) {
            assert(in_plain_tag(s, k, a - 1));
            assert(spaces(s, a - 1, a));
        }
    }
}

/// The characters of `t` are among those of `s` from `i` on, in their order.
pub open spec fn is_part(t: Seq<char>, s: Seq<char>, i: int) -> bool
    decreases s.len() - i,
{
    if t.len() == 0 {
        true
    } else if i < 0 || i >= s.len() {
        false
    } else {
        (t[0] == s[i] && is_part(t.skip(1), s, i + 1)) || is_part(t, s, i + 1)
    }
}

proof fn lemma_part_of_more(t: Seq<char>, s: Seq<char>, i: int, j: int)
    requires
        0 <= i <= j,
        is_part(t, s, j),
    ensures
        is_part(t, s, i),
    decreases j - i,
{
    if i < j && t.len() > 0 {
        lemma_part_of_more(t, s, i + 1, j);
    }
}

proof fn lemma_left_is_part(kind: Danger, s: Seq<char>, i: int, t: Seq<char>)
    requires
        0 <= i,
        is_left(kind, s, i, t),
    ensures
        is_part(t, s, i),
    decreases s.len() - i,
{
    if t.len() > 0 {
        if t[0] == s[i] && is_left(kind, s, i + 1, t.skip(1)) {
            lemma_left_is_part(kind, s, i + 1, t.skip(1));
        } else {
            let j = choose|j: int|
                i < j <= s.len() && #[trigger] is_danger(kind, s, i, j) && is_left(kind, s, j, t);
            lemma_left_is_part(kind, s, j, t);
            lemma_part_of_more(t, s, i, j);
        }
    }
}

proof fn lemma_part_of_part(u: Seq<char>, t: Seq<char>, k: int, s: Seq<char>, i: int)
    requires
        0 <= i,
        0 <= k,
        is_part(u, t, k),
        is_part(t.skip(k), s, i),
        k <= t.len(),
    ensures
        is_part(u, s, i),
    decreases s.len() - i, t.len() - k,
{
    if u.len() > 0 {
        let v = t.skip(k);
        assert(k < t.len());
        assert(v[0] == t[k]);
        assert(v.skip(1) =~= t.skip(k + 1));
        if v[0] == s[i] && is_part(v.skip(1), s, i + 1) {
            if u[0] == t[k] && is_part(u.skip(1), t, k + 1) {
                lemma_part_of_part(u.skip(1), t, k + 1, s, i + 1);
            } else {
                lemma_part_of_part(u, t, k + 1, s, i + 1);
            }
        } else {
            lemma_part_of_part(u, t, k, s, i + 1);
        }
    }
}

proof fn lemma_part_of_itself(s: Seq<char>, i: int)
    requires
        0 <= i <= s.len(),
    ensures
        is_part(s.skip(i), s, i),
    decreases s.len() - i,
{
    if i < s.len() {
        lemma_part_of_itself(s, i + 1);
        assert(s.skip(i).skip(1) =~= s.skip(i + 1));
    }
}

proof fn lemma_course_is_part(stages: Seq<Seq<char>>, s: Seq<char>, t: Seq<char>, n: int)
    requires
        is_course(stages, s, t),
        0 <= n < stages.len(),
    ensures
        is_part(stages[n], s, 0),
    decreases n,
{
    if n == 0 {
        lemma_part_of_itself(s, 0);
        assert(s.skip(0) =~= s);
    } else {
        lemma_course_is_part(stages, s, t, n - 1);
        assert(is_step(stages[n - 1], stages[n]));
        let kind = choose|kind: Danger| #[trigger] is_left(kind, stages[n - 1], 0, stages[n]);
        lemma_left_is_part(kind, stages[n - 1], 0, stages[n]);
        assert(stages[n - 1].skip(0) =~= stages[n - 1]);
        lemma_part_of_part(stages[n], stages[n - 1], 0, s, 0);
    }
}

/// Nothing is added, changed or moved: what comes of HTML are characters of it, in
/// their order.
pub proof fn law_nothing_is_added(s: Seq<char>, t: Seq<char>)
    requires
        comes_of(s, t),
    ensures
        is_part(t, s, 0),
{
    let stages = choose|stages: Seq<Seq<char>>| #[trigger] is_course(stages, s, t);
    lemma_course_is_part(stages, s, t, stages.len() - 1);
}

} // verus!
