//! The scripts that are run to work on a wiki, and what is made of their
//! answers.

use vstd::prelude::*;
use crate::init_script;
use crate::outside;
use crate::text;

verus! {

/// How much memory scripts may take, in bytes.
pub const MEMORY_LIMIT: usize = 67_108_864;

/// The script that gives a tiddler's text.
pub open spec fn text_script(title: Seq<char>) -> Seq<char> {
    "\n                (function() {\n                    var tiddler = $tw.wiki.getTiddler("@
        + outside::json_quoted(title)
        + ");\n                    return tiddler ? tiddler.fields.text : null;\n                })()\n            "@
}

/// The script that gives a tiddler's text. The title stands in it as a JSON
/// string, so that it cannot end the string.
pub fn get_tiddler_text_script(title: &str) -> (r: String)
    ensures
        r@ == text_script(title@),
{
    let quoted: String = outside::json_string(title);
    text::concat3(
        "\n                (function() {\n                    var tiddler = $tw.wiki.getTiddler(",
        quoted.as_str(),
        ");\n                    return tiddler ? tiddler.fields.text : null;\n                })()\n            ",
    )
}

/// The script that sets a tiddler.
pub open spec fn set_script(title: Seq<char>, content: Seq<char>) -> Seq<char> {
    "\n                $tw.wiki.addTiddler({\n                    title: "@ + outside::json_quoted(
        title,
    ) + ",\n                    text: "@ + outside::json_quoted(content)
        + "\n                });\n            "@
}

/// The script that sets a tiddler.
pub fn set_tiddler_script(title: &str, content: &str) -> (r: String)
    ensures
        r@ == set_script(title@, content@),
{
    let quoted_title: String = outside::json_string(title);
    let quoted_text: String = outside::json_string(content);
    let mut out: String = text::concat3(
        "\n                $tw.wiki.addTiddler({\n                    title: ",
        quoted_title.as_str(),
        ",\n                    text: ",
    );
    out.append(quoted_text.as_str());
    out.append("\n                });\n            ");
    out
}

/// What a script answers.
pub enum ScriptValue {
    Null,
    Undefined,
    Text(String),
    Other,
}

/// The text of a tiddler, where the script gave one.
pub fn tiddler_text(answer: &ScriptValue) -> (r: Option<String>)
    ensures
        text::opt_view(r) == match *answer {
            ScriptValue::Text(s) => Some(s@),
            _ => None,
        },
{
    match answer {
        ScriptValue::Text(s) => Some(s.clone()),
        _ => None,
    }
}

/// Where the string literal that the position is in ends: at the first quote
/// that no backslash escapes.
pub open spec fn literal_end(s: Seq<char>, i: int) -> Option<int>
    decreases s.len() + 2 - i,
{
    if i < 0 || i >= s.len() {
        None
    } else if s[i] == '"' {
        Some(i)
    } else if s[i] == '\\' {
        literal_end(s, i + 2)
    } else {
        literal_end(s, i + 1)
    }
}

proof fn lemma_escape_is_plain(c: char)
    ensures
        ({
            let e = outside::json_char(c);
            &&& e.len() >= 1
            &&& forall|i: int| 0 <= i < e.len() ==> #[trigger] e[i] as int >= 32
            &&& e[0] == '\\' ==> e.len() >= 2
            &&& e[0] == '\\' ==> forall|i: int|
                2 <= i < e.len() ==> #[trigger] e[i] != '"' && e[i] != '\\'
            &&& e[0] != '\\' ==> e.len() == 1 && e[0] != '"'
        }),
{
    let n = c as int;
    assert(0 <= n);
    if n < 32 {
        assert(0 <= n / 16 < 16 && 0 <= n % 16 < 16);
        assert(outside::hex_lower(n / 16) as int >= 48 && outside::hex_lower(n / 16) != '\\');
        assert(outside::hex_lower(n % 16) as int >= 48 && outside::hex_lower(n % 16) != '\\');
    }
}

proof fn lemma_plain_run(s: Seq<char>, i: int, j: int)
    requires
        0 <= i <= j <= s.len(),
        forall|k: int| i <= k < j ==> #[trigger] s[k] != '"' && s[k] != '\\',
    ensures
        literal_end(s, i) == literal_end(s, j),
    decreases j - i,
{
    if i < j {
        lemma_plain_run(s, i + 1, j);
    }
}

proof fn lemma_literal(s: Seq<char>, at: int, t: Seq<char>)
    requires
        0 <= at,
        at + outside::json_chars(t).len() < s.len(),
        s.subrange(at, at + outside::json_chars(t).len() as int) == outside::json_chars(t),
        s[at + outside::json_chars(t).len()] == '"',
    ensures
        literal_end(s, at) == Some(at + outside::json_chars(t).len()),
        forall|i: int|
            at <= i < at + outside::json_chars(t).len() ==> #[trigger] s[i] as int >= 32,
    decreases t.len(),
{
    let all = outside::json_chars(t);
    if t.len() > 0 {
        let e = outside::json_char(t[0]);
        let tail = outside::json_chars(t.skip(1));
        let n = e.len() as int;
        lemma_escape_is_plain(t[0]);
        assert(all == e + tail);
        assert forall|k: int| 0 <= k < n implies #[trigger] s[at + k] == e[k] by {
            assert(s.subrange(at, at + all.len())[k] == all[k]);
        }
        assert(s.subrange(at + n, at + n + tail.len()) =~= tail) by {
            assert forall|k: int| 0 <= k < tail.len() implies s[at + n + k] == tail[k] by {
                assert(s.subrange(at, at + all.len())[n + k] == all[n + k]);
            }
        }
        lemma_literal(s, at + n, t.skip(1));
        assert(s[at + 0] == e[0]);
        if e[0] == '\\' {
            assert forall|k: int| at + 2 <= k < at + n implies #[trigger] s[k] != '"' && s[k]
                != '\\' by {
                assert(s[at + (k - at)] == e[k - at]);
            }
            lemma_plain_run(s, at + 2, at + n);
        }
        assert forall|i: int| at <= i < at + all.len() implies #[trigger] s[i] as int >= 32 by {
            if i < at + n {
                assert(s[at + (i - at)] == e[i - at]);
            }
        }
    }
}

/// A string that is quoted as JSON stays one string literal, whatever it holds
/// and whatever follows: the literal ends at its last quote, and no control
/// character breaks it.
pub proof fn law_quoted_string_is_one_literal(s: Seq<char>, rest: Seq<char>)
    ensures
        literal_end(outside::json_quoted(s) + rest, 1) == Some(outside::json_quoted(s).len() - 1),
        forall|i: int|
            0 <= i < outside::json_quoted(s).len() ==> #[trigger] outside::json_quoted(s)[i] as int
                >= 32,
{
    let inner = outside::json_chars(s);
    let q = outside::json_quoted(s);
    let all = q + rest;
    assert(all.subrange(1, 1 + inner.len() as int) =~= inner);
    assert(all[1 + inner.len() as int] == '"');
    lemma_literal(all, 1, s);
    assert forall|i: int| 0 <= i < q.len() implies #[trigger] q[i] as int >= 32 by {
        assert(all[i] == q[i]);
    }
}

/// The script that gives a text asks for the tiddler of exactly that title, and the
/// script that sets a tiddler hands over its title and its text as they are.
pub proof fn law_scripts_hand_over_title_and_text(title: Seq<char>, content: Seq<char>)
    ensures
        ({
            let asked = text_script(title);
            let asked_at =
                "\n                (function() {\n                    var tiddler = $tw.wiki.getTiddler("@.len() as int;
            let set = set_script(title, content);
            let title_at =
                "\n                $tw.wiki.addTiddler({\n                    title: "@.len() as int;
            let text_at = title_at + outside::json_quoted(title).len()
                + ",\n                    text: "@.len();
            &&& asked[asked_at] == '"'
            &&& init_script::literal_text(asked.skip(asked_at + 1)) == Some(title)
            &&& set[title_at] == '"'
            &&& init_script::literal_text(set.skip(title_at + 1)) == Some(title)
            &&& set[text_at] == '"'
            &&& init_script::literal_text(set.skip(text_at + 1)) == Some(content)
        }),
{
    let asked_front =
        "\n                (function() {\n                    var tiddler = $tw.wiki.getTiddler("@;
    let asked_end =
        ");\n                    return tiddler ? tiddler.fields.text : null;\n                })()\n            "@;
    init_script::lemma_literal_behind(asked_front, title, asked_end);
    let front = "\n                $tw.wiki.addTiddler({\n                    title: "@;
    let middle = ",\n                    text: "@;
    let end = "\n                });\n            "@;
    let a = outside::json_quoted(title);
    let b = outside::json_quoted(content);
    assert(front + a + middle + b + end =~= (front + a) + (middle + b + end));
    init_script::lemma_literal_behind(front, title, middle + b + end);
    init_script::lemma_literal_behind(front + a + middle, content, end);
}

} // verus!
