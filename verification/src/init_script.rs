//! The script that every wiki window runs first.

use vstd::prelude::*;
use crate::outside;
use crate::text;

verus! {

/// The script through which the other scripts report that they failed.
pub open spec fn reporter() -> Seq<char> {
    "window.__tdInitErr=function(n,e){var m='[TD init] '+n+' error: '+(e&&e.message||e);if(window.__TAURI__&&window.__TAURI__.core&&window.__TAURI__.core.invoke){window.__TAURI__.core.invoke('js_log',{message:m}).catch(function(){})}console.error(m)};\n"@
}

/// The names of the scripts, in the order in which they run.
pub open spec fn script_names() -> Seq<Seq<char>> {
    seq![
        "main.js"@,
        "core.js"@,
        "window.js"@,
        "filesystem.js"@,
        "drag_drop.js"@,
        "session_auth.js"@,
        "internal_drag.js"@,
        "sync.js"@,
        "media.js"@,
        "title_sync.js"@,
        "favicon_sync.js"@,
        "lan_sync.js"@,
        "conflict_ui.js"@,
        "peer_status.js"@,
    ]
}

/// A script that keeps its failure to itself: it is reported under its name, and
/// the scripts after it run all the same.
pub open spec fn guarded(name: Seq<char>, code: Seq<char>) -> Seq<char> {
    "try{\n"@ + code + "\n}catch(_e){window.__tdInitErr('"@ + name + "',_e)}\n"@
}

/// The first of the scripts, one after the other.
pub open spec fn guarded_scripts(names: Seq<Seq<char>>, codes: Seq<Seq<char>>) -> Seq<char>
    decreases codes.len(),
{
    if codes.len() == 0 || names.len() < codes.len() {
        Seq::empty()
    } else {
        guarded_scripts(names, codes.drop_last()) + guarded(names[codes.len() - 1], codes.last())
    }
}

fn names() -> (r: Vec<&'static str>)
    ensures
        r@.len() == script_names().len(),
        forall|i: int| 0 <= i < r@.len() ==> (#[trigger] r@[i])@ == script_names()[i],
{
    let mut v: Vec<&'static str> = Vec::new();
    v.push("main.js");
    v.push("core.js");
    v.push("window.js");
    v.push("filesystem.js");
    v.push("drag_drop.js");
    v.push("session_auth.js");
    v.push("internal_drag.js");
    v.push("sync.js");
    v.push("media.js");
    v.push("title_sync.js");
    v.push("favicon_sync.js");
    v.push("lan_sync.js");
    v.push("conflict_ui.js");
    v.push("peer_status.js");
    v
}

fn push_guarded(out: &mut String, name: &str, code: &str)
    ensures
        final(out)@ == old(out)@ + guarded(name@, code@),
{
    let ghost before = out@;
    out.append("try{\n");
    out.append(code);
    out.append("\n}catch(_e){window.__tdInitErr('");
    out.append(name);
    out.append("',_e)}\n");
    assert(out@ =~= before + guarded(name@, code@));
}

/// The script made of all scripts, given by their texts in their order.
pub fn get_dialog_init_script(codes: &Vec<String>) -> (r: String)
    requires
        codes@.len() == script_names().len(),
    ensures
        r@ == reporter() + guarded_scripts(script_names(), text::views(codes@)),
{
    let labels: Vec<&'static str> = names();
    let ghost all = text::views(codes@);
    let mut out: String =
        "window.__tdInitErr=function(n,e){var m='[TD init] '+n+' error: '+(e&&e.message||e);if(window.__TAURI__&&window.__TAURI__.core&&window.__TAURI__.core.invoke){window.__TAURI__.core.invoke('js_log',{message:m}).catch(function(){})}console.error(m)};\n".to_owned();
    let mut i: usize = 0;
    assert(out@ =~= reporter() + guarded_scripts(script_names(), all.take(0)));
    while i < codes.len()
        invariant
            i <= codes.len(),
            all == text::views(codes@),
            codes@.len() == script_names().len(),
            labels@.len() == script_names().len(),
            forall|j: int| 0 <= j < labels@.len() ==> (#[trigger] labels@[j])@ == script_names()[j],
            out@ == reporter() + guarded_scripts(script_names(), all.take(i as int)),
        decreases codes.len() - i,
    {
        assert(all.take(i + 1).drop_last() =~= all.take(i as int));
        assert(all.take(i + 1).last() == codes@[i as int]@);
        push_guarded(&mut out, labels[i], codes[i].as_str());
        assert(out@ =~= reporter() + guarded_scripts(script_names(), all.take(i + 1)));
        i = i + 1;
    }
    assert(all.take(i as int) =~= all);
    out
}

/// A wiki is a folder if it is not the main one and its path does not end as
/// that of a web page.
pub open spec fn is_folder_wiki(wiki_path: Seq<char>, is_main_wiki: bool) -> bool {
    !is_main_wiki && !(".html"@.is_suffix_of(wiki_path)) && !(".htm"@.is_suffix_of(wiki_path))
}

/// The line that sets the language, where one is given.
pub open spec fn language_line(language: Option<Seq<char>>) -> Seq<char> {
    match language {
        Some(l) => "window.__TIDDLYDESKTOP_LANGUAGE__ = "@ + outside::json_quoted(l) + ";"@,
        None => Seq::empty(),
    }
}

/// The lines that say what window it is.
pub open spec fn window_lines(
    wiki_path: Seq<char>,
    window_label: Seq<char>,
    is_main_wiki: bool,
    language: Option<Seq<char>>,
) -> Seq<char> {
    "\n    window.__WIKI_PATH__ = "@ + outside::json_quoted(wiki_path)
        + ";\n    window.__WINDOW_LABEL__ = "@ + outside::json_quoted(window_label)
        + ";\n    window.__IS_MAIN_WIKI__ = "@ + (if is_main_wiki {
        "true"@
    } else {
        "false"@
    }) + ";\n    "@ + language_line(language) + "\n    "@
}

/// The lines that say how files are reached: a folder has them through the media
/// server everywhere, and a single file on Linux.
pub open spec fn access_lines(wiki_path: Seq<char>, is_main_wiki: bool, on_linux: bool) -> Seq<char> {
    if is_folder_wiki(wiki_path, is_main_wiki) {
        "window.__TD_FOLDER_WIKI__ = true;\n"@ + "window.__TD_MEDIA_SERVER__ = true;\n"@
    } else if on_linux {
        "window.__TD_MEDIA_SERVER__ = true;\n"@
    } else {
        Seq::empty()
    }
}

/// The line that hands over the style of the media controls, which the main wiki
/// does not need.
pub open spec fn style_line(css: Seq<char>, is_main_wiki: bool) -> Seq<char> {
    if is_main_wiki {
        Seq::empty()
    } else {
        "window.__MEDIA_CONTROLS_CSS__ = "@ + outside::json_quoted(css) + ";\n"@
    }
}

/// What is the same for all windows: the style of the media controls, and the
/// script made of all scripts.
pub struct ScriptParts {
    pub media_controls_css: String,
    pub dialog_script: String,
    pub on_linux: bool,
}

/// The script that a wiki window runs first.
pub open spec fn init_script(
    wiki_path: Seq<char>,
    window_label: Seq<char>,
    is_main_wiki: bool,
    language: Option<Seq<char>>,
    parts: ScriptParts,
) -> Seq<char> {
    window_lines(wiki_path, window_label, is_main_wiki, language) + access_lines(
        wiki_path,
        is_main_wiki,
        parts.on_linux,
    ) + style_line(parts.media_controls_css@, is_main_wiki) + parts.dialog_script@
}

/// The script that a wiki window runs first.
pub fn get_wiki_init_script(
    wiki_path: &str,
    window_label: &str,
    is_main_wiki: bool,
    parts: &ScriptParts,
) -> (r: String)
    ensures
        r@ == init_script(wiki_path@, window_label@, is_main_wiki, None, *parts),
{
    get_wiki_init_script_with_language(wiki_path, window_label, is_main_wiki, None, parts)
}

/// The script that a wiki window runs first, with a language where one is given.
/// What comes from outside stands in it as JSON strings.
pub fn get_wiki_init_script_with_language(
    wiki_path: &str,
    window_label: &str,
    is_main_wiki: bool,
    language: Option<&str>,
    parts: &ScriptParts,
) -> (r: String)
    ensures
        r@ == init_script(
            wiki_path@,
            window_label@,
            is_main_wiki,
            match language {
                Some(l) => Some(l@),
                None => None,
            },
            *parts,
        ),
{
    let path_json: String = outside::json_string(wiki_path);
    let label_json: String = outside::json_string(window_label);
    let mut out: String = "\n    window.__WIKI_PATH__ = ".to_owned();
    out.append(path_json.as_str());
    out.append(";\n    window.__WINDOW_LABEL__ = ");
    out.append(label_json.as_str());
    out.append(";\n    window.__IS_MAIN_WIKI__ = ");
    if is_main_wiki {
        out.append("true");
    } else {
        out.append("false");
    }
    out.append(";\n    ");
    if let Some(l) = language {
        let language_json: String = outside::json_string(l);
        let line: String = text::concat3(
            "window.__TIDDLYDESKTOP_LANGUAGE__ = ",
            language_json.as_str(),
            ";",
        );
        out.append(line.as_str());
    }
    out.append("\n    ");
    let ghost shown = match language {
        Some(l) => Some(l@),
        None => None,
    };
    assert(out@ =~= window_lines(wiki_path@, window_label@, is_main_wiki, shown));
    let ghost first = out@;
    let folder: bool = !is_main_wiki && !text::ends_with(wiki_path, ".html") && !text::ends_with(
        wiki_path,
        ".htm",
    );
    if folder {
        out.append("window.__TD_FOLDER_WIKI__ = true;\n");
        out.append("window.__TD_MEDIA_SERVER__ = true;\n");
    } else if parts.on_linux {
        out.append("window.__TD_MEDIA_SERVER__ = true;\n");
    }
    assert(out@ =~= first + access_lines(wiki_path@, is_main_wiki, parts.on_linux));
    let ghost second = out@;
    if !is_main_wiki {
        let css: String = outside::json_string(parts.media_controls_css.as_str());
        let line: String = text::concat3("window.__MEDIA_CONTROLS_CSS__ = ", css.as_str(), ";\n");
        out.append(line.as_str());
    }
    assert(out@ =~= second + style_line(parts.media_controls_css@, is_main_wiki));
    out.append(parts.dialog_script.as_str());
    out
}

/// The value of a hexadecimal digit.
pub open spec fn digit_value(c: char) -> Option<int> {
    if '0' <= c <= '9' {
        Some(c as int - 48)
    } else if 'a' <= c <= 'f' {
        Some(c as int - 87)
    } else if 'A' <= c <= 'F' {
        Some(c as int - 55)
    } else {
        None
    }
}

/// The character that an escape of four hexadecimal digits stands for, where it
/// is one below the surrogates.
pub open spec fn escaped_char(s: Seq<char>) -> Option<char> {
    match (digit_value(s[0]), digit_value(s[1]), digit_value(s[2]), digit_value(s[3])) {
        (Some(a), Some(b), Some(c), Some(d)) => {
            let n = 4096 * a + 256 * b + 16 * c + d;
            if n < 0xD800 {
                Some(n as char)
            } else {
                None
            }
        },
        _ => None,
    }
}

/// The character that stands behind a backslash in a string literal stands for
/// another.
pub open spec fn short_escape(c: char) -> Option<char> {
    if c == '"' || c == '\\' || c == '/' {
        Some(c)
    } else if c == 'b' {
        Some(8 as char)
    } else if c == 't' {
        Some('\t')
    } else if c == 'n' {
        Some('\n')
    } else if c == 'f' {
        Some(12 as char)
    } else if c == 'r' {
        Some('\r')
    } else {
        None
    }
}

/// The text that a string literal of a script stands for, read from behind its
/// opening quote to its closing one.
pub open spec fn literal_text(s: Seq<char>) -> Option<Seq<char>>
    decreases s.len(),
{
    if s.len() == 0 {
        None
    } else if s[0] == '"' {
        Some(Seq::empty())
    } else if s[0] != '\\' {
        match literal_text(s.skip(1)) {
            Some(t) => Some(seq![s[0]] + t),
            None => None,
        }
    } else if s.len() >= 2 && short_escape(s[1]) is Some {
        match literal_text(s.skip(2)) {
            Some(t) => Some(seq![short_escape(s[1])->0] + t),
            None => None,
        }
    } else if s.len() >= 6 && s[1] == 'u' && escaped_char(s.skip(2)) is Some {
        match literal_text(s.skip(6)) {
            Some(t) => Some(seq![escaped_char(s.skip(2))->0] + t),
            None => None,
        }
    } else {
        None
    }
}

proof fn lemma_char_value(c: char)
    ensures
        0 <= c as int,
        (c as int) as char == c,
{
}

proof fn lemma_hex_digit(n: int)
    requires
        0 <= n < 16,
    ensures
        digit_value(outside::hex_lower(n)) == Some(n),
{
    assert((n + 48) as char as int == n + 48);
    assert((n + 87) as char as int == n + 87);
}

/// A quoted text is read back from its literal, whatever stands behind that.
pub proof fn law_literals_are_read_back(s: Seq<char>, rest: Seq<char>)
    ensures
        literal_text(outside::json_chars(s) + seq!['"'] + rest) == Some(s),
    decreases s.len(),
{
    let all = outside::json_chars(s) + seq!['"'] + rest;
    if s.len() > 0 {
        let c = s[0];
        let tail = outside::json_chars(s.skip(1)) + seq!['"'] + rest;
        let head = outside::json_char(c);
        law_literals_are_read_back(s.skip(1), rest);
        assert(all =~= head + tail);
        assert(seq![c] + s.skip(1) =~= s);
        assert(all.skip(head.len() as int) =~= tail);
        assert(all[0] == head[0]);
        if head.len() >= 2 {
            assert(all[1] == head[1]);
        }
        if head.len() == 6 {
            let n = c as int;
            lemma_char_value(c);
            assert(n < 32) by {
                if n >= 32 {
                    assert(head.len() <= 2);
                }
            }
            assert(all[2] == head[2] && all[3] == head[3] && all[4] == head[4] && all[5] == head[5]);
            assert(n == 16 * (n / 16) + n % 16);
            let e = all.skip(2);
            assert(e[0] == '0' && e[1] == '0' && e[2] == head[4] && e[3] == head[5]);
            lemma_hex_digit(n / 16);
            lemma_hex_digit(n % 16);

        }
    } else {
        assert(all[0] == '"');
        assert(s =~= Seq::empty());
    }
}

proof fn lemma_regrouped(x: Seq<char>, a: Seq<char>, b: Seq<char>)
    ensures
        (x + a) + b == x + (a + b),
{
    assert((x + a) + b =~= x + (a + b));
}

pub(crate) proof fn lemma_literal_behind(front: Seq<char>, s: Seq<char>, rest: Seq<char>)
    ensures
        ({
            let all = (front + outside::json_quoted(s)) + rest;
            all[front.len() as int] == '"' && literal_text(all.skip(front.len() as int + 1)) == Some(s)
        }),
{
    let all = (front + outside::json_quoted(s)) + rest;
    assert(all.skip(front.len() as int + 1) =~= outside::json_chars(s) + seq!['"'] + rest);
    law_literals_are_read_back(s, rest);
}

/// The script hands over the wiki's path and the window's label as they are.
pub proof fn law_script_hands_over_its_arguments(
    wiki_path: Seq<char>,
    window_label: Seq<char>,
    is_main_wiki: bool,
    language: Option<Seq<char>>,
    parts: ScriptParts,
)
    ensures
        ({
            let script = init_script(wiki_path, window_label, is_main_wiki, language, parts);
            let path_at = "\n    window.__WIKI_PATH__ = "@.len() as int;
            let label_at = path_at + outside::json_quoted(wiki_path).len()
                + ";\n    window.__WINDOW_LABEL__ = "@.len();
            &&& "\n    window.__WIKI_PATH__ = "@.is_prefix_of(script)
            &&& script[path_at] == '"'
            &&& literal_text(script.skip(path_at + 1)) == Some(wiki_path)
            &&& script[label_at] == '"'
            &&& literal_text(script.skip(label_at + 1)) == Some(window_label)
        }),
{
    let script = init_script(wiki_path, window_label, is_main_wiki, language, parts);
    let p = "\n    window.__WIKI_PATH__ = "@;
    let a = outside::json_quoted(wiki_path);
    let l = ";\n    window.__WINDOW_LABEL__ = "@;
    let b = outside::json_quoted(window_label);
    let m = ";\n    window.__IS_MAIN_WIKI__ = "@;
    let f = if is_main_wiki {
        "true"@
    } else {
        "false"@
    };
    let n = ";\n    "@;
    let g = language_line(language);
    let o = "\n    "@;
    let access = access_lines(wiki_path, is_main_wiki, parts.on_linux);
    let style = style_line(parts.media_controls_css@, is_main_wiki);
    let x = p + a + l + b;
    lemma_regrouped(x, m, f);
    lemma_regrouped(x, m + f, n);
    lemma_regrouped(x, m + f + n, g);
    lemma_regrouped(x, m + f + n + g, o);
    lemma_regrouped(x, m + f + n + g + o, access);
    lemma_regrouped(x, m + f + n + g + o + access, style);
    lemma_regrouped(x, m + f + n + g + o + access + style, parts.dialog_script@);
    let rest = m + f + n + g + o + access + style + parts.dialog_script@;
    assert(script == x + rest);
    lemma_literal_behind(p + a + l, window_label, rest);
    lemma_regrouped(p + a, l, b);
    lemma_regrouped(p + a, l + b, rest);
    assert(script == (p + a) + ((l + b) + rest));
    lemma_literal_behind(p, wiki_path, (l + b) + rest);
    assert(script.subrange(0, p.len() as int) =~= p);
}

proof fn lemma_scripts_go_on(names: Seq<Seq<char>>, codes: Seq<Seq<char>>, n: int)
    requires
        0 <= n <= codes.len() <= names.len(),
    ensures
        exists|rest: Seq<char>|
            guarded_scripts(names, codes) == #[trigger] (guarded_scripts(names, codes.take(n)) + rest),
    decreases codes.len() - n,
{
    if n == codes.len() {
        assert(codes.take(n) =~= codes);
        let none = Seq::<char>::empty();
        assert(guarded_scripts(names, codes) =~= guarded_scripts(names, codes.take(n)) + none);
    } else {
        let front = codes.drop_last();
        lemma_scripts_go_on(names, front, n);
        assert(front.take(n) =~= codes.take(n));
        let rest = choose|rest: Seq<char>|
            guarded_scripts(names, front) == #[trigger] (guarded_scripts(names, front.take(n)) + rest);
        let all = rest + guarded(names[codes.len() - 1], codes.last());
        assert(guarded_scripts(names, codes) =~= guarded_scripts(names, codes.take(n)) + all);
    }
}

/// Every script runs, each in its own guard and under its own name, in their
/// order: behind the scripts before it stands a script, and then what follows it.
pub proof fn law_every_script_runs(names: Seq<Seq<char>>, codes: Seq<Seq<char>>, i: int)
    requires
        0 <= i < codes.len() <= names.len(),
    ensures
        exists|rest: Seq<char>|
            guarded_scripts(names, codes) == #[trigger] (guarded_scripts(names, codes.take(i)) + (
            "try{\n"@ + codes[i] + "\n}catch(_e){window.__tdInitErr('"@ + names[i] + "',_e)}\n"@)
                + rest),
{
    lemma_scripts_go_on(names, codes, i + 1);
    let rest = choose|rest: Seq<char>|
        guarded_scripts(names, codes) == #[trigger] (guarded_scripts(names, codes.take(i + 1)) + rest);
    let c = codes.take(i + 1);
    assert(c.drop_last() =~= codes.take(i));
    assert(c.last() == codes[i]);
    assert(guarded_scripts(names, c) =~= guarded_scripts(names, codes.take(i)) + guarded(
        names[i],
        codes[i],
    ));
    assert(guarded_scripts(names, codes) == guarded_scripts(names, codes.take(i)) + ("try{\n"@
        + codes[i] + "\n}catch(_e){window.__tdInitErr('"@ + names[i] + "',_e)}\n"@) + rest);
}

/// A wiki is a folder unless it is the main wiki or its path ends in the extension
/// of a web page.
pub proof fn law_pages_are_no_folders(stem: Seq<char>)
    ensures
        !is_folder_wiki(stem + ".html"@, false),
        !is_folder_wiki(stem + ".htm"@, false),
        !is_folder_wiki(stem, true),
        stem.len() > 0 && stem.last() != 'l' && stem.last() != 'm' ==> is_folder_wiki(stem, false),
{
    reveal_strlit(".html");
    reveal_strlit(".htm");
    let a = stem + ".html"@;
    let b = stem + ".htm"@;
    assert(a.subrange(a.len() - 5, a.len() as int) =~= ".html"@);
    assert(b.subrange(b.len() - 4, b.len() as int) =~= ".htm"@);
    if ".html"@.is_suffix_of(stem) {
        assert(stem.subrange(stem.len() - 5, stem.len() as int).last() == 'l');
    }
    if ".htm"@.is_suffix_of(stem) {
        assert(stem.subrange(stem.len() - 4, stem.len() as int).last() == 'm');
    }
}

} // verus!
