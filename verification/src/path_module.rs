//! The `path` module that scripts see: paths as strings with `/` between their
//! parts.

use vstd::prelude::*;
use crate::folder_wiki_server;
use crate::text;

verus! {

/// The path starts at a root: at `/`, or at a drive.
pub open spec fn is_absolute(path: Seq<char>) -> bool {
    "/"@.is_prefix_of(path) || (path.len() >= 2 && path[1] == ':')
}

/// Whether the path starts at a root.
pub fn path_is_absolute(path: &str) -> (r: bool)
    ensures
        r == is_absolute(path@),
{
    text::starts_with(path, "/") || (path.unicode_len() >= 2 && path.get_char(1) == ':')
}

/// The path with `/` for every separator.
pub fn normalize_separators(path: &str) -> (r: String)
    ensures
        r@ == text::char_replaced(path@, '\\', '/'),
{
    text::replace_char(path, '\\', '/')
}

// ---------------------------------------------------------------------------
// Joining
// ---------------------------------------------------------------------------

/// The path with another behind it: one that starts at a root stands for itself.
pub open spec fn followed(path: Seq<char>, next: Seq<char>) -> Seq<char> {
    if is_absolute(next) {
        next
    } else {
        folder_wiki_server::path_from(path, next)
    }
}

/// The paths one behind the other, from the given one on.
pub open spec fn chained(from: Seq<char>, args: Seq<Seq<char>>) -> Seq<char>
    decreases args.len(),
{
    if args.len() == 0 {
        from
    } else {
        followed(chained(from, args.drop_last()), args.last())
    }
}

fn chain(from: &str, args: &Vec<String>) -> (r: String)
    ensures
        r@ == chained(from@, text::views(args@)),
{
    let ghost all = text::views(args@);
    let mut out: String = from.to_owned();
    let mut i: usize = 0;
    assert(all.take(0) =~= Seq::empty());
    while i < args.len()
        invariant
            i <= args.len(),
            all == text::views(args@),
            out@ == chained(from@, all.take(i as int)),
        decreases args.len() - i,
    {
        assert(all.take(i + 1).drop_last() =~= all.take(i as int));
        assert(all.take(i + 1).last() == args@[i as int]@);
        let next: &str = args[i].as_str();
        out = if path_is_absolute(next) {
            next.to_owned()
        } else {
            folder_wiki_server::join_path(out.as_str(), next)
        };
        i = i + 1;
    }
    assert(all.take(i as int) =~= all);
    out
}

/// The paths joined to one.
pub fn path_join(args: &Vec<String>) -> (r: String)
    ensures
        r@ == text::char_replaced(chained(""@, text::views(args@)), '\\', '/'),
{
    let joined: String = chain("", args);
    normalize_separators(joined.as_str())
}

/// The paths joined to one, from the current directory on, or from the root
/// where there is none.
pub fn resolved_from(current_dir: Option<&str>, args: &Vec<String>) -> (r: String)
    ensures
        r@ == chained(
            match current_dir {
                Some(d) => d@,
                None => "/"@,
            },
            text::views(args@),
        ),
{
    match current_dir {
        Some(d) => chain(d, args),
        None => chain("/", args),
    }
}

/// The joined path as the file system resolves it, or as it is where that
/// fails.
pub fn path_resolve(joined: &str, canonical: Option<&str>) -> (r: String)
    ensures
        r@ == text::char_replaced(
            match canonical {
                Some(c) => c@,
                None => joined@,
            },
            '\\',
            '/',
        ),
{
    match canonical {
        Some(c) => normalize_separators(c),
        None => normalize_separators(joined),
    }
}

// ---------------------------------------------------------------------------
// The last part of a path
// ---------------------------------------------------------------------------

/// How much of the path stands before its parts: the root, or a `.` that stands
/// alone at the start.
pub open spec fn head_len(s: Seq<char>) -> int {
    if s.len() > 0 && (s[0] == '/' || (s[0] == '.' && (s.len() == 1 || s[1] == '/'))) {
        1
    } else {
        0
    }
}

/// Where the last part begins, if the parts begin at `head`.
pub open spec fn last_part_start(s: Seq<char>, head: int, end: int) -> int
    decreases end - head,
{
    if end <= head {
        head
    } else if s[end - 1] == '/' {
        end
    } else {
        last_part_start(s, head, end - 1)
    }
}

/// The last part, if the parts begin at `head`.
pub open spec fn last_part(s: Seq<char>, head: int) -> Seq<char> {
    s.skip(last_part_start(s, head, s.len() as int))
}

/// The path without its last part and without the separator before it.
pub open spec fn without_last(s: Seq<char>, head: int) -> Seq<char> {
    let i = last_part_start(s, head, s.len() as int);
    if i > head {
        s.take(i - 1)
    } else {
        s.take(i)
    }
}

/// The path without parts at its end that say nothing: empty ones, and `.`.
pub open spec fn tidy_end(s: Seq<char>, head: int) -> Seq<char>
    decreases s.len(),
{
    if s.len() <= head || head < 0 {
        s
    } else if last_part(s, head).len() == 0 || last_part(s, head) == "."@ {
        if without_last(s, head).len() < s.len() {
            tidy_end(without_last(s, head), head)
        } else {
            s
        }
    } else {
        s
    }
}

/// What the path ends in.
pub ghost enum PathEnd {
    /// Nothing: there is no path.
    Nothing,
    Root,
    /// A `.` alone.
    Here,
    /// A part: the path up to it, and the part.
    Part(Seq<char>, Seq<char>),
}

/// What the path ends in.
pub open spec fn path_end(s: Seq<char>) -> PathEnd {
    let head = head_len(s);
    let t = tidy_end(s, head);
    if t.len() > head {
        PathEnd::Part(tidy_end(without_last(t, head), head), last_part(t, head))
    } else if head == 0 {
        PathEnd::Nothing
    } else if s[0] == '/' {
        PathEnd::Root
    } else {
        PathEnd::Here
    }
}

/// The path without its last part; none for the root and for no path.
pub open spec fn parent(s: Seq<char>) -> Option<Seq<char>> {
    match path_end(s) {
        PathEnd::Part(p, _) => Some(p),
        PathEnd::Here => Some(Seq::empty()),
        _ => None,
    }
}

/// The name of the file that the path leads to.
pub open spec fn file_name(s: Seq<char>) -> Option<Seq<char>> {
    match path_end(s) {
        PathEnd::Part(_, n) => if n == ".."@ {
            None
        } else {
            Some(n)
        },
        _ => None,
    }
}

/// What follows the last dot of a file's name, unless the name begins with it.
pub open spec fn extension(s: Seq<char>) -> Option<Seq<char>> {
    match file_name(s) {
        Some(n) => match text::last_index_of(n, '.') {
            Some(i) => if i > 0 {
                Some(n.skip(i + 1))
            } else {
                None
            },
            None => None,
        },
        None => None,
    }
}

/// The directory that the path's last part is in.
pub open spec fn dirname(path: Seq<char>) -> Seq<char> {
    match parent(path) {
        Some(p) => text::char_replaced(p, '\\', '/'),
        None => "."@,
    }
}

/// The last part of the path.
pub open spec fn basename(path: Seq<char>) -> Seq<char> {
    match file_name(path) {
        Some(n) => n,
        None => ""@,
    }
}

/// The extension of the path's last part, with its dot.
pub open spec fn extname(path: Seq<char>) -> Seq<char> {
    match extension(path) {
        Some(e) => "."@ + e,
        None => ""@,
    }
}

/// The string without the ending, where it has it.
pub open spec fn without_ending(s: Seq<char>, ending: Seq<char>) -> Seq<char> {
    if ending.is_suffix_of(s) {
        s.take(s.len() - ending.len())
    } else {
        s
    }
}

fn find_last_part(v: &[char], head: usize, end: usize) -> (r: usize)
    requires
        head <= end <= v@.len(),
    ensures
        r == last_part_start(v@.take(end as int), head as int, end as int),
        head <= r <= end,
{
    let ghost s = v@.take(end as int);
    let mut i: usize = end;
    while i > head
        invariant
            head <= i <= end <= v@.len(),
            s == v@.take(end as int),
            last_part_start(s, head as int, end as int) == last_part_start(s, head as int, i as int),
        decreases i,
    {
        if v[i - 1] == '/' {
            return i;
        }
        i = i - 1;
    }
    i
}

fn tidied_len(v: &[char], head: usize, from: usize) -> (r: usize)
    requires
        head <= 1,
        from <= v@.len(),
    ensures
        v@.take(r as int) == tidy_end(v@.take(from as int), head as int),
        r <= from,
        head <= from ==> head <= r,
{
    let ghost all = v@.take(from as int);
    let mut end: usize = from;
    while end > head
        invariant
            head <= 1,
            end <= from <= v@.len(),
            head <= from ==> head <= end,
            all == v@.take(from as int),
            tidy_end(all, head as int) == tidy_end(v@.take(end as int), head as int),
        decreases end,
    {
        let ghost s = v@.take(end as int);
        let i: usize = find_last_part(v, head, end);
        let idle: bool = i == end || (end - i == 1 && v[i] == '.');
        proof {
            reveal_strlit(".");
            let part = last_part(s, head as int);
            assert(part =~= s.skip(i as int));
            if idle && i < end {
                assert(part =~= "."@);
            }
            if part == "."@ {
                assert(part.len() == 1);
                assert(part[0] == v@[i as int]);
            }
        }
        if !idle {
            return end;
        }
        let cut: usize = if i > head {
            i - 1
        } else {
            i
        };
        assert(without_last(s, head as int) =~= v@.take(cut as int));
        if cut == end {
            return end;
        }
        end = cut;
    }
    end
}

/// What a path ends in.
enum End {
    Nothing,
    Root,
    Here,
    /// The path up to the last part, by its length, and the part, by where it
    /// begins and ends.
    Part { before: usize, start: usize, end: usize },
}

fn end_of(v: &[char]) -> (r: End)
    ensures
        match r {
            End::Nothing => path_end(v@) == PathEnd::Nothing,
            End::Root => path_end(v@) == PathEnd::Root,
            End::Here => path_end(v@) == PathEnd::Here,
            End::Part { before, start, end } => {
                &&& before <= v@.len()
                &&& start <= end <= v@.len()
                &&& path_end(v@) == PathEnd::Part(
                    v@.take(before as int),
                    v@.subrange(start as int, end as int),
                )
                &&& tidy_end(v@, head_len(v@)) == v@.take(end as int)
            },
        },
{
    let n: usize = v.len();
    let head: usize = if n > 0 && (v[0] == '/' || (v[0] == '.' && (n == 1 || v[1] == '/'))) {
        1
    } else {
        0
    };
    assert(head == head_len(v@));
    assert(v@.take(n as int) =~= v@);
    let end: usize = tidied_len(v, head, n);
    let ghost t = v@.take(end as int);
    if end > head {
        let start: usize = find_last_part(v, head, end);
        let cut: usize = if start > head {
            start - 1
        } else {
            start
        };
        assert(without_last(t, head as int) =~= v@.take(cut as int));
        let before: usize = tidied_len(v, head, cut);
        assert(last_part(t, head as int) =~= v@.subrange(start as int, end as int));
        End::Part { before, start, end }
    } else if head == 0 {
        End::Nothing
    } else if v[0] == '/' {
        End::Root
    } else {
        End::Here
    }
}

fn name_of(v: &[char]) -> (r: Option<String>)
    ensures
        text::opt_view(r) == file_name(v@),
{
    match end_of(v) {
        End::Part { before: _, start, end } => {
            let n: String = text::string_of_range(v, start, end);
            if text::same(n.as_str(), "..") {
                None
            } else {
                Some(n)
            }
        },
        _ => None,
    }
}

/// The directory that the path's last part is in.
pub fn path_dirname(path: &str) -> (r: String)
    ensures
        r@ == dirname(path@),
{
    let v: Vec<char> = text::chars_of(path);
    match end_of(v.as_slice()) {
        End::Part { before, start: _, end: _ } => {
            let p: String = text::string_of_range(v.as_slice(), 0, before);
            assert(p@ =~= v@.take(before as int));
            normalize_separators(p.as_str())
        },
        End::Here => {
            let r: String = String::new();
            assert(r@ =~= text::char_replaced(Seq::empty(), '\\', '/'));
            r
        },
        _ => ".".to_owned(),
    }
}

/// The last part of the path, without the ending where one is given and the
/// part has it.
pub fn path_basename(path: &str, ext: Option<&str>) -> (r: String)
    ensures
        r@ == match ext {
            Some(e) => without_ending(basename(path@), e@),
            None => basename(path@),
        },
{
    let v: Vec<char> = text::chars_of(path);
    let name: String = match name_of(v.as_slice()) {
        Some(n) => n,
        None => "".to_owned(),
    };
    if let Some(e) = ext {
        if let Some(s) = text::strip_suffix(name.as_str(), e) {
            return s.to_owned();
        }
    }
    name
}

/// The extension of the path's last part, with its dot.
pub fn path_extname(path: &str) -> (r: String)
    ensures
        r@ == extname(path@),
{
    let v: Vec<char> = text::chars_of(path);
    if let Some(n) = name_of(v.as_slice()) {
        if let Some(i) = text::rfind_char(n.as_str(), '.') {
            if i > 0 {
                return text::concat(".", text::skip(n.as_str(), i + 1));
            }
        }
    }
    "".to_owned()
}

/// The path with another extension for its file; as it is, where it leads to no
/// file.
pub open spec fn with_other_extension(s: Seq<char>, ext: Seq<char>) -> Seq<char> {
    match file_name(s) {
        Some(n) => {
            let t = tidy_end(s, head_len(s));
            let stem = match text::last_index_of(n, '.') {
                Some(i) => if i > 0 {
                    n.take(i)
                } else {
                    n
                },
                None => n,
            };
            t.take(t.len() - n.len()) + stem + "."@ + ext
        },
        None => s,
    }
}

proof fn lemma_last_part_start(s: Seq<char>, head: int, end: int)
    requires
        head <= end,
    ensures
        head <= last_part_start(s, head, end) <= end,
    decreases end - head,
{
    if end > head && s[end - 1] != '/' {
        lemma_last_part_start(s, head, end - 1);
    }
}

proof fn lemma_tidy_end_is_prefix(s: Seq<char>, head: int)
    ensures
        tidy_end(s, head).len() <= s.len(),
    decreases s.len(),
{
    if !(s.len() <= head || head < 0) && without_last(s, head).len() < s.len() {
        lemma_tidy_end_is_prefix(without_last(s, head), head);
    }
}

/// A path with another extension is no longer than the path, the dot and the
/// extension.
pub proof fn lemma_other_extension_len(s: Seq<char>, ext: Seq<char>)
    ensures
        with_other_extension(s, ext) == s || 1 + ext.len() <= with_other_extension(s, ext).len()
            <= s.len() + 1 + ext.len(),
{
    reveal_strlit(".");
    lemma_tidy_end_is_prefix(s, head_len(s));
    if let Some(n) = file_name(s) {
        let t = tidy_end(s, head_len(s));
        lemma_last_part_start(t, head_len(s), t.len() as int);
        text::lemma_last_index_of(n, '.');
    }
}

/// The path with another extension for its file; as it is, where it leads to no
/// file.
pub fn with_extension(path: &str, ext: &str) -> (r: String)
    requires
        ext@.len() > 0,
    ensures
        r@ == with_other_extension(path@, ext@),
{
    let v: Vec<char> = text::chars_of(path);
    match end_of(v.as_slice()) {
        End::Part { before: _, start, end } => {
            let name: String = text::string_of_range(v.as_slice(), start, end);
            if text::same(name.as_str(), "..") {
                return path.to_owned();
            }
            let front: String = text::string_of_range(v.as_slice(), 0, start);
            proof {
                let t = tidy_end(v@, head_len(v@));
                assert(front@ =~= t.take(t.len() - name@.len()));
            }
            let stem: &str = match text::rfind_char(name.as_str(), '.') {
                Some(i) => if i > 0 {
                    text::take(name.as_str(), i)
                } else {
                    name.as_str()
                },
                None => name.as_str(),
            };
            let mut out: String = text::concat3(front.as_str(), stem, ".");
            out.append(ext);
            out
        },
        _ => path.to_owned(),
    }
}

/// The parts of a path, as scripts see them.
pub struct ParsedPath {
    pub root: String,
    pub dir: String,
    pub base: String,
    pub ext: String,
    pub name: String,
}

/// The path starts at a drive and a backslash.
pub open spec fn has_drive(path: Seq<char>) -> bool {
    path.len() >= 3 && path[1] == ':' && path[2] == '\\' && !("/"@.is_prefix_of(path))
}

/// The root of a path: `/`, or three bytes with a drive.
pub open spec fn root_of(path: Seq<char>) -> Seq<char> {
    if "/"@.is_prefix_of(path) {
        "/"@
    } else if has_drive(path) {
        vstd::utf8::decode_utf8(vstd::utf8::encode_utf8(path).take(3))
    } else {
        ""@
    }
}

/// The first three bytes of a path with a drive end at the end of a character.
pub open spec fn can_parse(path: Seq<char>) -> bool {
    has_drive(path) ==> vstd::utf8::is_char_boundary(vstd::utf8::encode_utf8(path), 3)
}

fn starts_at_drive(path: &str) -> (r: bool)
    ensures
        r == has_drive(path@),
{
    path.unicode_len() >= 3 && path.get_char(1) == ':' && path.get_char(2) == '\\'
        && !text::starts_with(path, "/")
}

/// Whether the path can be taken apart.
pub fn path_can_be_parsed(path: &str) -> (r: bool)
    ensures
        r == can_parse(path@),
{
    !starts_at_drive(path) || path.is_char_boundary(3)
}

/// The parts of a path.
pub fn path_parse(path: &str) -> (r: ParsedPath)
    requires
        can_parse(path@),
    ensures
        r.root@ == root_of(path@),
        r.dir@ == dirname(path@),
        r.base@ == basename(path@),
        r.ext@ == extname(path@),
        r.name@ == if extname(path@).len() > 0 {
            without_ending(basename(path@), extname(path@))
        } else {
            basename(path@)
        },
{
    let root: String = if text::starts_with(path, "/") {
        "/".to_owned()
    } else if starts_at_drive(path) {
        let parts: (&str, &str) = path.split_at(3);
        proof {
            let b = vstd::utf8::encode_utf8(path@);
            vstd::utf8::encode_utf8_decode_utf8(parts.0@);
            assert(b.take(3) =~= b.subrange(0, 3));
        }
        parts.0.to_owned()
    } else {
        "".to_owned()
    };
    let dir: String = path_dirname(path);
    let base: String = path_basename(path, None);
    let ext: String = path_extname(path);
    let mut name: String = base.clone();
    if !ext.as_str().is_empty() {
        if let Some(s) = text::strip_suffix(base.as_str(), ext.as_str()) {
            name = s.to_owned();
        }
    }
    ParsedPath { root, dir, base, ext, name }
}

/// A file's name is what its parsed name and extension make up.
pub proof fn law_base_is_name_and_extension(path: Seq<char>)
    requires
        extname(path).len() > 0,
    ensures
        extname(path).is_suffix_of(basename(path)),
        without_ending(basename(path), extname(path)) + extname(path) == basename(path),
{
    reveal_strlit(".");
    reveal_strlit("");
    let n = basename(path);
    text::lemma_last_index_of(n, '.');
    let i = text::last_index_of(n, '.')->0;
    let e = extname(path);
    assert(e =~= n.skip(i));
    assert(n.subrange(n.len() - e.len(), n.len() as int) =~= e);
    assert(without_ending(n, e) + e =~= n);
}

// ---------------------------------------------------------------------------
// Normalizing
// ---------------------------------------------------------------------------

/// The parts of a path, split at either separator.
pub open spec fn parts_of(path: Seq<char>) -> Seq<Seq<char>> {
    text::split_of(text::char_replaced(path, '\\', '/'), '/')
}

/// The parts that are left after one more: one that says nothing is dropped, and
/// `..` takes the part before it away, or stays where there is none and the path
/// does not start at a root.
pub open spec fn stepped(parts: Seq<Seq<char>>, next: Seq<char>, absolute: bool) -> Seq<Seq<char>> {
    if next.len() == 0 || next == "."@ {
        parts
    } else if next == ".."@ {
        if parts.len() > 0 && parts.last() != ".."@ {
            parts.drop_last()
        } else if !absolute {
            parts.push(next)
        } else {
            parts
        }
    } else {
        parts.push(next)
    }
}

/// The parts that are left of all.
pub open spec fn walked(parts: Seq<Seq<char>>, absolute: bool) -> Seq<Seq<char>>
    decreases parts.len(),
{
    if parts.len() == 0 {
        Seq::empty()
    } else {
        stepped(walked(parts.drop_last(), absolute), parts.last(), absolute)
    }
}

/// The path written from the parts that are left of it.
pub open spec fn written(parts: Seq<Seq<char>>, path: Seq<char>) -> Seq<char> {
    let body = text::joined(parts, "/"@);
    if "/"@.is_prefix_of(path) {
        "/"@ + body
    } else if is_absolute(path) || body.len() > 0 {
        body
    } else {
        "."@
    }
}

/// The path without parts that say nothing, and with `..` resolved as far as it
/// can be.
pub open spec fn normalized(path: Seq<char>) -> Seq<char> {
    written(walked(parts_of(path), is_absolute(path)), path)
}

/// The path without parts that say nothing, and with `..` resolved as far as it
/// can be.
pub fn path_normalize(path: &str) -> (r: String)
    ensures
        r@ == normalized(path@),
{
    let absolute: bool = path_is_absolute(path);
    let slashed: String = normalize_separators(path);
    let parts: Vec<String> = text::split_char(slashed.as_str(), '/');
    let ghost all = text::views(parts@);
    let mut out: Vec<String> = Vec::new();
    let mut i: usize = 0;
    assert(text::views(out@) =~= walked(all.take(0), absolute));
    while i < parts.len()
        invariant
            i <= parts.len(),
            all == text::views(parts@),
            text::views(out@) == walked(all.take(i as int), absolute),
        decreases parts.len() - i,
    {
        let next: &str = parts[i].as_str();
        let ghost before = out@;
        assert(all.take(i + 1).drop_last() =~= all.take(i as int));
        assert(all.take(i + 1).last() == next@);
        if next.is_empty() || text::same(next, ".") {
        } else if text::same(next, "..") {
            let n: usize = out.len();
            assert(text::views(before).len() == n);
            if n > 0 && !text::same(out[n - 1].as_str(), "..") {
                out.truncate(n - 1);
                assert(text::views(out@) =~= text::views(before).drop_last());
            } else if !absolute {
                out.push(next.to_owned());
                assert(text::views(out@) =~= text::views(before).push(next@));
            }
        } else {
            out.push(next.to_owned());
            assert(text::views(out@) =~= text::views(before).push(next@));
        }
        i = i + 1;
    }
    assert(all.take(i as int) =~= all);
    let body: String = text::join(&out, "/");
    if absolute {
        if text::starts_with(path, "/") {
            text::concat("/", body.as_str())
        } else {
            body
        }
    } else if body.as_str().is_empty() {
        ".".to_owned()
    } else {
        body
    }
}

/// A part that can be left of a path: it says something, and holds no separator.
pub open spec fn is_solid(part: Seq<char>) -> bool {
    &&& part.len() > 0
    &&& part != "."@
    &&& forall|i: int| 0 <= i < part.len() ==> #[trigger] part[i] != '/' && part[i] != '\\'
}

/// The parts are all solid, and `..` stands only at the start, and not at all
/// where the path starts at a root.
pub open spec fn is_settled(parts: Seq<Seq<char>>, absolute: bool) -> bool {
    &&& forall|i: int| 0 <= i < parts.len() ==> is_solid(#[trigger] parts[i])
    &&& forall|i: int, j: int|
        0 <= i < j < parts.len() && #[trigger] parts[j] == ".."@ ==> #[trigger] parts[i] == ".."@
    &&& absolute ==> forall|i: int| 0 <= i < parts.len() ==> #[trigger] parts[i] != ".."@
}

proof fn lemma_split_parts(s: Seq<char>, c: char)
    ensures
        forall|i: int, j: int|
            0 <= i < text::split_of(s, c).len() && 0 <= j < text::split_of(s, c)[i].len() ==> {
                &&& (#[trigger] text::split_of(s, c)[i][j]) != c
                &&& s.contains(text::split_of(s, c)[i][j])
            },
    decreases s.len(),
{
    text::lemma_index_of(s, c, 0);
    let all = text::split_of(s, c);
    match text::index_of(s, c, 0) {
        Some(k) => {
            let rest = s.skip(k + 1);
            lemma_split_parts(rest, c);
            let tail = text::split_of(rest, c);
            assert(all == seq![s.take(k)] + tail);
            assert forall|i: int, j: int| 0 <= i < all.len() && 0 <= j < all[i].len() implies {
                &&& (#[trigger] all[i][j]) != c
                &&& s.contains(all[i][j])
            } by {
                if i == 0 {
                    assert(all[i] == s.take(k));
                    assert(all[i][j] == s[j]);
                } else {
                    assert(all[i] == tail[i - 1]);
                    let x = tail[i - 1][j];
                    assert(rest.contains(x));
                    let m = choose|m: int| 0 <= m < rest.len() && rest[m] == x;
                    assert(s[m + k + 1] == x);
                }
            }
        },
        None => {
            assert(all == seq![s]);
            assert forall|i: int, j: int| 0 <= i < all.len() && 0 <= j < all[i].len() implies {
                &&& (#[trigger] all[i][j]) != c
                &&& s.contains(all[i][j])
            } by {
                assert(all[i][j] == s[j]);
            }
        },
    }
}

proof fn lemma_walked_settled(parts: Seq<Seq<char>>, absolute: bool)
    requires
        forall|i: int, j: int|
            0 <= i < parts.len() && 0 <= j < parts[i].len() ==> (#[trigger] parts[i][j]) != '/'
                && parts[i][j] != '\\',
    ensures
        is_settled(walked(parts, absolute), absolute),
    decreases parts.len(),
{
    if parts.len() > 0 {
        let short = parts.drop_last();
        assert forall|i: int, j: int| 0 <= i < short.len() && 0 <= j < short[i].len() implies (
        #[trigger] short[i][j]) != '/' && short[i][j] != '\\' by {
            assert(short[i] == parts[i]);
            assert(parts[i][j] != '/');
        }
        lemma_walked_settled(short, absolute);
        let before = walked(short, absolute);
        let next = parts.last();
        let after = walked(parts, absolute);
        let n = parts.len() - 1;
        assert(next == parts[n]);
        if next.len() > 0 && next != "."@ {
            assert forall|i: int| 0 <= i < next.len() implies #[trigger] next[i] != '/' && next[i]
                != '\\' by {
                assert(parts[n][i] != '/');
            }
            assert(is_solid(next));
            if next == ".."@ && before.len() > 0 && before.last() != ".."@ {
                assert(after == before.drop_last());
            } else if next == ".."@ && !absolute {
                assert(after == before.push(next));
                if before.len() > 0 {
                    let m = before.len() - 1;
                    assert(before[m] == ".."@);
                    assert forall|i: int| 0 <= i < before.len() implies #[trigger] before[i]
                        == ".."@ by {
                        if i < m {
                            assert(before[m] == ".."@);
                        }
                    }
                }
            } else if next != ".."@ {
                assert(after == before.push(next));
            }
        }
    }
}

proof fn lemma_walk_of_settled(parts: Seq<Seq<char>>, absolute: bool)
    requires
        is_settled(parts, absolute),
    ensures
        walked(parts, absolute) == parts,
    decreases parts.len(),
{
    if parts.len() == 0 {
        assert(walked(parts, absolute) =~= parts);
    } else {
        let short = parts.drop_last();
        assert forall|i: int| 0 <= i < short.len() implies is_solid(#[trigger] short[i]) by {
            assert(short[i] == parts[i]);
        }
        assert forall|i: int, j: int|
            0 <= i < j < short.len() && #[trigger] short[j] == ".."@ implies #[trigger] short[i]
            == ".."@ by {
            assert(short[i] == parts[i] && short[j] == parts[j]);
        }
        assert forall|i: int| absolute && 0 <= i < short.len() implies #[trigger] short[i] != ".."@ by {
            assert(short[i] == parts[i]);
        }
        lemma_walk_of_settled(short, absolute);
        let n = parts.len() - 1;
        let next = parts.last();
        assert(next == parts[n]);
        assert(is_solid(parts[n]));
        if next == ".."@ && short.len() > 0 {
            assert(parts[n - 1] == ".."@);
            assert(short.last() == parts[n - 1]);
        }
        assert(short.push(next) =~= parts);
    }
}

proof fn lemma_index_in_front(a: Seq<char>, b: Seq<char>, c: char, from: int)
    requires
        0 <= from <= a.len(),
        forall|i: int| 0 <= i < a.len() ==> #[trigger] a[i] != c,
        b.len() > 0,
        b[0] == c,
    ensures
        text::index_of(a + b, c, from) == Some(a.len() as int),
    decreases a.len() - from,
{
    let s = a + b;
    if from < a.len() {
        assert(s[from] == a[from]);
        lemma_index_in_front(a, b, c, from + 1);
    } else {
        assert(s[from] == b[0]);
    }
}

proof fn lemma_split_of_joined(parts: Seq<Seq<char>>)
    requires
        parts.len() > 0,
        forall|i: int| 0 <= i < parts.len() ==> is_solid(#[trigger] parts[i]),
    ensures
        text::split_of(text::joined(parts, "/"@), '/') == parts,
        forall|i: int|
            0 <= i < text::joined(parts, "/"@).len() ==> #[trigger] text::joined(
                parts,
                "/"@,
            )[i] != '\\',
        text::joined(parts, "/"@).len() >= parts[0].len(),
        text::joined(parts, "/"@).take(parts[0].len() as int) == parts[0],
    decreases parts.len(),
{
    reveal_strlit("/");
    let s = text::joined(parts, "/"@);
    let first = parts[0];
    assert(is_solid(first));
    if parts.len() == 1 {
        assert(s == first);
        text::lemma_index_of(s, '/', 0);
        match text::index_of(s, '/', 0) {
            Some(i) => {
                assert(first[i] != '/');
            },
            None => {},
        }
        assert(text::split_of(s, '/') =~= parts);
        assert(s.take(first.len() as int) =~= first);
        assert forall|i: int| 0 <= i < s.len() implies #[trigger] s[i] != '\\' by {
            assert(first[i] != '/');
        }
    } else {
        let rest = parts.skip(1);
        assert forall|i: int| 0 <= i < rest.len() implies is_solid(#[trigger] rest[i]) by {
            assert(rest[i] == parts[i + 1]);
        }
        lemma_split_of_joined(rest);
        let tail = text::joined(rest, "/"@);
        let b = "/"@ + tail;
        assert(s =~= first + b);
        assert(b[0] == '/');
        lemma_index_in_front(first, b, '/', 0);
        assert(s.take(first.len() as int) =~= first);
        assert(s.skip(first.len() as int + 1) =~= tail);
        assert(text::split_of(s, '/') =~= seq![first] + rest);
        assert(seq![first] + rest =~= parts);
        assert forall|i: int| 0 <= i < s.len() implies #[trigger] s[i] != '\\' by {
            if i < first.len() {
                assert(first[i] != '/');
            } else if i > first.len() {
                assert(s[i] == tail[i - first.len() - 1]);
            }
        }
    }
}

proof fn lemma_walk_skips_front(parts: Seq<Seq<char>>, absolute: bool)
    ensures
        walked(seq![Seq::<char>::empty()] + parts, absolute) == walked(parts, absolute),
    decreases parts.len(),
{
    let all = seq![Seq::<char>::empty()] + parts;
    if parts.len() == 0 {
        assert(all.drop_last() =~= Seq::empty());
        assert(walked(all.drop_last(), absolute) =~= Seq::empty());
        assert(walked(all, absolute) =~= walked(parts, absolute));
    } else {
        assert(all.drop_last() =~= seq![Seq::<char>::empty()] + parts.drop_last());
        assert(all.last() == parts.last());
        lemma_walk_skips_front(parts.drop_last(), absolute);
    }
}

/// A normalized path is written from parts of which none is empty, is `.`, or
/// holds a separator; `..` stands only in front, and nowhere in a path that
/// starts at a root.
pub proof fn law_normalized_parts_are_settled(path: Seq<char>)
    ensures
        ({
            let parts = walked(parts_of(path), is_absolute(path));
            normalized(path) == written(parts, path) && is_settled(parts, is_absolute(path))
        }),
{
    let slashed = text::char_replaced(path, '\\', '/');
    let parts = parts_of(path);
    lemma_split_parts(slashed, '/');
    assert forall|i: int, j: int| 0 <= i < parts.len() && 0 <= j < parts[i].len() implies (
    #[trigger] parts[i][j]) != '/' && parts[i][j] != '\\' by {
        let x = parts[i][j];
        assert(slashed.contains(x));
        let m = choose|m: int| 0 <= m < slashed.len() && slashed[m] == x;
        assert(slashed[m] != '\\');
    }
    lemma_walked_settled(parts, is_absolute(path));
}

/// A path that was normalized is left as it is by normalizing it once more. It
/// may not be one that starts at a drive and comes to nothing.
pub proof fn law_normalizing_twice_is_once(path: Seq<char>)
    requires
        normalized(path).len() > 0,
    ensures
        normalized(normalized(path)) == normalized(path),
{
    reveal_strlit("/");
    reveal_strlit(".");
    reveal_strlit("..");
    let parts = walked(parts_of(path), is_absolute(path));
    let body = text::joined(parts, "/"@);
    let n = normalized(path);
    law_normalized_parts_are_settled(path);
    if parts.len() == 0 {
        assert(body =~= Seq::empty());
        assert(n =~= "/"@ || n =~= "."@);
        let slashed = text::char_replaced(n, '\\', '/');
        assert(slashed =~= n);
        if n == "/"@ {
            let e = Seq::<char>::empty();
            text::lemma_index_of(n, '/', 0);
            assert(n[0] == '/');
            assert(n.skip(1) =~= e);
            assert(n.take(0) =~= e);
            text::lemma_index_of(e, '/', 0);
            assert(text::split_of(e, '/') =~= seq![e]);
            assert(text::split_of(n, '/') =~= seq![e] + seq![e]);
            lemma_walk_skips_front(seq![e], is_absolute(n));
            assert(seq![e].drop_last() =~= Seq::empty());
            assert(walked(seq![e].drop_last(), is_absolute(n)) =~= Seq::empty());
            assert(walked(parts_of(n), is_absolute(n)) =~= Seq::empty());
            assert(normalized(n) =~= n);
        } else {
            text::lemma_index_of(n, '/', 0);
            assert(text::index_of(n, '/', 0) is None);
            assert(text::split_of(n, '/') =~= seq![n]);
            assert(seq![n].drop_last() =~= Seq::empty());
            assert(walked(seq![n].drop_last(), is_absolute(n)) =~= Seq::empty());
            assert(walked(parts_of(n), is_absolute(n)) =~= Seq::empty());
            assert(normalized(n) =~= n);
        }
    } else {
        lemma_split_of_joined(parts);
        let first = parts[0];
        assert(is_solid(first));
        assert(body[0] == first[0]) by {
            assert(body.take(first.len() as int)[0] == body[0]);
        }
        assert(first[0] != '/');
        if "/"@.is_prefix_of(path) {
            assert(n =~= "/"@ + body);
            let slashed = text::char_replaced(n, '\\', '/');
            assert(slashed =~= n);
            let e = Seq::<char>::empty();
            assert(n[0] == '/');
            assert(n.take(0) =~= e);
            assert(n.skip(1) =~= body);
            assert(text::index_of(n, '/', 0) == Some(0int));
            assert(text::split_of(n, '/') =~= seq![e] + parts);
            lemma_walk_skips_front(parts, true);
            lemma_walk_of_settled(parts, true);
            assert("/"@ =~= n.subrange(0, 1));
            assert(is_absolute(n));
        } else {
            assert(n == body);
            let slashed = text::char_replaced(n, '\\', '/');
            assert(slashed =~= n);
            assert(parts_of(n) == parts);
            assert(!("/"@.is_prefix_of(n))) by {
                if "/"@.is_prefix_of(n) {
                    assert(n.subrange(0, 1)[0] == '/');
                }
            }
            if is_absolute(n) {
                // The second character is a colon, so the first part is not `..`,
                // and then none is.
                assert(first != ".."@) by {
                    if first == ".."@ {
                        assert(body.take(2)[1] == body[1]);
                    }
                }
                assert forall|i: int| 0 <= i < parts.len() implies #[trigger] parts[i] != ".."@ by {
                    if parts[i] == ".."@ && i > 0 {
                        assert(parts[0] == ".."@);
                    }
                }
            }
            assert(is_settled(parts, is_absolute(n)));
            lemma_walk_of_settled(parts, is_absolute(n));
        }
    }
}

/// A path that starts at `/` leads nowhere above it once it was normalized: no
/// part of it is `..`.
pub proof fn law_rooted_path_stays_below(path: Seq<char>)
    requires
        "/"@.is_prefix_of(path),
    ensures
        forall|i: int|
            0 <= i < walked(parts_of(path), true).len() ==> #[trigger] walked(
                parts_of(path),
                true,
            )[i] != ".."@,
        normalized(path) == "/"@ + text::joined(walked(parts_of(path), true), "/"@),
{
    law_normalized_parts_are_settled(path);
}

// ---------------------------------------------------------------------------
// What a path keeps
// ---------------------------------------------------------------------------

/// A path from the root whose parts all say something stays as it is: no part of
/// it is lost, added or moved.
pub proof fn law_plain_paths_are_normal(parts: Seq<Seq<char>>)
    requires
        parts.len() > 0,
        is_settled(parts, true),
    ensures
        normalized("/"@ + text::joined(parts, "/"@)) == "/"@ + text::joined(parts, "/"@),
{
    reveal_strlit("/");
    let body = text::joined(parts, "/"@);
    let n = "/"@ + body;
    lemma_split_of_joined(parts);
    let slashed = text::char_replaced(n, '\\', '/');
    assert forall|i: int| 0 <= i < n.len() implies slashed[i] == n[i] by {
        if i > 0 {
            assert(n[i] == body[i - 1]);
        }
    }
    assert(slashed =~= n);
    let e = Seq::<char>::empty();
    assert(n[0] == '/');
    assert(n.take(0) =~= e);
    assert(n.skip(1) =~= body);
    assert(text::index_of(n, '/', 0) == Some(0int));
    assert(text::split_of(n, '/') =~= seq![e] + parts);
    lemma_walk_skips_front(parts, true);
    lemma_walk_of_settled(parts, true);
    assert("/"@ =~= n.subrange(0, 1));
    assert(is_absolute(n));
}

proof fn lemma_walk_on(
    a: Seq<Seq<char>>,
    b: Seq<Seq<char>>,
    behind: Seq<Seq<char>>,
    absolute: bool,
)
    requires
        walked(a, absolute) == walked(b, absolute),
    ensures
        walked(a + behind, absolute) == walked(b + behind, absolute),
    decreases behind.len(),
{
    if behind.len() == 0 {
        assert(a + behind =~= a);
        assert(b + behind =~= b);
    } else {
        lemma_walk_on(a, b, behind.drop_last(), absolute);
        assert((a + behind).drop_last() =~= a + behind.drop_last());
        assert((b + behind).drop_last() =~= b + behind.drop_last());
        assert((a + behind).last() == behind.last());
        assert((b + behind).last() == behind.last());
    }
}

/// A part and the `..` behind it take each other away, wherever they stand, and a
/// `.` or an empty part counts for nothing; either separator counts the same.
pub proof fn law_dots_are_resolved(
    before: Seq<Seq<char>>,
    part: Seq<char>,
    behind: Seq<Seq<char>>,
    absolute: bool,
    path: Seq<char>,
)
    requires
        is_solid(part),
        part != ".."@,
    ensures
        walked(before + seq![part, ".."@] + behind, absolute) == walked(before + behind, absolute),
        walked(before + seq!["."@] + behind, absolute) == walked(before + behind, absolute),
        walked(before + seq![Seq::<char>::empty()] + behind, absolute) == walked(
            before + behind,
            absolute,
        ),
        walked(before + seq![part], absolute) == walked(before, absolute).push(part),
        parts_of(text::char_replaced(path, '\\', '/')) == parts_of(path),
{
    reveal_strlit(".");
    reveal_strlit("..");
    let two = before + seq![part, ".."@];
    let one = before + seq![part];
    assert(two.drop_last() =~= one);
    assert(two.last() == ".."@);
    assert(one.drop_last() =~= before);
    assert(one.last() == part);
    let w = walked(before, absolute);
    assert(walked(one, absolute) == w.push(part));
    assert(w.push(part).drop_last() =~= w);
    assert(walked(two, absolute) =~= w);
    lemma_walk_on(two, before, behind, absolute);
    let here = before + seq!["."@];
    assert(here.drop_last() =~= before);
    assert(here.last() == "."@);
    lemma_walk_on(here, before, behind, absolute);
    let none = before + seq![Seq::<char>::empty()];
    assert(none.drop_last() =~= before);
    assert(none.last() =~= Seq::<char>::empty());
    lemma_walk_on(none, before, behind, absolute);
    let once = text::char_replaced(path, '\\', '/');
    assert(text::char_replaced(once, '\\', '/') =~= once);
}

proof fn lemma_last_part_at(s: Seq<char>, head: int, end: int, i: int)
    requires
        0 <= head < i <= end <= s.len(),
        s[i - 1] == '/',
        forall|k: int| i <= k < end ==> s[k] != '/',
    ensures
        last_part_start(s, head, end) == i,
    decreases end - i,
{
    if i < end {
        assert(s[end - 1] != '/');
        lemma_last_part_at(s, head, end - 1, i);
    }
}

proof fn lemma_last_part_is_all(s: Seq<char>, head: int, end: int)
    requires
        0 <= head <= end <= s.len(),
        forall|k: int| head <= k < end ==> s[k] != '/',
    ensures
        last_part_start(s, head, end) == head,
    decreases end - head,
{
    if head < end {
        assert(s[end - 1] != '/');
        lemma_last_part_is_all(s, head, end - 1);
    }
}

proof fn lemma_path_end(dir: Seq<char>, name: Seq<char>)
    requires
        name.len() > 0,
        name != "."@,
        !name.contains('/'),
        dir.len() > 0,
        dir.last() != '/',
        dir.last() != '.',
    ensures
        path_end(dir.push('/') + name) == PathEnd::Part(dir, name),
        tidy_end(dir.push('/') + name, head_len(dir.push('/') + name)) == dir.push('/') + name,
{
    reveal_strlit(".");
    let s = dir.push('/') + name;
    let head = head_len(s);
    let n = dir.len() as int;
    assert(s[0] == dir[0]);
    assert(s[n] == '/');
    assert forall|k: int| n + 1 <= k < s.len() implies s[k] != '/' by {
        assert(s[k] == name[k - n - 1]);
    }
    lemma_last_part_at(s, head, s.len() as int, n + 1);
    assert(s.skip(n + 1) =~= name);
    assert(last_part(s, head) == name);
    assert(tidy_end(s, head) == s);
    assert(s.take(n) =~= dir);
    assert(without_last(s, head) == dir);
    lemma_last_part_start(dir, head, n);
    let part = last_part(dir, head);
    if n > head {
        let i = last_part_start(dir, head, n);
        if i == n {
            lemma_start_behind_slash(dir, head, n);
        }
        assert(part.len() > 0);
        assert(part.last() == dir.last());
        assert(part != "."@);
    }
    assert(tidy_end(dir, head) == dir);
}

proof fn lemma_start_behind_slash(s: Seq<char>, head: int, end: int)
    requires
        0 <= head <= end <= s.len(),
    ensures
        last_part_start(s, head, end) > head ==> s[last_part_start(s, head, end) - 1] == '/',
    decreases end - head,
{
    if end > head && s[end - 1] != '/' {
        lemma_start_behind_slash(s, head, end - 1);
    }
}

/// A file in a directory: the path's base is the file's name, and its directory is
/// that directory.
pub proof fn law_paths_come_apart(dir: Seq<char>, name: Seq<char>)
    requires
        name.len() > 0,
        name != "."@,
        name != ".."@,
        !name.contains('/'),
        dir.len() > 0,
        dir.last() != '/',
        dir.last() != '.',
    ensures
        basename(dir.push('/') + name) == name,
        dirname(dir.push('/') + name) == text::char_replaced(dir, '\\', '/'),
        basename(seq!['/'] + name) == name,
        dirname(seq!['/'] + name) == "/"@,
{
    reveal_strlit("/");
    lemma_path_end(dir, name);
    let s = seq!['/'] + name;
    assert(head_len(s) == 1);
    assert forall|k: int| 1 <= k < s.len() implies s[k] != '/' by {
        assert(s[k] == name[k - 1]);
    }
    lemma_last_part_is_all(s, 1, s.len() as int);
    assert(s.skip(1) =~= name);
    assert(last_part(s, 1) == name);
    assert(tidy_end(s, 1) == s);
    assert(s.take(1) =~= "/"@);
    assert(without_last(s, 1) == "/"@);
    assert(tidy_end("/"@, 1) == "/"@);
    assert(text::char_replaced("/"@, '\\', '/') =~= "/"@);
}

proof fn lemma_last_dot(stem: Seq<char>, ext: Seq<char>)
    requires
        !ext.contains('.'),
    ensures
        text::last_index_of(stem.push('.') + ext, '.') == Some(stem.len() as int),
{
    let name = stem.push('.') + ext;
    let n = stem.len() as int;
    text::lemma_last_index_of(name, '.');
    assert(name[n] == '.');
    match text::last_index_of(name, '.') {
        Some(i) => {
            if i > n {
                assert(name[i] == ext[i - n - 1]);
            }
        },
        None => {},
    }
}

/// The extension of a file is what follows the last dot of its name, with the dot;
/// another extension takes its place and leaves the rest of the path. A name
/// without a dot has none.
pub proof fn law_extension_follows_the_last_dot(
    dir: Seq<char>,
    stem: Seq<char>,
    ext: Seq<char>,
    other: Seq<char>,
)
    requires
        stem.len() > 0,
        !stem.contains('/'),
        !ext.contains('/'),
        !ext.contains('.'),
        stem != "."@ || ext.len() > 0,
        dir.len() > 0,
        dir.last() != '/',
        dir.last() != '.',
    ensures
        extname(dir.push('/') + (stem.push('.') + ext)) == "."@ + ext,
        with_other_extension(dir.push('/') + (stem.push('.') + ext), other) == dir.push('/') + (stem
            + "."@ + other),
        !stem.contains('.') ==> extname(dir.push('/') + stem) == ""@,
{
    reveal_strlit(".");
    reveal_strlit("..");
    let name = stem.push('.') + ext;
    assert(!name.contains('/')) by {
        if name.contains('/') {
            let k = choose|k: int| 0 <= k < name.len() && name[k] == '/';
            if k < stem.len() {
                assert(stem[k] == '/');
            } else if k > stem.len() {
                assert(ext[k - stem.len() - 1] == '/');
            }
        }
    }
    if name == ".."@ {
        assert(name.len() == 2 && name[0] == '.');
        assert(stem.len() == 1 && ext.len() == 0);
        assert(stem[0] == name[0]);
        assert(stem =~= "."@);
    }
    lemma_path_end(dir, name);
    lemma_last_dot(stem, ext);
    assert(name.skip(stem.len() as int + 1) =~= ext);
    assert(name.take(stem.len() as int) =~= stem);
    let s = dir.push('/') + name;
    assert(s.take(s.len() - name.len()) =~= dir.push('/'));
    assert(dir.push('/') + stem + "."@ + other =~= dir.push('/') + (stem + "."@ + other));
    if !stem.contains('.') {
        if stem == "."@ || stem == ".."@ {
            assert(stem[0] == '.');
        }
        lemma_path_end(dir, stem);
        text::lemma_last_index_of(stem, '.');
    }
}

/// Paths are joined by one slash, in their order; a path from a root takes the
/// place of what stands before it.
pub proof fn law_joined_paths_follow_each_other(a: Seq<char>, b: Seq<char>, c: Seq<char>)
    requires
        a.len() > 0,
        b.len() > 0,
        a.last() != '/',
        b.last() != '/',
        !is_absolute(b),
        !is_absolute(c),
    ensures
        chained(Seq::empty(), seq![a]) == a,
        chained(Seq::empty(), seq![a, b]) == a + seq!['/'] + b,
        chained(Seq::empty(), seq![a, b, c]) == a + seq!['/'] + b + seq!['/'] + c,
        is_absolute(a) ==> chained(b, seq![c, a]) == a,
        chained(a, seq![b]) == a + seq!['/'] + b,
{
    reveal_strlit("/");
    reveal_with_fuel(chained, 4);
    let none = Seq::<char>::empty();
    assert(seq![a].drop_last() =~= Seq::empty());
    assert(seq![b].drop_last() =~= Seq::empty());
    assert(seq![a, b].drop_last() =~= seq![a]);
    assert(seq![a, b, c].drop_last() =~= seq![a, b]);
    assert(seq![c, a].drop_last() =~= seq![c]);
    assert(none + a =~= a);
    assert(chained(none, seq![a]) == a);
    assert(a.push('/') + b =~= a + seq!['/'] + b);
    assert(chained(none, seq![a, b]) == a + seq!['/'] + b);
    let ab = a + seq!['/'] + b;
    assert(ab.last() == b.last());
    assert(ab.push('/') + c =~= ab + seq!['/'] + c);
}

} // verus!
