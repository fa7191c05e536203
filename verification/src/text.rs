//! Strings as sequences of characters: the operations that the rest of the
//! library is written with, and what each of them means.

use vstd::prelude::*;

verus! {

// ---------------------------------------------------------------------------
// Meaning
// ---------------------------------------------------------------------------

/// `pat` stands in `s` at index `i`.
pub open spec fn occurs_at(s: Seq<char>, pat: Seq<char>, i: int) -> bool {
    0 <= i && i + pat.len() <= s.len() && s.subrange(i, i + pat.len()) == pat
}

/// `pat` stands somewhere in `s`.
pub open spec fn has_sub(s: Seq<char>, pat: Seq<char>) -> bool {
    exists|i: int| occurs_at(s, pat, i)
}

/// The first index, not before `from`, at which `pat` stands in `s`.
pub open spec fn index_of_sub(s: Seq<char>, pat: Seq<char>, from: int) -> Option<int>
    decreases s.len() - from + 1,
{
    if from < 0 || from + pat.len() > s.len() {
        None
    } else if s.subrange(from, from + pat.len()) == pat {
        Some(from)
    } else {
        index_of_sub(s, pat, from + 1)
    }
}

/// The first index, not before `from`, at which `s` holds `c`.
pub open spec fn index_of(s: Seq<char>, c: char, from: int) -> Option<int>
    decreases s.len() - from,
{
    if from < 0 || from >= s.len() {
        None
    } else if s[from] == c {
        Some(from)
    } else {
        index_of(s, c, from + 1)
    }
}

/// The last index at which `s` holds `c`.
pub open spec fn last_index_of(s: Seq<char>, c: char) -> Option<int>
    decreases s.len(),
{
    if s.len() == 0 {
        None
    } else if s.last() == c {
        Some(s.len() - 1)
    } else {
        last_index_of(s.drop_last(), c)
    }
}

/// Unicode's `White_Space` property.
pub open spec fn is_space(c: char) -> bool {
    let n = c as int;
    ||| 0x9 <= n <= 0xD
    ||| n == 0x20
    ||| n == 0x85
    ||| n == 0xA0
    ||| n == 0x1680
    ||| 0x2000 <= n <= 0x200A
    ||| n == 0x2028
    ||| n == 0x2029
    ||| n == 0x202F
    ||| n == 0x205F
    ||| n == 0x3000
}

/// `s` without the white space at its front.
pub open spec fn trimmed_start(s: Seq<char>) -> Seq<char>
    decreases s.len(),
{
    if s.len() > 0 && is_space(s[0]) {
        trimmed_start(s.skip(1))
    } else {
        s
    }
}

/// `s` without the white space at its end.
pub open spec fn trimmed_end(s: Seq<char>) -> Seq<char>
    decreases s.len(),
{
    if s.len() > 0 && is_space(s.last()) {
        trimmed_end(s.drop_last())
    } else {
        s
    }
}

/// `s` without the white space at its two ends.
pub open spec fn trimmed(s: Seq<char>) -> Seq<char> {
    trimmed_end(trimmed_start(s))
}

/// `s` without any `c` at its front.
pub open spec fn trimmed_start_char(s: Seq<char>, c: char) -> Seq<char>
    decreases s.len(),
{
    if s.len() > 0 && s[0] == c {
        trimmed_start_char(s.skip(1), c)
    } else {
        s
    }
}

/// `s` without any `c` at its end.
pub open spec fn trimmed_end_char(s: Seq<char>, c: char) -> Seq<char>
    decreases s.len(),
{
    if s.len() > 0 && s.last() == c {
        trimmed_end_char(s.drop_last(), c)
    } else {
        s
    }
}

/// A line without the carriage return that ended it together with the newline.
pub open spec fn without_cr(s: Seq<char>) -> Seq<char> {
    if s.len() > 0 && s.last() == '\r' {
        s.drop_last()
    } else {
        s
    }
}

/// The lines of `s`: what stands before each newline, without the carriage
/// return of a `"\r\n"`, and what follows the last newline unless it is empty.
pub open spec fn lines_of(s: Seq<char>) -> Seq<Seq<char>>
    decreases s.len(),
{
    if s.len() == 0 {
        Seq::empty()
    } else {
        match index_of(s, '\n', 0) {
            Some(i) => if 0 <= i < s.len() {
                seq![without_cr(s.take(i))] + lines_of(s.skip(i + 1))
            } else {
                Seq::empty()
            },
            None => seq![s],
        }
    }
}

/// What stands between the occurrences of `c` in `s`: one part more than there
/// are occurrences.
pub open spec fn split_of(s: Seq<char>, c: char) -> Seq<Seq<char>>
    decreases s.len(),
{
    match index_of(s, c, 0) {
        Some(i) => if 0 <= i < s.len() {
            seq![s.take(i)] + split_of(s.skip(i + 1), c)
        } else {
            seq![s]
        },
        None => seq![s],
    }
}

/// The parts in order, with `sep` between each two of them.
pub open spec fn joined(parts: Seq<Seq<char>>, sep: Seq<char>) -> Seq<char>
    decreases parts.len(),
{
    if parts.len() == 0 {
        Seq::empty()
    } else if parts.len() == 1 {
        parts[0]
    } else {
        parts[0] + sep + joined(parts.skip(1), sep)
    }
}

/// `s` with `new` in place of each `old_char`.
pub open spec fn char_replaced(s: Seq<char>, old_char: char, new: char) -> Seq<char> {
    s.map_values(|c: char| if c == old_char { new } else { c })
}

/// `s` with `new` in place of `pat`, at the occurrences found one after
/// another from the left.
pub open spec fn sub_replaced(s: Seq<char>, pat: Seq<char>, new: Seq<char>) -> Seq<char>
    decreases s.len(),
{
    match index_of_sub(s, pat, 0) {
        Some(i) => if 0 <= i && i + pat.len() <= s.len() && pat.len() > 0 {
            s.take(i) + new + sub_replaced(s.skip(i + pat.len()), pat, new)
        } else {
            s
        },
        None => s,
    }
}

/// An ASCII capital in lower case, any other character as it is.
pub open spec fn ascii_lower(c: char) -> char {
    if 'A' <= c <= 'Z' {
        (c as int + 32) as char
    } else {
        c
    }
}

/// `s` with its ASCII capitals in lower case.
pub open spec fn ascii_lowered(s: Seq<char>) -> Seq<char> {
    s.map_values(|c: char| ascii_lower(c))
}

/// An ASCII small letter as a capital, any other character as it is.
pub open spec fn ascii_upper(c: char) -> char {
    if 'a' <= c <= 'z' {
        (c as int - 32) as char
    } else {
        c
    }
}

/// `s` with its ASCII small letters as capitals.
pub open spec fn ascii_uppered(s: Seq<char>) -> Seq<char> {
    s.map_values(|c: char| ascii_upper(c))
}

/// The decimal digit for `n`, which is under ten.
pub open spec fn digit(n: int) -> char {
    (n + 48) as char
}

/// `n` in decimal, without leading zeros.
pub open spec fn decimal(n: nat) -> Seq<char>
    decreases n,
{
    if n < 10 {
        seq![digit(n as int)]
    } else {
        decimal(n / 10).push(digit((n % 10) as int))
    }
}

/// What each string of `v` holds.
pub open spec fn views(v: Seq<String>) -> Seq<Seq<char>> {
    v.map_values(|s: String| s@)
}

/// What an optional string holds.
pub open spec fn opt_view(o: Option<String>) -> Option<Seq<char>> {
    match o {
        Some(s) => Some(s@),
        None => None,
    }
}

/// What a result of strings holds.
pub open spec fn result_view(r: Result<String, String>) -> Result<Seq<char>, Seq<char>> {
    match r {
        Ok(s) => Ok(s@),
        Err(e) => Err(e@),
    }
}

// ---------------------------------------------------------------------------
// Facts
// ---------------------------------------------------------------------------

/// A search that finds nothing leaves no occurrence behind it, and one that
/// finds something finds the first.
pub proof fn lemma_index_of_sub(s: Seq<char>, pat: Seq<char>, from: int)
    requires
        0 <= from,
    ensures
        match index_of_sub(s, pat, from) {
            Some(i) => from <= i && occurs_at(s, pat, i) && (forall|j: int|
                from <= j < i ==> !occurs_at(s, pat, j)),
            None => forall|j: int| from <= j ==> !occurs_at(s, pat, j),
        },
    decreases s.len() - from + 1,
{
    if from + pat.len() > s.len() {
    } else if s.subrange(from, from + pat.len()) == pat {
    } else {
        lemma_index_of_sub(s, pat, from + 1);
        assert(!occurs_at(s, pat, from));
    }
}

/// The search from the front finds something exactly where there is something.
pub proof fn lemma_has_sub(s: Seq<char>, pat: Seq<char>)
    ensures
        has_sub(s, pat) <==> index_of_sub(s, pat, 0) is Some,
{
    lemma_index_of_sub(s, pat, 0);
    if has_sub(s, pat) {
        let i = choose|i: int| occurs_at(s, pat, i);
        assert(occurs_at(s, pat, i));
    }
    match index_of_sub(s, pat, 0) {
        Some(i) => {
            assert(occurs_at(s, pat, i));
        },
        None => {},
    }
}

pub proof fn lemma_index_of(s: Seq<char>, c: char, from: int)
    requires
        0 <= from,
    ensures
        match index_of(s, c, from) {
            Some(i) => from <= i < s.len() && s[i] == c && (forall|j: int|
                from <= j < i ==> s[j] != c),
            None => forall|j: int| from <= j < s.len() ==> s[j] != c,
        },
    decreases s.len() - from,
{
    if from >= s.len() {
    } else if s[from] == c {
    } else {
        lemma_index_of(s, c, from + 1);
    }
}

pub proof fn lemma_last_index_of(s: Seq<char>, c: char)
    ensures
        match last_index_of(s, c) {
            Some(i) => 0 <= i < s.len() && s[i] == c && (forall|j: int|
                i < j < s.len() ==> s[j] != c),
            None => forall|j: int| 0 <= j < s.len() ==> s[j] != c,
        },
    decreases s.len(),
{
    if s.len() == 0 {
    } else if s.last() == c {
    } else {
        lemma_last_index_of(s.drop_last(), c);
        assert forall|j: int| 0 <= j < s.len() - 1 implies s[j] == s.drop_last()[j] by {}
    }
}

/// The decimal form is never empty and holds only digits.
pub proof fn lemma_decimal_digits(n: nat)
    ensures
        decimal(n).len() > 0,
        forall|i: int| 0 <= i < decimal(n).len() ==> '0' <= #[trigger] decimal(n)[i] <= '9',
    decreases n,
{
    if n >= 10 {
        lemma_decimal_digits(n / 10);
    }
}

// ---------------------------------------------------------------------------
// Between strings and characters
// ---------------------------------------------------------------------------

/// `String::push` appends the character at the end of the string.
pub assume_specification[ String::push ](s: &mut String, c: char)
    ensures
        final(s)@ == old(s)@.push(c),
;

/// The characters of `s`, in order.
pub fn chars_of(s: &str) -> (r: Vec<char>)
    ensures
        r@ == s@,
{
    let mut out: Vec<char> = Vec::new();
    for c in iter: s.chars()
        invariant
            out@ == iter.seq().take(iter.index() as int),
            iter.seq() == s@,
    {
        out.push(c);
    }
    out
}

/// The string that the characters make.
pub fn string_of(v: &[char]) -> (r: String)
    ensures
        r@ == v@,
{
    let mut out: String = String::new();
    let mut i: usize = 0;
    while i < v.len()
        invariant
            i <= v.len(),
            out@ == v@.take(i as int),
        decreases v.len() - i,
    {
        out.push(v[i]);
        i = i + 1;
        assert(v@.take(i as int) =~= v@.take(i - 1).push(v@[i - 1]));
    }
    assert(v@.take(i as int) =~= v@);
    out
}

/// The part of `v` from `a` up to `b`, as a string.
pub fn string_of_range(v: &[char], a: usize, b: usize) -> (r: String)
    requires
        a <= b <= v.len(),
    ensures
        r@ == v@.subrange(a as int, b as int),
{
    string_of(vstd::slice::slice_subrange(v, a, b))
}

/// `a` followed by `b`.
pub fn concat(a: &str, b: &str) -> (r: String)
    ensures
        r@ == a@ + b@,
{
    let mut out: String = a.to_owned();
    out.append(b);
    out
}

/// `a` followed by `b` and `c`.
pub fn concat3(a: &str, b: &str, c: &str) -> (r: String)
    ensures
        r@ == a@ + b@ + c@,
{
    let mut out: String = a.to_owned();
    out.append(b);
    out.append(c);
    out
}

/// A copy of an optional string.
pub fn clone_opt(o: &Option<String>) -> (r: Option<String>)
    ensures
        opt_view(r) == opt_view(*o),
        r is Some <==> *o is Some,
{
    match o {
        Some(s) => Some(s.clone()),
        None => None,
    }
}

// ---------------------------------------------------------------------------
// Comparing and searching
// ---------------------------------------------------------------------------

/// Whether `pat` stands in `s` at index `i`.
pub fn stands_at(s: &[char], pat: &[char], i: usize) -> (r: bool)
    ensures
        r == occurs_at(s@, pat@, i as int),
{
    if pat.len() > s.len() || i > s.len() - pat.len() {
        return false;
    }
    let mut j: usize = 0;
    while j < pat.len()
        invariant
            j <= pat.len(),
            i + pat.len() <= s.len(),
            forall|k: int| 0 <= k < j ==> s@[i + k] == pat@[k],
        decreases pat.len() - j,
    {
        if s[i + j] != pat[j] {
            assert(s@.subrange(i as int, i + pat.len())[j as int] != pat@[j as int]);
            return false;
        }
        j = j + 1;
    }
    assert(s@.subrange(i as int, i + pat.len()) =~= pat@);
    true
}

/// Whether the two hold the same characters.
pub fn same(a: &str, b: &str) -> (r: bool)
    ensures
        r == (a@ == b@),
{
    let x: String = a.to_owned();
    let y: String = b.to_owned();
    x == y
}

/// Whether `s` begins with `pat`.
pub fn starts_with(s: &str, pat: &str) -> (r: bool)
    ensures
        r == pat@.is_prefix_of(s@),
{
    let v: Vec<char> = chars_of(s);
    let p: Vec<char> = chars_of(pat);
    stands_at(v.as_slice(), p.as_slice(), 0)
}

/// Whether `s` ends with `pat`.
pub fn ends_with(s: &str, pat: &str) -> (r: bool)
    ensures
        r == pat@.is_suffix_of(s@),
{
    let v: Vec<char> = chars_of(s);
    let p: Vec<char> = chars_of(pat);
    if p.len() > v.len() {
        return false;
    }
    stands_at(v.as_slice(), p.as_slice(), v.len() - p.len())
}

/// The first index, not before `from`, at which `pat` stands in `s`.
pub fn find_sub_from(s: &[char], pat: &[char], from: usize) -> (r: Option<usize>)
    ensures
        match r {
            Some(i) => index_of_sub(s@, pat@, from as int) == Some(i as int) && i + pat.len()
                <= s.len() && from <= i,
            None => index_of_sub(s@, pat@, from as int) is None,
        },
{
    if pat.len() > s.len() {
        return None;
    }
    let mut i: usize = from;
    while i <= s.len() - pat.len()
        invariant
            pat.len() <= s.len(),
            from <= i,
            index_of_sub(s@, pat@, from as int) == index_of_sub(s@, pat@, i as int),
        decreases s.len() + 1 - i,
    {
        if stands_at(s, pat, i) {
            return Some(i);
        }
        if i == s.len() - pat.len() {
            assert(index_of_sub(s@, pat@, i + 1) is None);
            return None;
        }
        i = i + 1;
    }
    None
}

/// The first index at which `pat` stands in `s`, counted in characters.
pub fn find_sub(s: &str, pat: &str) -> (r: Option<usize>)
    ensures
        match r {
            Some(i) => index_of_sub(s@, pat@, 0) == Some(i as int) && i + pat@.len() <= s@.len()
                <= usize::MAX,
            None => index_of_sub(s@, pat@, 0) is None,
        },
{
    let v: Vec<char> = chars_of(s);
    let p: Vec<char> = chars_of(pat);
    find_sub_from(v.as_slice(), p.as_slice(), 0)
}

/// Whether `pat` stands somewhere in `s`.
pub fn contains(s: &str, pat: &str) -> (r: bool)
    ensures
        r == has_sub(s@, pat@),
{
    proof {
        lemma_has_sub(s@, pat@);
    }
    find_sub(s, pat).is_some()
}

/// The first index, not before `from`, at which `s` holds `c`.
pub fn find_char_from(s: &[char], c: char, from: usize) -> (r: Option<usize>)
    ensures
        match r {
            Some(i) => index_of(s@, c, from as int) == Some(i as int) && from <= i < s.len(),
            None => index_of(s@, c, from as int) is None,
        },
{
    let mut i: usize = from;
    while i < s.len()
        invariant
            from <= i,
            index_of(s@, c, from as int) == index_of(s@, c, i as int),
        decreases s.len() - i,
    {
        if s[i] == c {
            return Some(i);
        }
        i = i + 1;
    }
    None
}

/// The first index at which `s` holds `c`, counted in characters.
pub fn find_char(s: &str, c: char) -> (r: Option<usize>)
    ensures
        match r {
            Some(i) => index_of(s@, c, 0) == Some(i as int) && i < s@.len() <= usize::MAX,
            None => index_of(s@, c, 0) is None,
        },
{
    let v: Vec<char> = chars_of(s);
    find_char_from(v.as_slice(), c, 0)
}

/// The last index at which `s` holds `c`, counted in characters.
pub fn rfind_char(s: &str, c: char) -> (r: Option<usize>)
    ensures
        match r {
            Some(i) => last_index_of(s@, c) == Some(i as int) && i < s@.len() <= usize::MAX,
            None => last_index_of(s@, c) is None,
        },
{
    let v: Vec<char> = chars_of(s);
    let mut i: usize = v.len();
    assert(v@.take(i as int) =~= s@);
    while i > 0
        invariant
            i <= v.len(),
            v@ == s@,
            last_index_of(s@, c) == last_index_of(v@.take(i as int), c),
        decreases i,
    {
        assert(v@.take(i as int).last() == v@[i - 1]);
        assert(v@.take(i as int).drop_last() =~= v@.take(i - 1));
        if v[i - 1] == c {
            return Some(i - 1);
        }
        i = i - 1;
    }
    None
}

/// Whether `s` holds `c`.
pub fn contains_char(s: &str, c: char) -> (r: bool)
    ensures
        r == s@.contains(c),
{
    proof {
        lemma_index_of(s@, c, 0);
    }
    find_char(s, c).is_some()
}

/// The part of `s` before index `i`.
pub fn take(s: &str, i: usize) -> (r: &str)
    requires
        i <= s@.len(),
    ensures
        r@ == s@.take(i as int),
{
    let r = s.substring_char(0, i);
    assert(s@.subrange(0, i as int) =~= s@.take(i as int));
    r
}

/// The part of `s` from index `i` on.
pub fn skip(s: &str, i: usize) -> (r: &str)
    requires
        i <= s@.len(),
    ensures
        r@ == s@.skip(i as int),
{
    let n: usize = s.unicode_len();
    let r = s.substring_char(i, n);
    assert(s@.subrange(i as int, n as int) =~= s@.skip(i as int));
    r
}

/// What follows `pat` in `s`, where `s` begins with it.
pub fn strip_prefix<'a>(s: &'a str, pat: &str) -> (r: Option<&'a str>)
    ensures
        match r {
            Some(t) => pat@.is_prefix_of(s@) && t@ == s@.skip(pat@.len() as int),
            None => !pat@.is_prefix_of(s@),
        },
{
    if starts_with(s, pat) {
        let n: usize = pat.unicode_len();
        Some(skip(s, n))
    } else {
        None
    }
}

/// What stands before `pat` in `s`, where `s` ends with it.
pub fn strip_suffix<'a>(s: &'a str, pat: &str) -> (r: Option<&'a str>)
    ensures
        match r {
            Some(t) => pat@.is_suffix_of(s@) && t@ == s@.take(s@.len() - pat@.len()),
            None => !pat@.is_suffix_of(s@),
        },
{
    if ends_with(s, pat) {
        let n: usize = pat.unicode_len();
        let m: usize = s.unicode_len();
        Some(take(s, m - n))
    } else {
        None
    }
}

// ---------------------------------------------------------------------------
// Trimming
// ---------------------------------------------------------------------------

/// Whether `c` has Unicode's `White_Space` property.
pub fn is_white_space(c: char) -> (r: bool)
    ensures
        r == is_space(c),
{
    let n: u32 = c as u32;
    (0x9 <= n && n <= 0xD) || n == 0x20 || n == 0x85 || n == 0xA0 || n == 0x1680 || (0x2000 <= n
        && n <= 0x200A) || n == 0x2028 || n == 0x2029 || n == 0x202F || n == 0x205F || n == 0x3000
}

/// `s` without the white space at its front.
pub fn trim_start(s: &str) -> (r: &str)
    ensures
        r@ == trimmed_start(s@),
{
    let v: Vec<char> = chars_of(s);
    let mut i: usize = 0;
    assert(v@.skip(0) =~= s@);
    while i < v.len() && is_white_space(v[i])
        invariant
            i <= v.len(),
            v@ == s@,
            trimmed_start(s@) == trimmed_start(v@.skip(i as int)),
        decreases v.len() - i,
    {
        assert(v@.skip(i as int).skip(1) =~= v@.skip(i + 1));
        assert(v@.skip(i as int)[0] == v@[i as int]);
        i = i + 1;
    }
    assert(i < v@.len() ==> v@.skip(i as int)[0] == v@[i as int]);
    skip(s, i)
}

/// `s` without the white space at its end.
pub fn trim_end(s: &str) -> (r: &str)
    ensures
        r@ == trimmed_end(s@),
{
    let v: Vec<char> = chars_of(s);
    let mut i: usize = v.len();
    assert(v@.take(i as int) =~= s@);
    while i > 0 && is_white_space(v[i - 1])
        invariant
            i <= v.len(),
            v@ == s@,
            trimmed_end(s@) == trimmed_end(v@.take(i as int)),
        decreases i,
    {
        assert(v@.take(i as int).drop_last() =~= v@.take(i - 1));
        assert(v@.take(i as int).last() == v@[i - 1]);
        i = i - 1;
    }
    assert(i > 0 ==> v@.take(i as int).last() == v@[i - 1]);
    take(s, i)
}

/// `s` without the white space at its two ends.
pub fn trim(s: &str) -> (r: &str)
    ensures
        r@ == trimmed(s@),
{
    trim_end(trim_start(s))
}

/// `s` without any `c` at its front.
pub fn trim_start_char(s: &str, c: char) -> (r: &str)
    ensures
        r@ == trimmed_start_char(s@, c),
{
    let v: Vec<char> = chars_of(s);
    let mut i: usize = 0;
    assert(v@.skip(0) =~= s@);
    while i < v.len() && v[i] == c
        invariant
            i <= v.len(),
            v@ == s@,
            trimmed_start_char(s@, c) == trimmed_start_char(v@.skip(i as int), c),
        decreases v.len() - i,
    {
        assert(v@.skip(i as int).skip(1) =~= v@.skip(i + 1));
        assert(v@.skip(i as int)[0] == v@[i as int]);
        i = i + 1;
    }
    assert(i < v@.len() ==> v@.skip(i as int)[0] == v@[i as int]);
    skip(s, i)
}

/// `s` without any `c` at its end.
pub fn trim_end_char(s: &str, c: char) -> (r: &str)
    ensures
        r@ == trimmed_end_char(s@, c),
{
    let v: Vec<char> = chars_of(s);
    let mut i: usize = v.len();
    assert(v@.take(i as int) =~= s@);
    while i > 0 && v[i - 1] == c
        invariant
            i <= v.len(),
            v@ == s@,
            trimmed_end_char(s@, c) == trimmed_end_char(v@.take(i as int), c),
        decreases i,
    {
        assert(v@.take(i as int).drop_last() =~= v@.take(i - 1));
        assert(v@.take(i as int).last() == v@[i - 1]);
        i = i - 1;
    }
    assert(i > 0 ==> v@.take(i as int).last() == v@[i - 1]);
    take(s, i)
}

// ---------------------------------------------------------------------------
// Splitting, joining, replacing
// ---------------------------------------------------------------------------

/// The lines of `s`.
pub fn lines(s: &str) -> (r: Vec<String>)
    ensures
        views(r@) == lines_of(s@),
{
    let v: Vec<char> = chars_of(s);
    let mut out: Vec<String> = Vec::new();
    let mut i: usize = 0;
    assert(v@.skip(0) =~= s@);
    assert(views(out@) + lines_of(v@.skip(0)) =~= lines_of(s@));
    while i < v.len()
        invariant
            i <= v.len(),
            v@ == s@,
            views(out@) + lines_of(v@.skip(i as int)) == lines_of(s@),
        decreases v.len() - i,
    {
        let ghost rest = v@.skip(i as int);
        let ghost before = out@;
        match find_char_from(v.as_slice(), '\n', i) {
            Some(j) => {
                proof {
                    lemma_index_of_skip(v@, '\n', i as int);
                }
                assert(rest.take(j - i) =~= v@.subrange(i as int, j as int));
                let mut end: usize = j;
                if end > i && v[end - 1] == '\r' {
                    end = end - 1;
                    assert(rest.take(j - i).drop_last() =~= v@.subrange(i as int, end as int));
                }
                let line: String = string_of_range(v.as_slice(), i, end);
                assert(line@ == without_cr(rest.take(j - i)));
                out.push(line);
                assert(rest.skip(j - i + 1) =~= v@.skip(j + 1));
                assert(views(out@) =~= views(before) + seq![line@]);
                assert(views(out@) + lines_of(v@.skip(j + 1)) =~= views(before) + (seq![line@]
                    + lines_of(v@.skip(j + 1))));
                i = j + 1;
            },
            None => {
                proof {
                    lemma_index_of_skip(v@, '\n', i as int);
                }
                let line: String = string_of_range(v.as_slice(), i, v.len());
                assert(line@ =~= rest);
                out.push(line);
                assert(views(out@) =~= views(before) + seq![line@]);
                i = v.len();
                assert(lines_of(v@.skip(i as int)) =~= Seq::<Seq<char>>::empty());
            },
        }
    }
    assert(lines_of(v@.skip(i as int)) =~= Seq::<Seq<char>>::empty());
    assert(views(out@) + lines_of(v@.skip(i as int)) =~= views(out@));
    out
}

/// A search in what follows `i` is the search from `i` on, with the indices
/// shifted.
pub proof fn lemma_index_of_skip(s: Seq<char>, c: char, i: int)
    requires
        0 <= i <= s.len(),
    ensures
        match index_of(s, c, i) {
            Some(j) => i <= j < s.len() && index_of(s.skip(i), c, 0) == Some(j - i),
            None => index_of(s.skip(i), c, 0) is None,
        },
{
    lemma_index_of_shift(s, c, i, i);
}

proof fn lemma_index_of_shift(s: Seq<char>, c: char, i: int, k: int)
    requires
        0 <= i <= k <= s.len(),
    ensures
        match index_of(s, c, k) {
            Some(j) => k <= j < s.len() && index_of(s.skip(i), c, k - i) == Some(j - i),
            None => index_of(s.skip(i), c, k - i) is None,
        },
    decreases s.len() - k,
{
    if k < s.len() {
        assert(s.skip(i)[k - i] == s[k]);
        if s[k] != c {
            lemma_index_of_shift(s, c, i, k + 1);
        }
    }
}

/// The parts of `s` between the occurrences of `c`.
pub fn split_char(s: &str, c: char) -> (r: Vec<String>)
    ensures
        views(r@) == split_of(s@, c),
        r.len() >= 1,
{
    let v: Vec<char> = chars_of(s);
    let mut out: Vec<String> = Vec::new();
    let mut i: usize = 0;
    assert(v@.skip(0) =~= s@);
    assert(views(out@) + split_of(v@.skip(0), c) =~= split_of(s@, c));
    loop
        invariant
            i <= v.len(),
            v@ == s@,
            views(out@) + split_of(v@.skip(i as int), c) == split_of(s@, c),
        decreases v.len() - i,
    {
        let ghost rest = v@.skip(i as int);
        let ghost before = out@;
        proof {
            lemma_index_of_skip(v@, c, i as int);
        }
        match find_char_from(v.as_slice(), c, i) {
            Some(j) => {
                let part: String = string_of_range(v.as_slice(), i, j);
                assert(part@ =~= rest.take(j - i));
                out.push(part);
                assert(rest.skip(j - i + 1) =~= v@.skip(j + 1));
                assert(views(out@) =~= views(before) + seq![part@]);
                assert(views(out@) + split_of(v@.skip(j + 1), c) =~= views(before) + (seq![part@]
                    + split_of(v@.skip(j + 1), c)));
                i = j + 1;
            },
            None => {
                let part: String = string_of_range(v.as_slice(), i, v.len());
                assert(part@ =~= rest);
                out.push(part);
                assert(views(out@) =~= views(before) + seq![part@]);
                return out;
            },
        }
    }
}

/// The parts in order, with `sep` between each two of them.
pub fn join(parts: &Vec<String>, sep: &str) -> (r: String)
    ensures
        r@ == joined(views(parts@), sep@),
{
    let mut out: String = String::new();
    let mut i: usize = 0;
    let ghost all = views(parts@);
    assert(all.skip(0) =~= all);
    assert(out@ + joined(all, sep@) =~= joined(all, sep@));
    while i < parts.len()
        invariant
            i <= parts.len(),
            all == views(parts@),
            out@ + joined(all.skip(i as int), sep@) == joined(all, sep@),
        decreases parts.len() - i,
    {
        let ghost rest = all.skip(i as int);
        let ghost before = out@;
        assert(rest[0] == parts@[i as int]@);
        assert(rest.skip(1) =~= all.skip(i + 1));
        out.append(parts[i].as_str());
        if i + 1 < parts.len() {
            out.append(sep);
            assert(out@ + joined(all.skip(i + 1), sep@) =~= before + (rest[0] + sep@ + joined(
                all.skip(i + 1),
                sep@,
            )));
        } else {
            assert(out@ + joined(all.skip(i + 1), sep@) =~= before + rest[0]);
        }
        i = i + 1;
    }
    assert(out@ + joined(all.skip(i as int), sep@) =~= out@);
    out
}

/// `s` with `new` in place of each `old_char`.
pub fn replace_char(s: &str, old_char: char, new: char) -> (r: String)
    ensures
        r@ == char_replaced(s@, old_char, new),
{
    let v: Vec<char> = chars_of(s);
    let mut out: String = String::new();
    let mut i: usize = 0;
    while i < v.len()
        invariant
            i <= v.len(),
            v@ == s@,
            out@ == char_replaced(s@.take(i as int), old_char, new),
        decreases v.len() - i,
    {
        if v[i] == old_char {
            out.push(new);
        } else {
            out.push(v[i]);
        }
        i = i + 1;
        assert(out@ =~= char_replaced(s@.take(i as int), old_char, new));
    }
    assert(s@.take(i as int) =~= s@);
    out
}

/// `s` with `new` in place of each `pat`.
pub fn replace_sub(s: &str, pat: &str, new: &str) -> (r: String)
    requires
        pat@.len() > 0,
    ensures
        r@ == sub_replaced(s@, pat@, new@),
{
    let v: Vec<char> = chars_of(s);
    let p: Vec<char> = chars_of(pat);
    let mut out: String = String::new();
    let mut i: usize = 0;
    assert(v@.skip(0) =~= s@);
    assert(out@ + sub_replaced(v@.skip(0), pat@, new@) =~= sub_replaced(s@, pat@, new@));
    loop
        invariant
            i <= v.len(),
            v@ == s@,
            p@ == pat@,
            pat@.len() > 0,
            out@ + sub_replaced(v@.skip(i as int), pat@, new@) == sub_replaced(s@, pat@, new@),
        decreases v.len() - i,
    {
        let ghost rest = v@.skip(i as int);
        let ghost before = out@;
        proof {
            lemma_index_of_sub_skip(v@, pat@, i as int, i as int);
        }
        match find_sub_from(v.as_slice(), p.as_slice(), i) {
            Some(j) => {
                let part: String = string_of_range(v.as_slice(), i, j);
                assert(part@ =~= rest.take(j - i));
                out.append(part.as_str());
                out.append(new);
                assert(rest.skip(j - i + pat@.len()) =~= v@.skip(j + pat@.len()));
                let ghost tail = sub_replaced(v@.skip(j + pat@.len()), pat@, new@);
                assert(out@ + tail =~= before + (rest.take(j - i) + new@ + tail));
                i = j + p.len();
            },
            None => {
                let part: String = string_of_range(v.as_slice(), i, v.len());
                assert(part@ =~= rest);
                out.append(part.as_str());
                return out;
            },
        }
    }
}

/// A search for `pat` in what follows `i` is the search from `i` on, shifted.
pub proof fn lemma_index_of_sub_skip(s: Seq<char>, pat: Seq<char>, i: int, k: int)
    requires
        0 <= i <= k <= s.len(),
    ensures
        match index_of_sub(s, pat, k) {
            Some(j) => k <= j && j + pat.len() <= s.len() && index_of_sub(s.skip(i), pat, k - i)
                == Some(j - i),
            None => index_of_sub(s.skip(i), pat, k - i) is None,
        },
    decreases s.len() - k,
{
    if k + pat.len() <= s.len() {
        assert(s.skip(i).subrange(k - i, k - i + pat.len()) =~= s.subrange(k, k + pat.len()));
        if s.subrange(k, k + pat.len()) != pat {
            if k < s.len() {
                lemma_index_of_sub_skip(s, pat, i, k + 1);
            }
        }
    }
}

// ---------------------------------------------------------------------------
// Case and numbers
// ---------------------------------------------------------------------------

/// An ASCII capital in lower case, any other character as it is.
pub fn to_ascii_lower(c: char) -> (r: char)
    ensures
        r == ascii_lower(c),
{
    if 'A' <= c && c <= 'Z' {
        let n: u8 = c as u8;
        (n + 32) as char
    } else {
        c
    }
}

/// `s` with its ASCII capitals in lower case.
pub fn to_ascii_lowercase(s: &str) -> (r: String)
    ensures
        r@ == ascii_lowered(s@),
{
    let v: Vec<char> = chars_of(s);
    let mut out: String = String::new();
    let mut i: usize = 0;
    while i < v.len()
        invariant
            i <= v.len(),
            v@ == s@,
            out@ == ascii_lowered(s@.take(i as int)),
        decreases v.len() - i,
    {
        out.push(to_ascii_lower(v[i]));
        i = i + 1;
        assert(out@ =~= ascii_lowered(s@.take(i as int)));
    }
    assert(s@.take(i as int) =~= s@);
    out
}

/// `n` in decimal.
pub fn to_decimal(n: u64) -> (r: String)
    ensures
        r@ == decimal(n as nat),
    decreases n,
{
    let d: u8 = (n % 10) as u8;
    let c: char = (d + 48) as char;
    if n < 10 {
        let mut out: String = String::new();
        out.push(c);
        assert(out@ =~= seq![digit(n as int)]);
        out
    } else {
        let mut out: String = to_decimal(n / 10);
        out.push(c);
        out
    }
}

/// No two numbers are written alike.
pub proof fn law_decimals_are_distinct(a: nat, b: nat)
    requires
        decimal(a) == decimal(b),
    ensures
        a == b,
    decreases a,
{
    lemma_decimal_filled(a / 10);
    lemma_decimal_filled(b / 10);
    if a < 10 && b < 10 {
        assert(decimal(a)[0] == digit(a as int) && decimal(b)[0] == digit(b as int));
    } else if a >= 10 && b >= 10 {
        assert(decimal(a).drop_last() =~= decimal(a / 10));
        assert(decimal(b).drop_last() =~= decimal(b / 10));
        law_decimals_are_distinct(a / 10, b / 10);
        assert(decimal(a).last() == digit((a % 10) as int));
        assert(decimal(b).last() == digit((b % 10) as int));
    } else if a < 10 {
        assert(decimal(b).len() >= 2);
    } else {
        assert(decimal(a).len() >= 2);
    }
}

proof fn lemma_decimal_filled(n: nat)
    ensures
        decimal(n).len() >= 1,
    decreases n,
{
    if n >= 10 {
        lemma_decimal_filled(n / 10);
    }
}

/// A text of white space alone.
pub open spec fn is_blank(s: Seq<char>) -> bool {
    forall|i: int| 0 <= i < s.len() ==> is_space(#[trigger] s[i])
}

proof fn lemma_trimmed_start_splits(s: Seq<char>) -> (k: int)
    ensures
        0 <= k <= s.len(),
        trimmed_start(s) == s.skip(k),
        is_blank(s.take(k)),
        k < s.len() ==> !is_space(s[k]),
    decreases s.len(),
{
    if s.len() > 0 && is_space(s[0]) {
        let k = lemma_trimmed_start_splits(s.skip(1));
        assert(s.skip(1).skip(k) =~= s.skip(k + 1));
        assert forall|i: int| 0 <= i < k + 1 implies is_space(#[trigger] s.take(k + 1)[i]) by {
            if i > 0 {
                assert(s.take(k + 1)[i] == s.skip(1).take(k)[i - 1]);
            }
        }
        if k + 1 < s.len() {
            assert(s[k + 1] == s.skip(1)[k]);
        }
        k + 1
    } else {
        assert(s.skip(0) =~= s);
        0
    }
}

proof fn lemma_trimmed_end_splits(s: Seq<char>) -> (k: int)
    ensures
        0 <= k <= s.len(),
        trimmed_end(s) == s.take(k),
        is_blank(s.skip(k)),
        k > 0 ==> !is_space(s[k - 1]),
    decreases s.len(),
{
    if s.len() > 0 && is_space(s.last()) {
        let k = lemma_trimmed_end_splits(s.drop_last());
        assert(s.drop_last().take(k) =~= s.take(k));
        assert forall|i: int| 0 <= i < s.skip(k).len() implies is_space(#[trigger] s.skip(k)[i]) by {
            if k + i < s.len() - 1 {
                assert(s.skip(k)[i] == s.drop_last().skip(k)[i]);
            } else {
                assert(s.skip(k)[i] == s.last());
            }
        }
        k
    } else {
        assert(s.take(s.len() as int) =~= s);
        assert(s.skip(s.len() as int) =~= Seq::empty());
        s.len() as int
    }
}

/// A trimmed text is a stretch of the text: before it and behind it there is white
/// space alone, and it has none at its ends.
pub proof fn law_only_white_space_is_trimmed(s: Seq<char>)
    ensures
        exists|a: int, b: int|
            0 <= a <= b <= s.len() && #[trigger] s.subrange(a, b) == trimmed(s) && is_blank(s.take(a))
                && is_blank(s.skip(b)),
        trimmed(s).len() > 0 ==> !is_space(trimmed(s)[0]) && !is_space(trimmed(s).last()),
{
    let a = lemma_trimmed_start_splits(s);
    let t = s.skip(a);
    let k = lemma_trimmed_end_splits(t);
    let b = a + k;
    assert(s.subrange(a, b) =~= t.take(k));
    assert(s.skip(b) =~= t.skip(k));
    assert(s.subrange(a, b) == trimmed(s));
    if k > 0 {
        assert(t.take(k)[0] == s[a]);
        assert(t.take(k).last() == t[k - 1]);
    }
}

/// What stands between the separators, joined with the separator, is the text
/// again, and none of it holds the separator.
pub proof fn law_split_parts_join_again(s: Seq<char>, c: char)
    ensures
        joined(split_of(s, c), seq![c]) == s,
        forall|i: int| 0 <= i < split_of(s, c).len() ==> !(#[trigger] split_of(s, c)[i]).contains(c),
        split_of(s, c).len() > 0,
    decreases s.len(),
{
    lemma_index_of(s, c, 0);
    let parts = split_of(s, c);
    match index_of(s, c, 0) {
        Some(i) => {
            let rest = s.skip(i + 1);
            law_split_parts_join_again(rest, c);
            assert(parts.skip(1) =~= split_of(rest, c));
            assert(parts[0] == s.take(i));
            assert(joined(parts, seq![c]) =~= s);
            assert forall|j: int| 0 <= j < parts.len() implies !(#[trigger] parts[j]).contains(c) by {
                if j > 0 {
                    assert(parts[j] == split_of(rest, c)[j - 1]);
                } else if parts[0].contains(c) {
                    let k = choose|k: int| 0 <= k < parts[0].len() && parts[0][k] == c;
                    assert(s[k] == c);
                }
            }
        },
        None => {
            if s.contains(c) {
                let k = choose|k: int| 0 <= k < s.len() && s[k] == c;
                assert(s[k] == c);
            }
        },
    }
}

proof fn lemma_index_of_is(s: Seq<char>, c: char, from: int, i: int)
    requires
        0 <= from <= i < s.len(),
        s[i] == c,
        forall|j: int| from <= j < i ==> s[j] != c,
    ensures
        index_of(s, c, from) == Some(i),
    decreases i - from,
{
    if from < i {
        lemma_index_of_is(s, c, from + 1, i);
    }
}

/// Each newline ends a line, with the carriage return before it where there is
/// one; what follows the last newline is a line unless it is empty.
pub proof fn law_newlines_end_lines(line: Seq<char>, rest: Seq<char>)
    requires
        !line.contains('\n'),
    ensures
        lines_of(line.push('\n') + rest) == seq![
            if line.len() > 0 && line.last() == '\r' {
                line.drop_last()
            } else {
                line
            },
        ] + lines_of(rest),
        lines_of(line) == (if line.len() > 0 {
            seq![line]
        } else {
            Seq::empty()
        }),
{
    let s = line.push('\n') + rest;
    let n = line.len() as int;
    assert forall|j: int| 0 <= j < n implies s[j] != '\n' by {
        assert(s[j] == line[j]);
    }
    assert(s[n] == '\n');
    lemma_index_of_is(s, '\n', 0, n);
    assert(s.take(n) =~= line);
    assert(s.skip(n + 1) =~= rest);
    lemma_index_of(line, '\n', 0);
}

/// The number that the digits write.
pub open spec fn decimal_value(s: Seq<char>) -> int
    decreases s.len(),
{
    if s.len() == 0 {
        0
    } else {
        10 * decimal_value(s.drop_last()) + (s.last() as int - '0' as int)
    }
}

/// A number that is written reads as that number.
pub proof fn law_decimals_are_read(n: nat)
    ensures
        decimal_value(decimal(n)) == n,
    decreases n,
{
    reveal_with_fuel(decimal_value, 2);
    if n < 10 {
        let d = digit(n as int);
        assert(d as int == n + 48);
        assert(decimal(n).drop_last() =~= Seq::empty());
        assert(decimal(n).last() == d);
    } else {
        law_decimals_are_read(n / 10);
        let d = digit((n % 10) as int);
        assert(d as int == n % 10 + 48);
        assert(decimal(n).drop_last() =~= decimal(n / 10));
        assert(decimal(n).last() == d);
    }
}

/// Nothing is replaced where there is nothing to replace; the first occurrence is
/// replaced, and then it goes on behind it.
pub proof fn law_occurrences_are_replaced(
    before: Seq<char>,
    pat: Seq<char>,
    behind: Seq<char>,
    new: Seq<char>,
)
    requires
        pat.len() > 0,
        forall|k: int|
            0 <= k < before.len() ==> !#[trigger] occurs_at(before + pat + behind, pat, k),
    ensures
        sub_replaced(before + pat + behind, pat, new) == before + new + sub_replaced(
            behind,
            pat,
            new,
        ),
        !has_sub(before, pat) ==> sub_replaced(before, pat, new) == before,
{
    let s = before + pat + behind;
    let n = before.len() as int;
    assert(s.subrange(n, n + pat.len()) =~= pat);
    assert(occurs_at(s, pat, n));
    lemma_index_of_sub(s, pat, 0);
    assert(index_of_sub(s, pat, 0) == Some(n)) by {
        match index_of_sub(s, pat, 0) {
            Some(i) => {
                if i < n {
                    assert(occurs_at(s, pat, i));
                }
            },
            None => {},
        }
    }
    assert(s.take(n) =~= before);
    assert(s.skip(n + pat.len()) =~= behind);
    lemma_has_sub(before, pat);
}

} // verus!
