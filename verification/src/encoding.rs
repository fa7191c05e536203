//! Text encodings of clipboard and drag data, and the two framed formats in
//! which browsers hand over their own types.

use vstd::prelude::*;
use crate::outside;
use crate::table;
use crate::table::StringMap;
use crate::text;

verus! {

// ---------------------------------------------------------------------------
// UTF-16
// ---------------------------------------------------------------------------

/// The unit is the first half of a surrogate pair.
pub open spec fn is_high(u: u16) -> bool {
    0xD800 <= u <= 0xDBFF
}

/// The unit is the second half of a surrogate pair.
pub open spec fn is_low(u: u16) -> bool {
    0xDC00 <= u <= 0xDFFF
}

/// The character that a surrogate pair stands for.
pub open spec fn pair_char(high: u16, low: u16) -> char {
    (0x10000 + 0x400 * (high - 0xD800) + (low - 0xDC00)) as char
}

/// The text that the units encode, with U+FFFD for each half of a pair that
/// stands alone.
pub open spec fn utf16_lossy(u: Seq<u16>) -> Seq<char>
    decreases u.len(),
{
    if u.len() == 0 {
        Seq::empty()
    } else if is_high(u[0]) && u.len() >= 2 && is_low(u[1]) {
        seq![pair_char(u[0], u[1])] + utf16_lossy(u.skip(2))
    } else if is_high(u[0]) || is_low(u[0]) {
        seq!['\u{FFFD}'] + utf16_lossy(u.skip(1))
    } else {
        seq![u[0] as char] + utf16_lossy(u.skip(1))
    }
}

/// No half of a surrogate pair stands alone.
pub open spec fn utf16_valid(u: Seq<u16>) -> bool
    decreases u.len(),
{
    if u.len() == 0 {
        true
    } else if is_high(u[0]) && u.len() >= 2 && is_low(u[1]) {
        utf16_valid(u.skip(2))
    } else if is_high(u[0]) || is_low(u[0]) {
        false
    } else {
        utf16_valid(u.skip(1))
    }
}

/// The units of the characters.
pub open spec fn utf16_units(s: Seq<char>) -> Seq<u16>
    decreases s.len(),
{
    if s.len() == 0 {
        Seq::empty()
    } else {
        char_units(s[0]) + utf16_units(s.skip(1))
    }
}

/// The one or two units of a character.
pub open spec fn char_units(c: char) -> Seq<u16> {
    let n = c as int;
    if n < 0x10000 {
        seq![n as u16]
    } else {
        seq![(0xD800 + (n - 0x10000) / 0x400) as u16, (0xDC00 + (n - 0x10000) % 0x400) as u16]
    }
}

/// The units that pairs of bytes make, the low byte first. An odd byte at the
/// end is left out.
pub open spec fn units_le(b: Seq<u8>) -> Seq<u16> {
    Seq::new((b.len() / 2) as nat, |i: int| (b[2 * i] + 256 * b[2 * i + 1]) as u16)
}

/// The units that pairs of bytes make, the high byte first.
pub open spec fn units_be(b: Seq<u8>) -> Seq<u16> {
    Seq::new((b.len() / 2) as nat, |i: int| (b[2 * i + 1] + 256 * b[2 * i]) as u16)
}

/// The units before the first zero.
pub open spec fn until_zero(u: Seq<u16>) -> Seq<u16>
    decreases u.len(),
{
    if u.len() == 0 || u[0] == 0 {
        Seq::empty()
    } else {
        seq![u[0]] + until_zero(u.skip(1))
    }
}

/// The bytes of the units, the low byte of each first.
pub open spec fn bytes_le(u: Seq<u16>) -> Seq<u8> {
    Seq::new(
        2 * u.len(),
        |i: int|
            if i % 2 == 0 {
                (u[i / 2] % 256) as u8
            } else {
                (u[i / 2] / 256) as u8
            },
    )
}

/// The bytes of the units, the high byte of each first.
pub open spec fn bytes_be(u: Seq<u16>) -> Seq<u8> {
    Seq::new(
        2 * u.len(),
        |i: int|
            if i % 2 == 0 {
                (u[i / 2] / 256) as u8
            } else {
                (u[i / 2] % 256) as u8
            },
    )
}

proof fn lemma_char_range(c: char)
    ensures
        outside::is_scalar_value(c as int),
        (c as int) as char == c,
{
}

/// Units that encode text decode to that text, and hold no half pair.
pub proof fn law_utf16_round_trip(s: Seq<char>)
    ensures
        utf16_lossy(utf16_units(s)) == s,
        utf16_valid(utf16_units(s)),
    decreases s.len(),
{
    let u = utf16_units(s);
    if s.len() > 0 {
        law_utf16_round_trip(s.skip(1));
        lemma_char_range(s[0]);
        let n = s[0] as int;
        let rest = utf16_units(s.skip(1));
        if n < 0x10000 {
            assert(u.skip(1) =~= rest);
            assert(u[0] as int == n);
            assert(utf16_lossy(u) =~= s);
        } else {
            let m = n - 0x10000;
            assert(0 <= m < 0x100000);
            assert(m == 0x400 * (m / 0x400) + m % 0x400);
            assert(0 <= m / 0x400 < 0x400);
            assert(u.skip(2) =~= rest);
            assert(u[0] as int == 0xD800 + m / 0x400);
            assert(u[1] as int == 0xDC00 + m % 0x400);
            assert(pair_char(u[0], u[1]) == s[0]);
            assert(utf16_lossy(u) =~= s);
        }
    } else {
        assert(utf16_lossy(u) =~= s);
    }
}

/// The bytes of units give the units back.
pub proof fn law_units_round_trip(u: Seq<u16>)
    ensures
        units_le(bytes_le(u)) == u,
        units_be(bytes_be(u)) == u,
{
    let b = bytes_le(u);
    let c = bytes_be(u);
    assert forall|i: int| 0 <= i < u.len() implies units_le(b)[i] == u[i] && units_be(c)[i] == u[i] by {
        assert((2 * i) % 2 == 0 && (2 * i) / 2 == i);
        assert((2 * i + 1) % 2 == 1 && (2 * i + 1) / 2 == i);
        assert(b[2 * i] as int == u[i] as int % 256);
        assert(b[2 * i + 1] as int == u[i] as int / 256);
        assert(c[2 * i] as int == u[i] as int / 256);
        assert(c[2 * i + 1] as int == u[i] as int % 256);
    }
    assert(units_le(b) =~= u);
    assert(units_be(c) =~= u);
}

/// The units of a byte string, the low byte of each first.
pub fn to_units_le(b: &[u8]) -> (r: Vec<u16>)
    ensures
        r@ == units_le(b@),
{
    let n: usize = b.len() / 2;
    let mut out: Vec<u16> = Vec::new();
    let mut i: usize = 0;
    while i < n
        invariant
            i <= n,
            n == b.len() / 2,
            out@ == units_le(b@).take(i as int),
        decreases n - i,
    {
        let x: u16 = b[2 * i] as u16 + 256 * (b[2 * i + 1] as u16);
        out.push(x);
        assert(x == units_le(b@)[i as int]);
        i = i + 1;
        assert(units_le(b@).take(i as int) =~= units_le(b@).take(i - 1).push(x));
    }
    assert(units_le(b@).take(i as int) =~= units_le(b@));
    out
}

/// The units of a byte string, the high byte of each first.
pub fn to_units_be(b: &[u8]) -> (r: Vec<u16>)
    ensures
        r@ == units_be(b@),
{
    let n: usize = b.len() / 2;
    let mut out: Vec<u16> = Vec::new();
    let mut i: usize = 0;
    while i < n
        invariant
            i <= n,
            n == b.len() / 2,
            out@ == units_be(b@).take(i as int),
        decreases n - i,
    {
        let x: u16 = b[2 * i + 1] as u16 + 256 * (b[2 * i] as u16);
        out.push(x);
        assert(x == units_be(b@)[i as int]);
        i = i + 1;
        assert(units_be(b@).take(i as int) =~= units_be(b@).take(i - 1).push(x));
    }
    assert(units_be(b@).take(i as int) =~= units_be(b@));
    out
}

/// The units of a string.
pub fn to_utf16(s: &str) -> (r: Vec<u16>)
    ensures
        r@ == utf16_units(s@),
{
    let v: Vec<char> = text::chars_of(s);
    let mut out: Vec<u16> = Vec::new();
    let mut i: usize = 0;
    assert(v@.skip(0) =~= s@);
    while i < v.len()
        invariant
            i <= v.len(),
            v@ == s@,
            out@ + utf16_units(v@.skip(i as int)) == utf16_units(s@),
        decreases v.len() - i,
    {
        let ghost before = out@;
        let c: char = v[i];
        proof {
            lemma_char_range(c);
        }
        let n: u32 = c as u32;
        if n < 0x10000 {
            out.push(n as u16);
        } else {
            let m: u32 = n - 0x10000;
            out.push((0xD800 + m / 0x400) as u16);
            out.push((0xDC00 + m % 0x400) as u16);
        }
        assert(out@ =~= before + char_units(v@[i as int]));
        assert(v@.skip(i as int).skip(1) =~= v@.skip(i + 1));
        assert(out@ + utf16_units(v@.skip(i + 1)) =~= before + (char_units(v@[i as int])
            + utf16_units(v@.skip(i + 1))));
        i = i + 1;
    }
    assert(out@ + utf16_units(v@.skip(i as int)) =~= out@);
    out
}

/// The bytes of the units, the low byte of each first.
pub fn to_bytes_le(u: &[u16]) -> (r: Vec<u8>)
    ensures
        r@ == bytes_le(u@),
{
    let mut out: Vec<u8> = Vec::new();
    let mut i: usize = 0;
    while i < u.len()
        invariant
            i <= u.len(),
            out@ == bytes_le(u@).take(2 * i),
        decreases u.len() - i,
    {
        out.push((u[i] % 256) as u8);
        out.push((u[i] / 256) as u8);
        i = i + 1;
        assert((2 * i - 2) % 2 == 0 && (2 * i - 2) / 2 == i - 1);
        assert((2 * i - 1) % 2 == 1 && (2 * i - 1) / 2 == i - 1);
        assert(out@ =~= bytes_le(u@).take(2 * i));
    }
    assert(bytes_le(u@).take(2 * i) =~= bytes_le(u@));
    out
}

fn pair_to_char(high: u16, low: u16) -> (r: char)
    requires
        is_high(high),
        is_low(low),
    ensures
        r == pair_char(high, low),
{
    let n: u32 = 0x10000 + 0x400 * (high as u32 - 0xD800) + (low as u32 - 0xDC00);
    match char::from_u32(n) {
        Some(c) => c,
        None => '\u{FFFD}',
    }
}

fn unit_to_char(unit: u16) -> (r: char)
    requires
        !is_high(unit),
        !is_low(unit),
    ensures
        r == unit as char,
{
    match char::from_u32(unit as u32) {
        Some(c) => c,
        None => '\u{FFFD}',
    }
}

/// The text that the units encode, with U+FFFD for each half pair that stands
/// alone.
pub fn from_utf16_lossy(u: &[u16]) -> (r: String)
    ensures
        r@ == utf16_lossy(u@),
{
    let mut out: String = String::new();
    let mut i: usize = 0;
    assert(u@.skip(0) =~= u@);
    assert(out@ + utf16_lossy(u@) =~= utf16_lossy(u@));
    while i < u.len()
        invariant
            i <= u.len(),
            out@ + utf16_lossy(u@.skip(i as int)) == utf16_lossy(u@),
        decreases u.len() - i,
    {
        let ghost before = out@;
        let ghost rest = u@.skip(i as int);
        let x: u16 = u[i];
        assert(rest[0] == x);
        let high: bool = 0xD800 <= x && x <= 0xDBFF;
        let low: bool = 0xDC00 <= x && x <= 0xDFFF;
        if high && i + 1 < u.len() && 0xDC00 <= u[i + 1] && u[i + 1] <= 0xDFFF {
            assert(rest[1] == u@[i + 1]);
            let c: char = pair_to_char(x, u[i + 1]);
            out.push(c);
            assert(rest.skip(2) =~= u@.skip(i + 2));
            assert(out@ + utf16_lossy(u@.skip(i + 2)) =~= before + (seq![c] + utf16_lossy(
                u@.skip(i + 2),
            )));
            i = i + 2;
        } else {
            assert(rest.len() >= 2 ==> rest[1] == u@[i + 1]);
            let c: char = if high || low {
                '\u{FFFD}'
            } else {
                unit_to_char(x)
            };
            out.push(c);
            assert(rest.skip(1) =~= u@.skip(i + 1));
            assert(out@ + utf16_lossy(u@.skip(i + 1)) =~= before + (seq![c] + utf16_lossy(
                u@.skip(i + 1),
            )));
            i = i + 1;
        }
    }
    assert(out@ + utf16_lossy(u@.skip(i as int)) =~= out@);
    out
}

/// The text that the units encode, where no half pair stands alone.
pub fn from_utf16(u: &[u16]) -> (r: Option<String>)
    ensures
        match r {
            Some(s) => utf16_valid(u@) && s@ == utf16_lossy(u@),
            None => !utf16_valid(u@),
        },
{
    let mut i: usize = 0;
    assert(u@.skip(0) =~= u@);
    while i < u.len()
        invariant
            i <= u.len(),
            utf16_valid(u@.skip(i as int)) == utf16_valid(u@),
        decreases u.len() - i,
    {
        let ghost rest = u@.skip(i as int);
        let x: u16 = u[i];
        assert(rest[0] == x);
        assert(rest.len() >= 2 ==> rest[1] == u@[i + 1]);
        let high: bool = 0xD800 <= x && x <= 0xDBFF;
        let low: bool = 0xDC00 <= x && x <= 0xDFFF;
        if high && i + 1 < u.len() && 0xDC00 <= u[i + 1] && u[i + 1] <= 0xDFFF {
            assert(rest.skip(2) =~= u@.skip(i + 2));
            i = i + 2;
        } else if high || low {
            return None;
        } else {
            assert(rest.skip(1) =~= u@.skip(i + 1));
            i = i + 1;
        }
    }
    Some(from_utf16_lossy(u))
}

/// The units before the first zero.
pub fn take_until_zero(u: &[u16]) -> (r: Vec<u16>)
    ensures
        r@ == until_zero(u@),
{
    let mut out: Vec<u16> = Vec::new();
    let mut i: usize = 0;
    assert(u@.skip(0) =~= u@);
    assert(out@ + until_zero(u@) =~= until_zero(u@));
    while i < u.len()
        invariant
            i <= u.len(),
            out@ + until_zero(u@.skip(i as int)) == until_zero(u@),
        decreases u.len() - i,
    {
        let ghost before = out@;
        assert(u@.skip(i as int)[0] == u@[i as int]);
        assert(u@.skip(i as int).skip(1) =~= u@.skip(i + 1));
        if u[i] == 0 {
            assert(out@ + until_zero(u@.skip(i as int)) =~= out@);
            return out;
        }
        out.push(u[i]);
        assert(out@ + until_zero(u@.skip(i + 1)) =~= before + (seq![u@[i as int]] + until_zero(
            u@.skip(i + 1),
        )));
        i = i + 1;
    }
    assert(out@ + until_zero(u@.skip(i as int)) =~= out@);
    out
}

/// Text of little-endian UTF-16, with U+FFFD for each half pair that stands
/// alone. An odd byte at the end is left out.
pub fn decode_utf16le(data: &[u8]) -> (r: String)
    ensures
        r@ == utf16_lossy(units_le(data@)),
{
    let u: Vec<u16> = to_units_le(data);
    from_utf16_lossy(u.as_slice())
}

/// What little-endian UTF-16 bytes say up to their first zero unit, where they
/// are whole units and hold no half pair alone.
pub open spec fn utf16_le_text(b: Seq<u8>) -> Option<Seq<char>> {
    let u = until_zero(units_le(b));
    if b.len() % 2 == 0 && utf16_valid(u) {
        Some(utf16_lossy(u))
    } else {
        None
    }
}

/// What big-endian UTF-16 bytes say up to their first zero unit, where they are
/// whole units and hold no half pair alone.
pub open spec fn utf16_be_text(b: Seq<u8>) -> Option<Seq<char>> {
    let u = until_zero(units_be(b));
    if b.len() % 2 == 0 && utf16_valid(u) {
        Some(utf16_lossy(u))
    } else {
        None
    }
}

/// Text of little-endian UTF-16 up to its first zero unit.
pub fn decode_utf16_le(data: &[u8]) -> (r: Option<String>)
    ensures
        text::opt_view(r) == utf16_le_text(data@),
{
    if data.len() % 2 != 0 {
        return None;
    }
    let u: Vec<u16> = to_units_le(data);
    let t: Vec<u16> = take_until_zero(u.as_slice());
    from_utf16(t.as_slice())
}

/// Text of big-endian UTF-16 up to its first zero unit.
pub fn decode_utf16_be(data: &[u8]) -> (r: Option<String>)
    ensures
        text::opt_view(r) == utf16_be_text(data@),
{
    if data.len() % 2 != 0 {
        return None;
    }
    let u: Vec<u16> = to_units_be(data);
    let t: Vec<u16> = take_until_zero(u.as_slice());
    from_utf16(t.as_slice())
}

// ---------------------------------------------------------------------------
// Text of unknown encoding
// ---------------------------------------------------------------------------

/// The index of the first zero byte, not before `from`; the length where there
/// is none.
pub open spec fn zero_byte(b: Seq<u8>, from: int) -> int
    decreases b.len() - from,
{
    if from >= b.len() {
        b.len() as int
    } else if b[from] == 0 {
        from
    } else {
        zero_byte(b, from + 1)
    }
}

/// The index of the first pair of zero bytes, counted in pairs from `from`.
pub open spec fn zero_pair(b: Seq<u8>, from: int) -> Option<int>
    decreases b.len() - from,
{
    if from + 1 >= b.len() {
        None
    } else if b[from] == 0 && b[from + 1] == 0 {
        Some(from)
    } else {
        zero_pair(b, from + 2)
    }
}

/// How many of the first `n` pairs of bytes are an ASCII character other than
/// NUL in little-endian UTF-16.
pub open spec fn ascii_pairs(b: Seq<u8>, n: int) -> int
    decreases n,
{
    if n <= 0 {
        0
    } else {
        ascii_pairs(b, n - 1) + if b[2 * n - 1] == 0 && 0 < b[2 * n - 2] < 128 {
            1int
        } else {
            0
        }
    }
}

/// More than half of the first ten pairs of bytes are an ASCII character in
/// little-endian UTF-16.
pub open spec fn seems_utf16_le(b: Seq<u8>) -> bool {
    let n: int = if b.len() / 2 < 10 {
        b.len() as int / 2
    } else {
        10
    };
    b.len() >= 4 && ascii_pairs(b, n) > n / 2
}

/// How many of the first `n` pairs of bytes are an ASCII character other than
/// NUL in big-endian UTF-16.
pub open spec fn ascii_pairs_be(b: Seq<u8>, n: int) -> int
    decreases n,
{
    if n <= 0 {
        0
    } else {
        ascii_pairs_be(b, n - 1) + if b[2 * n - 2] == 0 && 0 < b[2 * n - 1] < 128 {
            1int
        } else {
            0
        }
    }
}

/// More than half of the first ten pairs of bytes are an ASCII character in
/// big-endian UTF-16.
pub open spec fn seems_utf16_be(b: Seq<u8>) -> bool {
    let n: int = if b.len() / 2 < 10 {
        b.len() as int / 2
    } else {
        10
    };
    b.len() >= 4 && ascii_pairs_be(b, n) > n / 2
}

/// The bytes begin with the byte order mark of little-endian UTF-16.
pub open spec fn has_bom_le(b: Seq<u8>) -> bool {
    b.len() >= 2 && b[0] == 0xFF && b[1] == 0xFE
}

/// The bytes begin with the byte order mark of big-endian UTF-16.
pub open spec fn has_bom_be(b: Seq<u8>) -> bool {
    b.len() >= 2 && b[0] == 0xFE && b[1] == 0xFF
}

/// The bytes begin with the byte order mark of UTF-8.
pub open spec fn has_bom_utf8(b: Seq<u8>) -> bool {
    b.len() >= 3 && b[0] == 0xEF && b[1] == 0xBB && b[2] == 0xBF
}

/// The bytes before the terminating zero, which is a pair of zeros in UTF-16.
pub open spec fn before_terminator(b: Seq<u8>) -> Seq<u8> {
    if has_bom_le(b) || has_bom_be(b) {
        match zero_pair(b.skip(2), 0) {
            Some(i) => b.take(i + 2),
            None => b,
        }
    } else if seems_utf16_le(b) || seems_utf16_be(b) {
        match zero_pair(b, 0) {
            Some(i) => b.take(i),
            None => b,
        }
    } else {
        b.take(zero_byte(b, 0))
    }
}

/// The bytes without the byte order mark of UTF-8.
pub open spec fn without_utf8_bom(b: Seq<u8>) -> Seq<u8> {
    if has_bom_utf8(b) {
        b.skip(3)
    } else {
        b
    }
}

/// The text of bytes that end where the text ends: UTF-16 by its mark, then
/// UTF-16 by its look, then UTF-8.
pub open spec fn detected_text(b: Seq<u8>) -> Seq<char> {
    if has_bom_le(b) && utf16_le_text(b.skip(2)) is Some {
        utf16_le_text(b.skip(2))->0
    } else if has_bom_be(b) && utf16_be_text(b.skip(2)) is Some {
        utf16_be_text(b.skip(2))->0
    } else if seems_utf16_le(b) && utf16_le_text(b) is Some {
        utf16_le_text(b)->0
    } else if seems_utf16_be(b) && utf16_be_text(b) is Some {
        utf16_be_text(b)->0
    } else if vstd::utf8::valid_utf8(b) {
        vstd::utf8::decode_utf8(b)
    } else {
        outside::utf8_lossy_decoded(b)
    }
}

/// The text that bytes of unknown encoding hold.
pub open spec fn decoded_text(b: Seq<u8>) -> Seq<char> {
    if b.len() == 0 {
        Seq::empty()
    } else {
        detected_text(without_utf8_bom(before_terminator(b)))
    }
}

/// Whether the bytes look like little-endian UTF-16.
pub fn looks_like_utf16_le(data: &[u8]) -> (r: bool)
    ensures
        r == seems_utf16_le(data@),
{
    if data.len() < 4 {
        return false;
    }
    let n: usize = if data.len() / 2 < 10 {
        data.len() / 2
    } else {
        10
    };
    let mut count: usize = 0;
    let mut i: usize = 0;
    while i < n
        invariant
            i <= n <= 10,
            2 * n <= data.len(),
            count == ascii_pairs(data@, i as int),
            count <= i,
        decreases n - i,
    {
        if data[2 * i + 1] == 0 && data[2 * i] != 0 && data[2 * i] < 128 {
            count = count + 1;
        }
        i = i + 1;
    }
    count > n / 2
}

/// Whether the bytes look like big-endian UTF-16.
pub fn looks_like_utf16_be(data: &[u8]) -> (r: bool)
    ensures
        r == seems_utf16_be(data@),
{
    if data.len() < 4 {
        return false;
    }
    let n: usize = if data.len() / 2 < 10 {
        data.len() / 2
    } else {
        10
    };
    let mut count: usize = 0;
    let mut i: usize = 0;
    while i < n
        invariant
            i <= n <= 10,
            2 * n <= data.len(),
            count == ascii_pairs_be(data@, i as int),
            count <= i,
        decreases n - i,
    {
        if data[2 * i] == 0 && data[2 * i + 1] != 0 && data[2 * i + 1] < 128 {
            count = count + 1;
        }
        i = i + 1;
    }
    count > n / 2
}

/// The first pair of zero bytes on an even boundary.
pub fn find_utf16_null(data: &[u8]) -> (r: Option<usize>)
    ensures
        match r {
            Some(i) => zero_pair(data@, 0) == Some(i as int) && i + 1 < data.len(),
            None => zero_pair(data@, 0) is None,
        },
{
    let mut i: usize = 0;
    while i < data.len() && data.len() - i >= 2
        invariant
            i <= data.len(),
            zero_pair(data@, 0) == zero_pair(data@, i as int),
        decreases data.len() - i,
    {
        if data[i] == 0 && data[i + 1] == 0 {
            return Some(i);
        }
        i = i + 2;
    }
    None
}

fn find_zero_byte(data: &[u8]) -> (r: usize)
    ensures
        r == zero_byte(data@, 0),
        r <= data.len(),
{
    let mut i: usize = 0;
    while i < data.len()
        invariant
            i <= data.len(),
            zero_byte(data@, 0) == zero_byte(data@, i as int),
        decreases data.len() - i,
    {
        if data[i] == 0 {
            return i;
        }
        i = i + 1;
    }
    i
}

fn skip_bytes(data: &[u8], n: usize) -> (r: &[u8])
    requires
        n <= data.len(),
    ensures
        r@ == data@.skip(n as int),
{
    let r = vstd::slice::slice_subrange(data, n, data.len());
    assert(r@ =~= data@.skip(n as int));
    r
}

fn take_bytes(data: &[u8], n: usize) -> (r: &[u8])
    requires
        n <= data.len(),
    ensures
        r@ == data@.take(n as int),
{
    let r = vstd::slice::slice_subrange(data, 0, n);
    assert(r@ =~= data@.take(n as int));
    r
}

fn cut_at_terminator(data: &[u8]) -> (r: &[u8])
    ensures
        r@ == before_terminator(data@),
{
    if data.len() >= 2 && ((data[0] == 0xFF && data[1] == 0xFE) || (data[0] == 0xFE && data[1]
        == 0xFF)) {
        match find_utf16_null(skip_bytes(data, 2)) {
            Some(i) => take_bytes(data, i + 2),
            None => data,
        }
    } else if looks_like_utf16_le(data) || looks_like_utf16_be(data) {
        match find_utf16_null(data) {
            Some(i) => take_bytes(data, i),
            None => data,
        }
    } else {
        let n: usize = find_zero_byte(data);
        take_bytes(data, n)
    }
}

fn text_of(data: &[u8]) -> (r: String)
    ensures
        r@ == detected_text(data@),
{
    if data.len() >= 2 && data[0] == 0xFF && data[1] == 0xFE {
        if let Some(s) = decode_utf16_le(skip_bytes(data, 2)) {
            return s;
        }
    }
    if data.len() >= 2 && data[0] == 0xFE && data[1] == 0xFF {
        if let Some(s) = decode_utf16_be(skip_bytes(data, 2)) {
            return s;
        }
    }
    if looks_like_utf16_le(data) {
        if let Some(s) = decode_utf16_le(data) {
            return s;
        }
    }
    if looks_like_utf16_be(data) {
        if let Some(s) = decode_utf16_be(data) {
            return s;
        }
    }
    if let Some(s) = outside::utf8_strict(data) {
        return s;
    }
    outside::utf8_lossy(data)
}

/// The text that clipboard or drag data holds: UTF-8, or UTF-16 of either byte
/// order, with or without a byte order mark, up to its terminating zero. What
/// is none of these is read as UTF-8 with replacement characters.
pub fn decode_string(data: &[u8]) -> (r: String)
    ensures
        r@ == decoded_text(data@),
{
    if data.len() == 0 {
        return String::new();
    }
    let cut: &[u8] = cut_at_terminator(data);
    let body: &[u8] = if cut.len() >= 3 && cut[0] == 0xEF && cut[1] == 0xBB && cut[2] == 0xBF {
        skip_bytes(cut, 3)
    } else {
        cut
    };
    text_of(body)
}

proof fn lemma_no_zero_byte(b: Seq<u8>, from: int)
    requires
        0 <= from <= b.len(),
        forall|i: int| 0 <= i < b.len() ==> b[i] != 0,
    ensures
        zero_byte(b, from) == b.len(),
    decreases b.len() - from,
{
    if from < b.len() {
        lemma_no_zero_byte(b, from + 1);
    }
}

proof fn lemma_no_ascii_pairs(b: Seq<u8>, n: int)
    requires
        0 <= 2 * n <= b.len(),
        forall|i: int| 0 <= i < b.len() ==> b[i] != 0,
    ensures
        ascii_pairs(b, n) == 0,
        ascii_pairs_be(b, n) == 0,
    decreases n,
{
    if n > 0 {
        lemma_no_ascii_pairs(b, n - 1);
    }
}

proof fn lemma_no_utf16_look(b: Seq<u8>)
    requires
        forall|i: int| 0 <= i < b.len() ==> b[i] != 0,
    ensures
        !seems_utf16_le(b),
        !seems_utf16_be(b),
{
    let n: int = if b.len() / 2 < 10 {
        b.len() as int / 2
    } else {
        10
    };
    lemma_no_ascii_pairs(b, n);
}

/// UTF-8 text without a zero byte and without a byte order mark is read as
/// what it is.
pub proof fn law_utf8_is_read(b: Seq<u8>)
    requires
        vstd::utf8::valid_utf8(b),
        forall|i: int| 0 <= i < b.len() ==> b[i] != 0,
        !has_bom_utf8(b),
    ensures
        decoded_text(b) == vstd::utf8::decode_utf8(b),
{
    if b.len() > 0 {
        lemma_no_utf16_look(b);
        lemma_no_zero_byte(b, 0);
        assert(b.take(b.len() as int) =~= b);
    } else {
        assert(vstd::utf8::decode_utf8(b) =~= Seq::<char>::empty());
    }
}

/// UTF-8 text without a zero byte behind a byte order mark is read as what it
/// is.
pub proof fn law_marked_utf8_is_read(b: Seq<u8>)
    requires
        vstd::utf8::valid_utf8(b),
        forall|i: int| 0 <= i < b.len() ==> b[i] != 0,
    ensures
        decoded_text(seq![0xEFu8, 0xBBu8, 0xBFu8] + b) == vstd::utf8::decode_utf8(b),
{
    let m = seq![0xEFu8, 0xBBu8, 0xBFu8] + b;
    lemma_no_utf16_look(m);
    lemma_no_zero_byte(m, 0);
    assert(m.take(m.len() as int) =~= m);
    assert(m.skip(3) =~= b);
    lemma_no_utf16_look(b);
}

proof fn lemma_no_zero_pair(u: Seq<u16>, from: int)
    requires
        0 <= from <= u.len(),
        forall|i: int| 0 <= i < u.len() ==> u[i] != 0,
    ensures
        zero_pair(bytes_le(u), 2 * from) is None,
        zero_pair(bytes_be(u), 2 * from) is None,
    decreases u.len() - from,
{
    if from < u.len() {
        let b = bytes_le(u);
        assert((2 * from) % 2 == 0 && (2 * from) / 2 == from);
        assert((2 * from + 1) % 2 == 1 && (2 * from + 1) / 2 == from);
        assert(b[2 * from] as int == u[from] as int % 256);
        assert(b[2 * from + 1] as int == u[from] as int / 256);
        let c = bytes_be(u);
        assert(c[2 * from] as int == u[from] as int / 256);
        assert(c[2 * from + 1] as int == u[from] as int % 256);
        lemma_no_zero_pair(u, from + 1);
    }
}

proof fn lemma_until_zero_all(u: Seq<u16>)
    requires
        forall|i: int| 0 <= i < u.len() ==> u[i] != 0,
    ensures
        until_zero(u) == u,
    decreases u.len(),
{
    if u.len() > 0 {
        lemma_until_zero_all(u.skip(1));
        assert(until_zero(u) =~= u);
    } else {
        assert(until_zero(u) =~= u);
    }
}

/// The units before the first zero of units without one and a zero behind
/// them.
pub proof fn lemma_until_zero_push(u: Seq<u16>)
    requires
        forall|i: int| 0 <= i < u.len() ==> u[i] != 0,
    ensures
        until_zero(u.push(0)) == u,
    decreases u.len(),
{
    let v = u.push(0);
    if u.len() > 0 {
        assert(v.skip(1) =~= u.skip(1).push(0));
        lemma_until_zero_push(u.skip(1));
        assert(until_zero(v) =~= u);
    } else {
        assert(until_zero(v) =~= u);
    }
}

/// Text without NUL has no zero among its units.
pub proof fn lemma_units_not_zero(s: Seq<char>)
    requires
        forall|i: int| 0 <= i < s.len() ==> s[i] != '\0',
    ensures
        forall|i: int| 0 <= i < utf16_units(s).len() ==> utf16_units(s)[i] != 0,
    decreases s.len(),
{
    if s.len() > 0 {
        lemma_units_not_zero(s.skip(1));
        lemma_char_range(s[0]);
        let rest = utf16_units(s.skip(1));
        let head = char_units(s[0]);
        assert forall|i: int| 0 <= i < utf16_units(s).len() implies utf16_units(s)[i] != 0 by {
            if i >= head.len() {
                assert(utf16_units(s)[i] == rest[i - head.len()]);
            } else {
                assert(utf16_units(s)[i] == head[i]);
            }
        }
    }
}

/// Text without NUL that is written in little-endian UTF-16 behind a byte order
/// mark is read back.
pub proof fn law_marked_utf16_is_read(s: Seq<char>)
    requires
        forall|i: int| 0 <= i < s.len() ==> s[i] != '\0',
    ensures
        decoded_text(seq![0xFFu8, 0xFEu8] + bytes_le(utf16_units(s))) == s,
{
    let u = utf16_units(s);
    let b = seq![0xFFu8, 0xFEu8] + bytes_le(u);
    assert(b.skip(2) =~= bytes_le(u));
    lemma_units_not_zero(s);
    lemma_no_zero_pair(u, 0);
    law_units_round_trip(u);
    lemma_until_zero_all(u);
    law_utf16_round_trip(s);
    assert(bytes_le(u).len() % 2 == 0);
}

/// Text without NUL that is written in big-endian UTF-16 behind a byte order
/// mark is read back.
pub proof fn law_marked_utf16_be_is_read(s: Seq<char>)
    requires
        forall|i: int| 0 <= i < s.len() ==> s[i] != '\0',
    ensures
        decoded_text(seq![0xFEu8, 0xFFu8] + bytes_be(utf16_units(s))) == s,
{
    let u = utf16_units(s);
    let b = seq![0xFEu8, 0xFFu8] + bytes_be(u);
    assert(b.skip(2) =~= bytes_be(u));
    lemma_units_not_zero(s);
    lemma_no_zero_pair(u, 0);
    law_units_round_trip(u);
    lemma_until_zero_all(u);
    law_utf16_round_trip(s);
    assert(bytes_be(u).len() % 2 == 0);
}

proof fn lemma_ascii_units(s: Seq<char>)
    requires
        forall|i: int| 0 <= i < s.len() ==> 0 < (#[trigger] s[i]) as int && (s[i] as int) < 128,
    ensures
        utf16_units(s).len() == s.len(),
        forall|i: int| 0 <= i < utf16_units(s).len() ==> 0 < #[trigger] utf16_units(s)[i] < 128,
    decreases s.len(),
{
    if s.len() > 0 {
        let rest = s.skip(1);
        assert forall|i: int| 0 <= i < rest.len() implies 0 < (#[trigger] rest[i]) as int && (
        rest[i] as int) < 128 by {
            assert(rest[i] == s[i + 1]);
        }
        lemma_ascii_units(rest);
        assert(0 < s[0] as int && (s[0] as int) < 128);
        lemma_char_range(s[0]);
        let u = utf16_units(s);
        assert forall|i: int| 0 <= i < u.len() implies 0 < #[trigger] u[i] < 128 by {
            if i > 0 {
                assert(u[i] == utf16_units(rest)[i - 1]);
            }
        }
    }
}

proof fn lemma_ascii_be(u: Seq<u16>, n: int)
    requires
        0 <= n <= u.len(),
        forall|i: int| 0 <= i < u.len() ==> 0 < #[trigger] u[i] < 128,
    ensures
        ascii_pairs_be(bytes_be(u), n) == n,
        ascii_pairs(bytes_be(u), n) == 0,
        ascii_pairs(bytes_le(u), n) == n,
    decreases n,
{
    if n > 0 {
        lemma_ascii_be(u, n - 1);
        assert((2 * n - 2) % 2 == 0 && (2 * n - 2) / 2 == n - 1);
        assert((2 * n - 1) % 2 == 1 && (2 * n - 1) / 2 == n - 1);
        assert(0 < u[n - 1] < 128);
    }
}

proof fn lemma_ascii_bytes(s: Seq<char>)
    requires
        s.len() >= 2,
        forall|i: int| 0 <= i < s.len() ==> 0 < (#[trigger] s[i]) as int && (s[i] as int) < 128,
    ensures
        seems_utf16_le(bytes_le(utf16_units(s))),
        !seems_utf16_le(bytes_be(utf16_units(s))),
        seems_utf16_be(bytes_be(utf16_units(s))),
        bytes_le(utf16_units(s))[0] < 128,
        bytes_be(utf16_units(s))[0] == 0,
        bytes_be(utf16_units(s)).len() >= 4,
        bytes_le(utf16_units(s)).len() >= 4,
{
    let u = utf16_units(s);
    lemma_ascii_units(s);
    let n: int = if u.len() < 10 {
        u.len() as int
    } else {
        10
    };
    assert(bytes_le(u).len() / 2 == u.len() && bytes_be(u).len() / 2 == u.len());
    lemma_ascii_be(u, n);
    assert(0 < u[0] < 128);
}

proof fn lemma_unmarked_text(s: Seq<char>)
    requires
        forall|i: int| 0 <= i < s.len() ==> s[i] != '\0',
    ensures
        zero_pair(bytes_le(utf16_units(s)), 0) is None,
        zero_pair(bytes_be(utf16_units(s)), 0) is None,
        utf16_le_text(bytes_le(utf16_units(s))) == Some(s),
        utf16_be_text(bytes_be(utf16_units(s))) == Some(s),
{
    let u = utf16_units(s);
    lemma_units_not_zero(s);
    lemma_no_zero_pair(u, 0);
    law_units_round_trip(u);
    lemma_until_zero_all(u);
    law_utf16_round_trip(s);
    assert(bytes_le(u).len() % 2 == 0 && bytes_be(u).len() % 2 == 0);
}

/// Two or more ASCII characters other than NUL that are written in UTF-16 of
/// either byte order are read back without a byte order mark.
pub proof fn law_unmarked_utf16_is_read(s: Seq<char>)
    requires
        s.len() >= 2,
        forall|i: int| 0 <= i < s.len() ==> 0 < (#[trigger] s[i]) as int && (s[i] as int) < 128,
    ensures
        decoded_text(bytes_le(utf16_units(s))) == s,
        decoded_text(bytes_be(utf16_units(s))) == s,
{
    lemma_ascii_bytes(s);
    lemma_unmarked_text(s);
}

// ---------------------------------------------------------------------------
// Framed clipboard data
// ---------------------------------------------------------------------------

/// The number in the four bytes at `o`.
pub open spec fn word(b: Seq<u8>, o: int, big: bool) -> int {
    if big {
        0x1000000 * b[o] + 0x10000 * b[o + 1] + 0x100 * b[o + 2] + b[o + 3]
    } else {
        b[o] + 0x100 * b[o + 1] + 0x10000 * b[o + 2] + 0x1000000 * b[o + 3]
    }
}

/// The number in the eight bytes at `o`, the low byte first.
pub open spec fn double_word(b: Seq<u8>, o: int) -> int {
    word(b, o, false) + 0x100000000 * word(b, o + 4, false)
}

/// The bytes that a length field of `n` stands for: `n`, or two for each of `n`
/// UTF-16 units.
pub open spec fn field_bytes(n: int, units: bool) -> int {
    if units {
        2 * n
    } else {
        n
    }
}

/// The bytes that a field of `n` bytes takes up: fields counted in units are
/// filled up to a multiple of four.
pub open spec fn field_room(n: int, units: bool) -> int {
    if units {
        n + (4 - n % 4) % 4
    } else {
        n
    }
}

/// The text of a field.
pub open spec fn field_text(b: Seq<u8>) -> Seq<char> {
    utf16_lossy(units_le(b))
}

/// What stands at a place in a frame: no whole type, a type whose content is cut
/// short, or an entry, and where the next one begins.
pub ghost enum FrameStep {
    End,
    Cut(Seq<char>, Seq<char>),
    Entry(Seq<char>, Seq<char>, int),
}

/// What the frame holds at `o`: the length of a type and that much UTF-16, then
/// the length of a content and that much UTF-16.
pub open spec fn frame_step(b: Seq<u8>, o: int, big: bool, units: bool) -> FrameStep {
    let m = field_bytes(word(b, o, big), units);
    let p = o + 4 + field_room(m, units);
    let n = field_bytes(word(b, p, big), units);
    if o + 4 > b.len() || o + 4 + m > b.len() || p + 4 > b.len() {
        FrameStep::End
    } else {
        let mime = field_text(b.subrange(o + 4, o + 4 + m));
        if p + 4 + n > b.len() {
            FrameStep::Cut(mime, field_text(b.skip(p + 4)))
        } else {
            FrameStep::Entry(
                mime,
                field_text(b.subrange(p + 4, p + 4 + n)),
                p + 4 + field_room(n, units),
            )
        }
    }
}

/// The entries that a frame adds to `acc`: up to `left` of them, from `o` on.
/// Reading ends where the bytes do; a content that is cut short counts, unless
/// nothing of it is left. An entry without a type is passed over.
pub open spec fn frame_entries(
    b: Seq<u8>,
    o: int,
    left: nat,
    big: bool,
    units: bool,
    acc: Seq<(Seq<char>, Seq<char>)>,
) -> Seq<(Seq<char>, Seq<char>)>
    decreases left,
{
    if left == 0 {
        acc
    } else {
        match frame_step(b, o, big, units) {
            FrameStep::End => acc,
            FrameStep::Cut(mime, content) => if mime.len() > 0 && content.len() > 0 {
                table::put(acc, mime, content)
            } else {
                acc
            },
            FrameStep::Entry(mime, content, next) => frame_entries(
                b,
                next,
                (left - 1) as nat,
                big,
                units,
                if mime.len() > 0 {
                    table::put(acc, mime, content)
                } else {
                    acc
                },
            ),
        }
    }
}

/// The entries of Firefox's frame: a big-endian count and lengths in bytes.
pub open spec fn moz_entries(b: Seq<u8>) -> Seq<(Seq<char>, Seq<char>)> {
    if b.len() < 8 {
        Seq::empty()
    } else {
        frame_entries(b, 4, word(b, 0, true) as nat, true, false, Seq::empty())
    }
}

/// The entries of Chrome's frame: a size that is not looked at, a little-endian
/// count of four bytes, and lengths in UTF-16 units.
pub open spec fn chromium_entries(b: Seq<u8>) -> Seq<(Seq<char>, Seq<char>)> {
    if b.len() < 12 {
        Seq::empty()
    } else {
        frame_entries(b, 8, word(b, 4, false) as nat, false, true, Seq::empty())
    }
}

/// The entries of Chrome's frame with a count of eight bytes.
pub open spec fn chromium_entries_64(b: Seq<u8>) -> Seq<(Seq<char>, Seq<char>)> {
    if b.len() < 12 {
        Seq::empty()
    } else {
        frame_entries(b, 12, double_word(b, 4) as nat, false, true, Seq::empty())
    }
}

fn read_word(b: &[u8], o: usize, big: bool) -> (r: u32)
    requires
        o + 4 <= b.len(),
    ensures
        r == word(b@, o as int, big),
{
    if big {
        0x1000000 * (b[o] as u32) + 0x10000 * (b[o + 1] as u32) + 0x100 * (b[o + 2] as u32) + (
        b[o + 3] as u32)
    } else {
        (b[o] as u32) + 0x100 * (b[o + 1] as u32) + 0x10000 * (b[o + 2] as u32) + 0x1000000 * (b[o
            + 3] as u32)
    }
}

fn read_double_word(b: &[u8], o: usize) -> (r: u64)
    requires
        o + 8 <= b.len(),
    ensures
        r == double_word(b@, o as int),
{
    let low: u64 = read_word(b, o, false) as u64;
    let high: u64 = read_word(b, o + 4, false) as u64;
    low + 0x100000000 * high
}

/// The bytes of the field whose length stands at `o`, where they are all there.
fn field_size(b: &[u8], o: usize, big: bool, units: bool) -> (r: Option<usize>)
    requires
        o + 4 <= b.len(),
    ensures
        match r {
            Some(n) => n == field_bytes(word(b@, o as int, big), units) && o + 4 + n <= b.len(),
            None => o + 4 + field_bytes(word(b@, o as int, big), units) > b.len(),
        },
{
    let w: u64 = read_word(b, o, big) as u64;
    let n: u64 = if units {
        2 * w
    } else {
        w
    };
    let room: usize = b.len() - o - 4;
    if n > room as u64 {
        None
    } else {
        Some(n as usize)
    }
}

fn padding_of(n: usize, units: bool) -> (r: usize)
    ensures
        r == field_room(n as int, units) - n,
        r < 4,
{
    if units {
        (4 - n % 4) % 4
    } else {
        0
    }
}

/// What the frame holds at `o`, where there is a whole type: the type, the
/// content, and where the next entry begins, unless the content is cut short or
/// nothing can follow.
#[verifier::rlimit(50)]
fn read_entry(b: &[u8], o: usize, big: bool, units: bool) -> (r: Option<(String, String, Option<usize>, bool)>)
    requires
        o <= b.len(),
    ensures
        match r {
            None => frame_step(b@, o as int, big, units) is End,
            Some((mime, content, next, cut)) => if cut {
                frame_step(b@, o as int, big, units) == FrameStep::Cut(mime@, content@)
            } else {
                match frame_step(b@, o as int, big, units) {
                    FrameStep::Entry(t, c, q) => t == mime@ && c == content@ && match next {
                        Some(i) => i == q && q <= b.len(),
                        None => q + 4 > b.len(),
                    },
                    _ => false,
                }
            },
        },
{
    if b.len() - o < 4 {
        return None;
    }
    let m: usize = match field_size(b, o, big, units) {
        Some(m) => m,
        None => {
            return None;
        },
    };
    let pad: usize = padding_of(m, units);
    if b.len() - (o + 4 + m) < pad + 4 {
        return None;
    }
    let mime: String = decode_utf16le(vstd::slice::slice_subrange(b, o + 4, o + 4 + m));
    let p: usize = o + 4 + m + pad;
    match field_size(b, p, big, units) {
        Some(n) => {
            let content: String = decode_utf16le(vstd::slice::slice_subrange(b, p + 4, p + 4 + n));
            let pad: usize = padding_of(n, units);
            let ghost q = p + 4 + field_room(n as int, units);
            assert(FrameStep::Entry(mime@, content@, q) == frame_step(b@, o as int, big, units));
            let next: Option<usize> = if b.len() - (p + 4 + n) < pad + 4 {
                None
            } else {
                Some(p + 4 + n + pad)
            };
            Some((mime, content, next, false))
        },
        None => {
            let content: String = decode_utf16le(skip_bytes(b, p + 4));
            Some((mime, content, None, true))
        },
    }
}

fn read_frame(b: &[u8], start: usize, count: u64, big: bool, units: bool) -> (r: StringMap)
    requires
        start <= b.len(),
    ensures
        r@ == frame_entries(b@, start as int, count as nat, big, units, Seq::empty()),
{
    let mut out: StringMap = StringMap::new();
    let mut o: usize = start;
    let mut left: u64 = count;
    let ghost whole = frame_entries(b@, start as int, count as nat, big, units, Seq::empty());
    while left > 0
        invariant
            o <= b.len(),
            whole == frame_entries(b@, start as int, count as nat, big, units, Seq::empty()),
            frame_entries(b@, o as int, left as nat, big, units, out@) == whole,
        decreases left,
    {
        match read_entry(b, o, big, units) {
            None => {
                return out;
            },
            Some((mime, content, next, cut)) => {
                if !mime.as_str().is_empty() && (!cut || !content.as_str().is_empty()) {
                    out.insert(mime, content);
                }
                if cut {
                    return out;
                }
                left = left - 1;
                match next {
                    Some(i) => {
                        o = i;
                    },
                    None => {
                        let ghost q = frame_step(b@, o as int, big, units)->Entry_2;
                        assert(frame_step(b@, q, big, units) is End);
                        assert(frame_entries(b@, q, left as nat, big, units, out@) == out@);
                        return out;
                    },
                }
            },
        }
    }
    out
}

/// The entries of Firefox's `application/x-moz-custom-clipdata`, where there
/// are any.
pub fn parse_moz_custom_clipdata(data: &[u8]) -> (r: Option<StringMap>)
    ensures
        match r {
            Some(m) => m@ == moz_entries(data@) && m@.len() > 0,
            None => moz_entries(data@).len() == 0,
        },
{
    if data.len() < 8 {
        return None;
    }
    let count: u64 = read_word(data, 0, true) as u64;
    let m: StringMap = read_frame(data, 4, count, true, false);
    if m.len() == 0 {
        None
    } else {
        Some(m)
    }
}

/// The entries of Chrome's `chromium/x-web-custom-data`, where there are any.
pub fn parse_chromium_custom_data(data: &[u8]) -> (r: Option<StringMap>)
    ensures
        match r {
            Some(m) => m@ == chromium_entries(data@) && m@.len() > 0,
            None => chromium_entries(data@).len() == 0,
        },
{
    if data.len() < 12 {
        return None;
    }
    let count: u64 = read_word(data, 4, false) as u64;
    let m: StringMap = read_frame(data, 8, count, false, true);
    if m.len() == 0 {
        None
    } else {
        Some(m)
    }
}

/// The entries of Chrome's frame with a count of eight bytes, where there are
/// any.
pub fn parse_chromium_custom_data_64(data: &[u8]) -> (r: Option<StringMap>)
    ensures
        match r {
            Some(m) => m@ == chromium_entries_64(data@) && m@.len() > 0,
            None => chromium_entries_64(data@).len() == 0,
        },
{
    if data.len() < 12 {
        return None;
    }
    let count: u64 = read_double_word(data, 4);
    let m: StringMap = read_frame(data, 12, count, false, true);
    if m.len() == 0 {
        None
    } else {
        Some(m)
    }
}

// ---------------------------------------------------------------------------
// What is framed is read
// ---------------------------------------------------------------------------

/// A number in four bytes.
pub open spec fn word_bytes(n: int, big: bool) -> Seq<u8> {
    let b0 = (n % 256) as u8;
    let b1 = (n / 0x100 % 256) as u8;
    let b2 = (n / 0x10000 % 256) as u8;
    let b3 = (n / 0x1000000 % 256) as u8;
    if big {
        seq![b3, b2, b1, b0]
    } else {
        seq![b0, b1, b2, b3]
    }
}

/// The number in the length field of a text.
pub open spec fn length_field(s: Seq<char>, units: bool) -> int {
    if units {
        utf16_units(s).len() as int
    } else {
        2 * utf16_units(s).len() as int
    }
}

/// A text as a field of a frame.
pub open spec fn field_frame(s: Seq<char>, big: bool, units: bool) -> Seq<u8> {
    let b = bytes_le(utf16_units(s));
    let fill = field_room(b.len() as int, units) - b.len();
    word_bytes(length_field(s, units), big) + b + Seq::new(fill as nat, |i: int| 0u8)
}

/// Entries, one after another, as a frame holds them.
pub open spec fn frame_body(
    entries: Seq<(Seq<char>, Seq<char>)>,
    big: bool,
    units: bool,
) -> Seq<u8>
    decreases entries.len(),
{
    if entries.len() == 0 {
        Seq::empty()
    } else {
        field_frame(entries[0].0, big, units) + field_frame(entries[0].1, big, units) + frame_body(
            entries.skip(1),
            big,
            units,
        )
    }
}

/// `acc` with the entries put in, one after another.
pub open spec fn put_all(
    acc: Seq<(Seq<char>, Seq<char>)>,
    entries: Seq<(Seq<char>, Seq<char>)>,
) -> Seq<(Seq<char>, Seq<char>)>
    decreases entries.len(),
{
    if entries.len() == 0 {
        acc
    } else {
        put_all(table::put(acc, entries[0].0, entries[0].1), entries.skip(1))
    }
}

/// Every type has a name, and every length fits its field.
pub open spec fn frameable(entries: Seq<(Seq<char>, Seq<char>)>, units: bool) -> bool {
    forall|i: int|
        0 <= i < entries.len() ==> {
            &&& (#[trigger] entries[i]).0.len() > 0
            &&& length_field(entries[i].0, units) < 0x100000000
            &&& length_field(entries[i].1, units) < 0x100000000
        }
}

proof fn lemma_word_bytes(b: Seq<u8>, o: int, n: int, big: bool)
    requires
        0 <= o,
        o + 4 <= b.len(),
        b.subrange(o, o + 4) == word_bytes(n, big),
        0 <= n < 0x100000000,
    ensures
        word(b, o, big) == n,
{
    let w = b.subrange(o, o + 4);
    assert(w[0] == b[o] && w[1] == b[o + 1] && w[2] == b[o + 2] && w[3] == b[o + 3]);
    let q1 = n / 0x100;
    let q2 = n / 0x10000;
    let q3 = n / 0x1000000;
    assert(n == 0x100 * q1 + n % 256);
    assert(q1 / 0x100 == q2);
    assert(q1 == 0x100 * q2 + q1 % 256);
    assert(q2 / 0x100 == q3);
    assert(q2 == 0x100 * q3 + q2 % 256);
    assert(q3 % 256 == q3);
}

proof fn lemma_field_frame(pre: Seq<u8>, s: Seq<char>, post: Seq<u8>, big: bool, units: bool)
    requires
        length_field(s, units) < 0x100000000,
    ensures
        ({
            let b = pre + field_frame(s, big, units) + post;
            let o = pre.len() as int;
            let m = field_bytes(word(b, o, big), units);
            &&& o + 4 + field_room(m, units) == o + field_frame(s, big, units).len()
            &&& m >= 0
            &&& o + 4 + m <= b.len()
            &&& field_text(b.subrange(o + 4, o + 4 + m)) == s
        }),
{
    let f = field_frame(s, big, units);
    let b = pre + f + post;
    let o = pre.len() as int;
    let body = bytes_le(utf16_units(s));
    assert(b.subrange(o, o + 4) =~= word_bytes(length_field(s, units), big));
    lemma_word_bytes(b, o, length_field(s, units), big);
    let m = body.len() as int;
    assert(field_bytes(word(b, o, big), units) == m);
    assert(b.subrange(o + 4, o + 4 + m) =~= body);
    law_units_round_trip(utf16_units(s));
    law_utf16_round_trip(s);
}

#[verifier::spinoff_prover]
#[verifier::rlimit(40)]
proof fn lemma_frame_step(
    pre: Seq<u8>,
    mime: Seq<char>,
    content: Seq<char>,
    rest: Seq<u8>,
    big: bool,
    units: bool,
)
    requires
        length_field(mime, units) < 0x100000000,
        length_field(content, units) < 0x100000000,
    ensures
        ({
            let next = pre + field_frame(mime, big, units) + field_frame(content, big, units);
            frame_step(next + rest, pre.len() as int, big, units) == FrameStep::Entry(
                mime,
                content,
                next.len() as int,
            )
        }),
{
    let f = field_frame(mime, big, units);
    let g = field_frame(content, big, units);
    let b = pre + f + g + rest;
    lemma_field_frame(pre, mime, g + rest, big, units);
    lemma_assoc_right(pre + f, g, rest);
    lemma_field_frame(pre + f, content, rest, big, units);
    let o = pre.len() as int;
    let m = field_bytes(word(b, o, big), units);
    let p = o + 4 + field_room(m, units);
    assert(p == (pre + f).len());
    let n = field_bytes(word(b, p, big), units);
    assert(p + 4 <= p + 4 + n <= b.len());
    assert(field_text(b.subrange(o + 4, o + 4 + m)) == mime);
    assert(field_text(b.subrange(p + 4, p + 4 + n)) == content);
    assert(p + 4 + field_room(n, units) == (pre + f + g).len());
}

proof fn lemma_frame_unfold(
    b: Seq<u8>,
    o: int,
    left: nat,
    big: bool,
    units: bool,
    acc: Seq<(Seq<char>, Seq<char>)>,
    mime: Seq<char>,
    content: Seq<char>,
    next: int,
)
    requires
        left > 0,
        mime.len() > 0,
        frame_step(b, o, big, units) == FrameStep::Entry(mime, content, next),
    ensures
        frame_entries(b, o, left, big, units, acc) == frame_entries(
            b,
            next,
            (left - 1) as nat,
            big,
            units,
            table::put(acc, mime, content),
        ),
{
}

proof fn lemma_frameable_rest(entries: Seq<(Seq<char>, Seq<char>)>, units: bool)
    requires
        entries.len() > 0,
        frameable(entries, units),
    ensures
        frameable(entries.skip(1), units),
{
    let rest = entries.skip(1);
    assert forall|i: int| 0 <= i < rest.len() implies (#[trigger] rest[i]).0.len() > 0
        && length_field(rest[i].0, units) < 0x100000000 && length_field(rest[i].1, units)
        < 0x100000000 by {
        assert(rest[i] == entries[i + 1]);
    }
}

proof fn lemma_frame_body_unfold(
    pre: Seq<u8>,
    entries: Seq<(Seq<char>, Seq<char>)>,
    big: bool,
    units: bool,
)
    requires
        entries.len() > 0,
    ensures
        pre + frame_body(entries, big, units) == pre + field_frame(entries[0].0, big, units)
            + field_frame(entries[0].1, big, units) + frame_body(entries.skip(1), big, units),
{
    let f = field_frame(entries[0].0, big, units);
    let g = field_frame(entries[0].1, big, units);
    let rest = frame_body(entries.skip(1), big, units);
    assert(frame_body(entries, big, units) == f + g + rest);
    lemma_assoc(pre, f, g, rest);
}

proof fn lemma_assoc_right(a: Seq<u8>, b: Seq<u8>, c: Seq<u8>)
    ensures
        a + (b + c) == a + b + c,
{
    assert(a + (b + c) =~= a + b + c);
}

proof fn lemma_assoc(a: Seq<u8>, b: Seq<u8>, c: Seq<u8>, d: Seq<u8>)
    ensures
        a + (b + c + d) == a + b + c + d,
{
    assert(a + (b + c + d) =~= a + b + c + d);
}

proof fn lemma_frame_body(
    pre: Seq<u8>,
    entries: Seq<(Seq<char>, Seq<char>)>,
    big: bool,
    units: bool,
    acc: Seq<(Seq<char>, Seq<char>)>,
)
    requires
        frameable(entries, units),
    ensures
        frame_entries(
            pre + frame_body(entries, big, units),
            pre.len() as int,
            entries.len(),
            big,
            units,
            acc,
        ) == put_all(acc, entries),
    decreases entries.len(),
{
    if entries.len() > 0 {
        let e = entries[0];
        let next = pre + field_frame(e.0, big, units) + field_frame(e.1, big, units);
        let b = next + frame_body(entries.skip(1), big, units);
        lemma_frame_body_unfold(pre, entries, big, units);
        lemma_frame_step(pre, e.0, e.1, frame_body(entries.skip(1), big, units), big, units);
        lemma_frame_unfold(
            b,
            pre.len() as int,
            entries.len(),
            big,
            units,
            acc,
            e.0,
            e.1,
            next.len() as int,
        );
        lemma_frameable_rest(entries, units);
        lemma_frame_body(next, entries.skip(1), big, units, table::put(acc, e.0, e.1));
    }
}

/// What is framed as Firefox frames it is what is read.
pub proof fn law_moz_frame_is_read(entries: Seq<(Seq<char>, Seq<char>)>)
    requires
        frameable(entries, false),
        entries.len() < 0x100000000,
    ensures
        moz_entries(word_bytes(entries.len() as int, true) + frame_body(entries, true, false))
            == put_all(Seq::empty(), entries),
{
    let pre = word_bytes(entries.len() as int, true);
    let b = pre + frame_body(entries, true, false);
    assert(b.subrange(0, 4) =~= pre);
    lemma_word_bytes(b, 0, entries.len() as int, true);
    lemma_frame_body(pre, entries, true, false, Seq::empty());
}

/// What is framed as Chrome frames it, with a count of four bytes behind any
/// four bytes of size, is what is read.
pub proof fn law_chromium_frame_is_read(size: Seq<u8>, entries: Seq<(Seq<char>, Seq<char>)>)
    requires
        size.len() == 4,
        frameable(entries, true),
        entries.len() < 0x100000000,
    ensures
        chromium_entries(
            size + word_bytes(entries.len() as int, false) + frame_body(entries, false, true),
        ) == put_all(Seq::empty(), entries),
{
    let pre = size + word_bytes(entries.len() as int, false);
    let b = pre + frame_body(entries, false, true);
    assert(b.subrange(4, 8) =~= word_bytes(entries.len() as int, false));
    lemma_word_bytes(b, 4, entries.len() as int, false);
    lemma_frame_body(pre, entries, false, true, Seq::empty());
}

/// What is framed as Chrome frames it, with a count of eight bytes, is what is
/// read.
pub proof fn law_chromium_frame_64_is_read(size: Seq<u8>, entries: Seq<(Seq<char>, Seq<char>)>)
    requires
        size.len() == 4,
        frameable(entries, true),
        entries.len() < 0x100000000,
    ensures
        chromium_entries_64(
            size + word_bytes(entries.len() as int, false) + word_bytes(0, false) + frame_body(
                entries,
                false,
                true,
            ),
        ) == put_all(Seq::empty(), entries),
{
    let pre = size + word_bytes(entries.len() as int, false) + word_bytes(0, false);
    let b = pre + frame_body(entries, false, true);
    assert(b.subrange(4, 8) =~= word_bytes(entries.len() as int, false));
    assert(b.subrange(8, 12) =~= word_bytes(0, false));
    lemma_word_bytes(b, 4, entries.len() as int, false);
    lemma_word_bytes(b, 8, 0, false);
    lemma_frame_body(pre, entries, false, true, Seq::empty());
}

} // verus!
