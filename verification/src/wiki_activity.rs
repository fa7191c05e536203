//! Opening wikis as activities of their own, and the colors of the bars around
//! them.

use vstd::prelude::*;
use vstd::utf8::*;
use crate::outside;
use crate::text;

verus! {

/// The name of a class as Java writes it.
pub fn java_class_name(class_name: &str) -> (r: String)
    ensures
        r@ == text::char_replaced(class_name@, '/', '.'),
{
    text::replace_char(class_name, '/', '.')
}

/// An unsigned number of 32 bits read as a signed one.
pub open spec fn signed(n: u32) -> int {
    if n < 0x8000_0000 {
        n as int
    } else {
        n - 0x1_0000_0000
    }
}

fn to_signed(n: u32) -> (r: i32)
    ensures
        r == signed(n),
{
    if n < 0x8000_0000 {
        n as i32
    } else {
        let m: i64 = n as i64 - 0x1_0000_0000;
        m as i32
    }
}

// ---------------------------------------------------------------------------
// Launching
// ---------------------------------------------------------------------------

/// What an activity is told when it starts: a name and a value.
pub enum Extra {
    Text(String, String),
    Flag(String, bool),
    Number(String, i32),
}

/// What an activity is told when it starts.
pub ghost enum ExtraView {
    Text(Seq<char>, Seq<char>),
    Flag(Seq<char>, bool),
    Number(Seq<char>, int),
}

impl View for Extra {
    type V = ExtraView;

    open spec fn view(&self) -> ExtraView {
        match self {
            Extra::Text(key, value) => ExtraView::Text(key@, value@),
            Extra::Flag(key, value) => ExtraView::Flag(key@, *value),
            Extra::Number(key, value) => ExtraView::Number(key@, *value as int),
        }
    }
}

/// What the entries say.
pub open spec fn extra_views(v: Seq<Extra>) -> Seq<ExtraView> {
    v.map_values(|e: Extra| e@)
}

/// What a wiki's activity is told: the address of a server only where there is
/// one.
pub open spec fn wiki_extras(
    wiki_path: Seq<char>,
    wiki_title: Seq<char>,
    is_folder: bool,
    server_url: Option<Seq<char>>,
    backups_enabled: bool,
    backup_count: u32,
) -> Seq<ExtraView> {
    seq![
        ExtraView::Text("wiki_path"@, wiki_path),
        ExtraView::Text("wiki_title"@, wiki_title),
        ExtraView::Flag("is_folder"@, is_folder),
    ] + match server_url {
        Some(u) => seq![ExtraView::Text("wiki_url"@, u)],
        None => Seq::empty(),
    } + seq![
        ExtraView::Flag("backups_enabled"@, backups_enabled),
        ExtraView::Number("backup_count"@, signed(backup_count)),
    ]
}

/// How a wiki comes to be shown.
pub enum Launch {
    /// It was open, and stands in front now.
    BroughtToFront,
    /// An activity starts, and is told this.
    Start(Vec<Extra>),
}

fn push_extra(out: &mut Vec<Extra>, e: Extra)
    ensures
        extra_views(final(out)@) == extra_views(old(out)@).push(e@),
{
    let ghost before = out@;
    out.push(e);
    assert(extra_views(out@) =~= extra_views(before).push(e@));
}

fn push_text(out: &mut Vec<Extra>, key: &str, value: &str)
    ensures
        extra_views(final(out)@) == extra_views(old(out)@).push(ExtraView::Text(key@, value@)),
{
    push_extra(out, Extra::Text(key.to_owned(), value.to_owned()));
}

/// Shows a wiki: one that is open is brought to the front, and for any other an
/// activity starts, also where it could not be told whether it is open.
pub fn launch_wiki_activity(
    wiki_path: &str,
    wiki_title: &str,
    is_folder: bool,
    server_url: Option<&str>,
    backups_enabled: bool,
    backup_count: u32,
    brought_to_front: &Result<bool, String>,
) -> (r: Launch)
    ensures
        match r {
            Launch::BroughtToFront => *brought_to_front is Ok && (*brought_to_front)->Ok_0,
            Launch::Start(extras) => {
                &&& !(*brought_to_front is Ok && (*brought_to_front)->Ok_0)
                &&& extra_views(extras@) == wiki_extras(
                    wiki_path@,
                    wiki_title@,
                    is_folder,
                    match server_url {
                        Some(u) => Some(u@),
                        None => None,
                    },
                    backups_enabled,
                    backup_count,
                )
            },
        },
{
    if let Ok(front) = brought_to_front {
        if *front {
            return Launch::BroughtToFront;
        }
    }
    let mut out: Vec<Extra> = Vec::new();
    assert(extra_views(out@) =~= Seq::empty());
    push_text(&mut out, "wiki_path", wiki_path);
    push_text(&mut out, "wiki_title", wiki_title);
    push_extra(&mut out, Extra::Flag("is_folder".to_owned(), is_folder));
    if let Some(url) = server_url {
        push_text(&mut out, "wiki_url", url);
    }
    push_extra(&mut out, Extra::Flag("backups_enabled".to_owned(), backups_enabled));
    push_extra(&mut out, Extra::Number("backup_count".to_owned(), to_signed(backup_count)));
    assert(extra_views(out@) =~= wiki_extras(
        wiki_path@,
        wiki_title@,
        is_folder,
        match server_url {
            Some(u) => Some(u@),
            None => None,
        },
        backups_enabled,
        backup_count,
    ));
    Launch::Start(out)
}

// ---------------------------------------------------------------------------
// Colors
// ---------------------------------------------------------------------------

/// The digits of a color: what follows its hash signs.
pub open spec fn color_digits(color: Seq<char>) -> Seq<char> {
    text::trimmed_start_char(color, '#')
}

/// The number that hexadecimal digits stand for.
pub open spec fn hex_number(b: Seq<u8>) -> nat
    decreases b.len(),
{
    if b.len() == 0 {
        0
    } else {
        16 * hex_number(b.drop_last()) + outside::hex_value(b.last()) as nat
    }
}

/// All bytes are hexadecimal digits.
pub open spec fn all_hex(b: Seq<u8>) -> bool {
    forall|i: int| 0 <= i < b.len() ==> outside::is_hex(#[trigger] b[i])
}

/// The number that hexadecimal digits stand for, with a plus before them or
/// without.
pub open spec fn parsed_hex(b: Seq<u8>) -> Option<nat> {
    let digits = if b.len() > 0 && b[0] == 43 {
        b.skip(1)
    } else {
        b
    };
    if digits.len() > 0 && all_hex(digits) {
        Some(hex_number(digits))
    } else {
        None
    }
}

/// The bytes of the color with its opacity: full, where only six digits are
/// given.
pub open spec fn with_opacity(digits: Seq<u8>) -> Seq<u8> {
    if digits.len() == 6 {
        seq![70u8, 70u8] + digits
    } else {
        digits
    }
}

/// The color as a number, or why it is none.
pub open spec fn color_number(color: Seq<char>) -> Result<int, Seq<char>> {
    let digits = encode_utf8(color_digits(color));
    if digits.len() != 6 && digits.len() != 8 {
        Err("Invalid color format: "@ + color)
    } else {
        match parsed_hex(with_opacity(digits)) {
            Some(n) => Ok(signed(n as u32)),
            None => Err("Failed to parse color "@ + color + ": invalid digit found in string"@),
        }
    }
}

fn hex_digit(b: u8) -> (r: Option<u8>)
    ensures
        match r {
            Some(n) => outside::is_hex(b) && n == outside::hex_value(b) && n < 16,
            None => !outside::is_hex(b),
        },
{
    if 48 <= b && b <= 57 {
        Some(b - 48)
    } else if 65 <= b && b <= 70 {
        Some(b - 55)
    } else if 97 <= b && b <= 102 {
        Some(b - 87)
    } else {
        None
    }
}

proof fn lemma_hex_bound(b: Seq<u8>)
    requires
        all_hex(b),
        b.len() <= 8,
    ensures
        hex_number(b) < 0x1_0000_0000,
        b.len() <= 7 ==> hex_number(b) < 0x1000_0000,
        b.len() <= 6 ==> hex_number(b) < 0x100_0000,
        b.len() <= 5 ==> hex_number(b) < 0x10_0000,
        b.len() <= 4 ==> hex_number(b) < 0x1_0000,
        b.len() <= 3 ==> hex_number(b) < 0x1000,
        b.len() <= 2 ==> hex_number(b) < 0x100,
        b.len() <= 1 ==> hex_number(b) < 0x10,
        b.len() == 0 ==> hex_number(b) == 0,
    decreases b.len(),
{
    if b.len() > 0 {
        let short = b.drop_last();
        assert forall|i: int| 0 <= i < short.len() implies outside::is_hex(#[trigger] short[i]) by {
            assert(short[i] == b[i]);
        }
        lemma_hex_bound(short);
        assert(outside::is_hex(b[b.len() - 1]));
    }
}

fn parse_hex(b: &[u8]) -> (r: Option<u32>)
    requires
        b@.len() <= 8,
    ensures
        match r {
            Some(n) => parsed_hex(b@) == Some(n as nat),
            None => parsed_hex(b@) is None,
        },
{
    let n: usize = b.len();
    let start: usize = if n > 0 && b[0] == 43 {
        1
    } else {
        0
    };
    let ghost digits = b@.skip(start as int);
    assert(start == 0 ==> digits =~= b@);
    if start == n {
        return None;
    }
    let mut value: u64 = 0;
    let mut i: usize = start;
    assert(digits.take(0) =~= Seq::empty());
    while i < n
        invariant
            start <= i <= n,
            n == b@.len(),
            n <= 8,
            digits == b@.skip(start as int),
            start == if b@.len() > 0 && b@[0] == 43 {
                1int
            } else {
                0
            },
            start == 0 ==> digits == b@,
            value == hex_number(digits.take(i - start)),
            all_hex(digits.take(i - start)),
        decreases n - i,
    {
        let ghost k = i - start;
        assert(digits[k] == b@[i as int]);
        assert(digits.take(k + 1).drop_last() =~= digits.take(k));
        assert(digits.take(k + 1).last() == b@[i as int]);
        match hex_digit(b[i]) {
            None => {
                assert(!all_hex(digits));
                return None;
            },
            Some(d) => {
                assert(all_hex(digits.take(k + 1))) by {
                    assert forall|j: int| 0 <= j < k + 1 implies outside::is_hex(
                        #[trigger] digits.take(k + 1)[j],
                    ) by {
                        if j < k {
                            assert(outside::is_hex(digits.take(k)[j]));
                        }
                    }
                }
                proof {
                    lemma_hex_bound(digits.take(k));
                    lemma_hex_bound(digits.take(k + 1));
                }
                value = 16 * value + d as u64;
                i = i + 1;
            },
        }
    }
    assert(digits.take(n - start) =~= digits);
    proof {
        lemma_hex_bound(digits);
    }
    Some(value as u32)
}

/// A color as the system takes it: its opacity, red, green and blue in one
/// number, each of one byte. The color has six digits or, with its opacity,
/// eight.
pub fn parse_color_to_int(color: &str) -> (r: Result<i32, String>)
    ensures
        match r {
            Ok(n) => color_number(color@) == Ok::<int, Seq<char>>(n as int),
            Err(e) => color_number(color@) == Err::<int, Seq<char>>(e@),
        },
{
    let hex: &str = text::trim_start_char(color, '#');
    let mut digits: Vec<u8> = hex.as_bytes_vec();
    assert(digits@ == encode_utf8(color_digits(color@)));
    if digits.len() != 6 && digits.len() != 8 {
        return Err(text::concat("Invalid color format: ", color));
    }
    if digits.len() == 6 {
        let ghost six = digits@;
        digits.insert(0, 70);
        digits.insert(0, 70);
        assert(digits@ =~= with_opacity(six));
    }
    match parse_hex(digits.as_slice()) {
        Some(n) => Ok(to_signed(n)),
        None => Err(
            text::concat3("Failed to parse color ", color, ": invalid digit found in string"),
        ),
    }
}

/// One of the three parts of a color, by its two digits: zero where they are
/// none.
pub open spec fn color_part(b: Seq<u8>) -> nat {
    match parsed_hex(b) {
        Some(n) => n,
        None => 0,
    }
}

/// The digits of the color can be taken two by two.
pub open spec fn has_parts(color: Seq<char>) -> bool {
    let b = encode_utf8(color_digits(color));
    b.len() >= 6 ==> is_char_boundary(b, 2) && is_char_boundary(b, 4) && is_char_boundary(b, 6)
}

/// Red, green and blue.
pub struct Rgb {
    pub red: u8,
    pub green: u8,
    pub blue: u8,
}

/// Whether the digits of the color can be taken two by two.
pub fn color_has_parts(color: &str) -> (r: bool)
    ensures
        r == has_parts(color@),
{
    let hex: &str = text::trim_start_char(color, '#');
    let n: usize = hex.as_bytes().len();
    n < 6 || (hex.is_char_boundary(2) && hex.is_char_boundary(4) && hex.is_char_boundary(6))
}

fn part_at(b: &Vec<u8>, i: usize) -> (r: u8)
    requires
        i + 2 <= b@.len(),
    ensures
        r == color_part(b@.subrange(i as int, i + 2)),
{
    let mut two: Vec<u8> = Vec::new();
    assert(i + 2 <= b.len());
    two.push(b[i]);
    two.push(b[i + 1]);
    assert(two@ =~= b@.subrange(i as int, i + 2));
    proof {
        let digits = if two@[0] == 43 {
            two@.skip(1)
        } else {
            two@
        };
        if all_hex(digits) {
            lemma_hex_bound(digits);
        }
    }
    match parse_hex(two.as_slice()) {
        Some(n) => n as u8,
        None => 0,
    }
}

/// The digits of a color, two for each part: a color of three digits has each of
/// them twice.
pub open spec fn part_digits(color: Seq<char>) -> Seq<u8> {
    let b = encode_utf8(color_digits(color));
    if b.len() == 3 {
        seq![b[0], b[0], b[1], b[1], b[2], b[2]]
    } else {
        b
    }
}

/// The three parts of a color, by its first six digits, or by three; none where it
/// has fewer.
pub open spec fn color_parts(color: Seq<char>) -> Option<(int, int, int)> {
    let b = part_digits(color);
    if b.len() >= 6 {
        Some(
            (
                color_part(b.subrange(0, 2)) as int,
                color_part(b.subrange(2, 4)) as int,
                color_part(b.subrange(4, 6)) as int,
            ),
        )
    } else {
        None
    }
}

fn digits_of_parts(color: &str) -> (r: Vec<u8>)
    ensures
        r@ == part_digits(color@),
{
    let hex: &str = text::trim_start_char(color, '#');
    let b: Vec<u8> = hex.as_bytes_vec();
    if b.len() != 3 {
        return b;
    }
    let mut six: Vec<u8> = Vec::new();
    six.push(b[0]);
    six.push(b[0]);
    six.push(b[1]);
    six.push(b[1]);
    six.push(b[2]);
    six.push(b[2]);
    assert(six@ =~= part_digits(color@));
    six
}

fn parts_of_color(color: &str) -> (r: Option<Rgb>)
    ensures
        match r {
            Some(c) => color_parts(color@) == Some((c.red as int, c.green as int, c.blue as int)),
            None => color_parts(color@) is None,
        },
{
    let digits: Vec<u8> = digits_of_parts(color);
    if digits.len() < 6 {
        return None;
    }
    Some(Rgb { red: part_at(&digits, 0), green: part_at(&digits, 2), blue: part_at(&digits, 4) })
}

/// The three parts of a color, by its first six digits, or by three; none where it
/// has fewer.
pub fn rgb_of_color(color: &str) -> (r: Option<Rgb>)
    requires
        has_parts(color@),
    ensures
        match r {
            Some(c) => color_parts(color@) == Some((c.red as int, c.green as int, c.blue as int)),
            None => color_parts(color@) is None,
        },
{
    parts_of_color(color)
}

/// The luminance of a color in thousandths of a step: its parts weighed by how
/// bright they seem.
pub open spec fn luminance(red: int, green: int, blue: int) -> int {
    299 * red + 587 * green + 114 * blue
}

/// Half of the luminance of white.
pub const MIDDLE: u32 = 127500;

/// The luminance is compared in single precision. At the exact middle its
/// rounding decides, and rounds these colors up, of which blue is what is left.
pub open spec fn rounds_up(red: int, green: int) -> bool {
    ||| red == 1 && green == 173
    ||| red == 4 && green == 194
    ||| red == 15 && green == 195
    ||| red == 22 && green == 206
    ||| red == 34 && green == 176
    ||| red == 41 && green == 187
    ||| red == 60 && green == 168
    ||| red == 71 && green == 169
    ||| red == 79 && green == 149
    ||| red == 90 && green == 150
    ||| red == 98 && green == 130
    ||| red == 109 && green == 131
    ||| red == 123 && green == 153
    ||| red == 128 && green == 112
    ||| red == 142 && green == 134
    ||| red == 153 && green == 135
    ||| red == 161 && green == 115
    ||| red == 172 && green == 116
}

/// The color is nearer to white than to black.
pub open spec fn parts_are_light(red: int, green: int, blue: int) -> bool {
    luminance(red, green, blue) > MIDDLE || (luminance(red, green, blue) == MIDDLE && rounds_up(
        red,
        green,
    ))
}

/// The color is a light one. One that has no parts is not.
pub open spec fn is_light(color: Seq<char>) -> bool {
    match color_parts(color) {
        Some(c) => parts_are_light(c.0, c.1, c.2),
        None => false,
    }
}

fn rounded_up(red: u8, green: u8) -> (r: bool)
    ensures
        r == rounds_up(red as int, green as int),
{
    match red {
        1 => green == 173,
        4 => green == 194,
        15 => green == 195,
        22 => green == 206,
        34 => green == 176,
        41 => green == 187,
        60 => green == 168,
        71 => green == 169,
        79 => green == 149,
        90 => green == 150,
        98 => green == 130,
        109 => green == 131,
        123 => green == 153,
        128 => green == 112,
        142 => green == 134,
        153 => green == 135,
        161 => green == 115,
        172 => green == 116,
        _ => false,
    }
}

/// Whether the color is nearer to white than to black.
pub fn rgb_is_light(c: &Rgb) -> (r: bool)
    ensures
        r == parts_are_light(c.red as int, c.green as int, c.blue as int),
{
    let sum: u32 = 299 * c.red as u32 + 587 * c.green as u32 + 114 * c.blue as u32;
    sum > MIDDLE || (sum == MIDDLE && rounded_up(c.red, c.green))
}

fn light(color: &str) -> (r: bool)
    ensures
        r == is_light(color@),
{
    match parts_of_color(color) {
        Some(c) => rgb_is_light(&c),
        None => false,
    }
}

/// Whether a color is a light one.
pub fn is_light_color(color: &str) -> (r: bool)
    requires
        has_parts(color@),
    ensures
        r == is_light(color@),
{
    light(color)
}

/// How the bars are shown: their colors, and whether what stands in them is
/// dark, as it has to be on a light bar.
pub struct BarColors {
    pub status: i32,
    pub nav: i32,
    pub status_is_light: bool,
    pub nav_is_light: bool,
}

/// The bar is shown as a light one: where there is a foreground color, a dark one
/// means so; else the bar's own color tells.
pub open spec fn shown_as_light(bar: Seq<char>, foreground: Option<Seq<char>>) -> bool {
    match foreground {
        Some(f) => !is_light(f),
        None => is_light(bar),
    }
}

/// How the bars are shown, or which color is none.
pub fn set_system_bar_colors(
    status_bar_color: &str,
    nav_bar_color: &str,
    foreground_color: Option<&str>,
) -> (r: Result<BarColors, String>)
    requires
        match foreground_color {
            Some(f) => color_number(status_bar_color@) is Ok && color_number(nav_bar_color@) is Ok
                ==> has_parts(f@),
            None => true,
        },
    ensures
        match r {
            Ok(c) => {
                let foreground = match foreground_color {
                    Some(f) => Some(f@),
                    None => None,
                };
                &&& color_number(status_bar_color@) == Ok::<int, Seq<char>>(c.status as int)
                &&& color_number(nav_bar_color@) == Ok::<int, Seq<char>>(c.nav as int)
                &&& c.status_is_light == shown_as_light(status_bar_color@, foreground)
                &&& c.nav_is_light == shown_as_light(nav_bar_color@, foreground)
            },
            Err(e) => match color_number(status_bar_color@) {
                Err(m) => e@ == m,
                Ok(_) => color_number(nav_bar_color@) == Err::<int, Seq<char>>(e@),
            },
        },
{
    let status: i32 = match parse_color_to_int(status_bar_color) {
        Ok(n) => n,
        Err(e) => {
            return Err(e);
        },
    };
    let nav: i32 = match parse_color_to_int(nav_bar_color) {
        Ok(n) => n,
        Err(e) => {
            return Err(e);
        },
    };
    match foreground_color {
        Some(f) => {
            let dark: bool = !is_light_color(f);
            Ok(BarColors { status, nav, status_is_light: dark, nav_is_light: dark })
        },
        None => Ok(
            BarColors {
                status,
                nav,
                status_is_light: light(status_bar_color),
                nav_is_light: light(nav_bar_color),
            },
        ),
    }
}

/// Both flags of the bars' appearance.
pub const APPEARANCE_MASK: i32 = 24;

/// The flags of the bars' appearance.
pub open spec fn appearance_of(status_is_light: bool, nav_is_light: bool) -> int {
    (if status_is_light {
        8int
    } else {
        0
    }) + (if nav_is_light {
        16int
    } else {
        0
    })
}

/// The flags of the bars' appearance.
pub fn bar_appearance(status_is_light: bool, nav_is_light: bool) -> (r: i32)
    ensures
        r == appearance_of(status_is_light, nav_is_light),
{
    let mut appearance: i32 = 0;
    if status_is_light {
        appearance = appearance + 8;
    }
    if nav_is_light {
        appearance = appearance + 16;
    }
    appearance
}

/// Where there is a foreground color, it alone decides on the flags, whatever the
/// colors of the bars are: a dark one sets both, and a light one neither.
pub proof fn law_foreground_decides(status: Seq<char>, nav: Seq<char>, foreground: Seq<char>)
    ensures
        appearance_of(
            shown_as_light(status, Some(foreground)),
            shown_as_light(nav, Some(foreground)),
        ) == if is_light(foreground) {
            0
        } else {
            APPEARANCE_MASK as int
        },
{
}

/// A color of three digits is as light as the one that has each of them twice.
pub proof fn law_short_colors_are_as_light(short: Seq<char>, long: Seq<char>)
    requires
        encode_utf8(color_digits(short)).len() == 3,
        encode_utf8(color_digits(long)) == part_digits(short),
    ensures
        color_parts(short) == color_parts(long),
        is_light(short) == is_light(long),
{
}

/// A grey is light from the middle on.
pub proof fn law_greys_are_light_from_the_middle(part: u8)
    ensures
        parts_are_light(part as int, part as int, part as int) == (part >= 128),
{
}

/// A color of one digit three times over is light from the middle on: one as
/// `#fff` is light, and one as `#333` is not.
pub proof fn law_short_greys_are_light_from_the_middle(color: Seq<char>, digit: u8)
    requires
        outside::is_hex(digit),
        encode_utf8(color_digits(color)) == seq![digit, digit, digit],
    ensures
        is_light(color) == (outside::hex_value(digit) >= 8),
{
    let b = part_digits(color);
    let two = seq![digit, digit];
    assert(b.subrange(0, 2) =~= two);
    assert(b.subrange(2, 4) =~= two);
    assert(b.subrange(4, 6) =~= two);
    assert(two.drop_last().drop_last() =~= Seq::empty());
    reveal_with_fuel(hex_number, 3);
    assert(color_part(two) == 17 * outside::hex_value(digit));
}

/// The flags of older systems with the two for light bars set or cleared.
pub open spec fn legacy_flags_of(current: u32, status_is_light: bool, nav_is_light: bool) -> u32 {
    let one = if status_is_light {
        current | 0x2000
    } else {
        current & !0x2000u32
    };
    if nav_is_light {
        one | 0x10
    } else {
        one & !0x10u32
    }
}

/// The flags of older systems with the two for light bars set or cleared.
pub fn legacy_flags(current: u32, status_is_light: bool, nav_is_light: bool) -> (r: u32)
    ensures
        r == legacy_flags_of(current, status_is_light, nav_is_light),
{
    let one: u32 = if status_is_light {
        current | 0x2000
    } else {
        current & !0x2000u32
    };
    if nav_is_light {
        one | 0x10
    } else {
        one & !0x10u32
    }
}

/// The two flags are then as they were asked for, and all others as they were.
pub proof fn law_other_flags_stay(current: u32, status_is_light: bool, nav_is_light: bool)
    ensures
        ({
            let f = legacy_flags_of(current, status_is_light, nav_is_light);
            &&& (f & 0x2000 != 0) == status_is_light
            &&& (f & 0x10 != 0) == nav_is_light
            &&& f & !0x2010u32 == current & !0x2010u32
        }),
{
    let f = legacy_flags_of(current, status_is_light, nav_is_light);
    assert(({
        let one = if status_is_light {
            current | 0x2000
        } else {
            current & !0x2000u32
        };
        let f = if nav_is_light {
            one | 0x10
        } else {
            one & !0x10u32
        };
        (f & 0x2000 != 0) == status_is_light && (f & 0x10 != 0) == nav_is_light && f & !0x2010u32
            == current & !0x2010u32
    })) by (bit_vector);
}

proof fn lemma_two_digits(a: u8, b: u8)
    requires
        outside::is_hex(a),
        outside::is_hex(b),
    ensures
        color_part(seq![a, b]) == 16 * outside::hex_value(a) + outside::hex_value(b),
{
    reveal_with_fuel(hex_number, 3);
    let two = seq![a, b];
    assert(two.drop_last() =~= seq![a]);
    assert(seq![a].drop_last() =~= Seq::empty());
}

/// A color of six hexadecimal digits has the three parts that they write, two
/// digits each: red, green and blue, in this order.
pub proof fn law_digits_give_the_parts(color: Seq<char>, d: Seq<u8>)
    requires
        encode_utf8(color_digits(color)) == d,
        d.len() == 6,
        all_hex(d),
    ensures
        color_parts(color) == Some(
            (
                16 * outside::hex_value(d[0]) + outside::hex_value(d[1]),
                16 * outside::hex_value(d[2]) + outside::hex_value(d[3]),
                16 * outside::hex_value(d[4]) + outside::hex_value(d[5]),
            ),
        ),
{
    lemma_two_digits(d[0], d[1]);
    lemma_two_digits(d[2], d[3]);
    lemma_two_digits(d[4], d[5]);
    assert(d.subrange(0, 2) =~= seq![d[0], d[1]]);
    assert(d.subrange(2, 4) =~= seq![d[2], d[3]]);
    assert(d.subrange(4, 6) =~= seq![d[4], d[5]]);
}

proof fn lemma_hex_push(b: Seq<u8>, x: u8)
    ensures
        hex_number(b.push(x)) == 16 * hex_number(b) + outside::hex_value(x) as nat,
{
    assert(b.push(x).drop_last() =~= b);
}

proof fn lemma_eight_digits(d: Seq<u8>)
    requires
        d.len() == 8,
        all_hex(d),
    ensures
        hex_number(d) == 16777216 * (16 * outside::hex_value(d[0]) + outside::hex_value(d[1]))
            + 65536 * (16 * outside::hex_value(d[2]) + outside::hex_value(d[3])) + 256 * (16
            * outside::hex_value(d[4]) + outside::hex_value(d[5])) + (16 * outside::hex_value(d[6])
            + outside::hex_value(d[7])),
        hex_number(d) < 0x1_0000_0000,
        parsed_hex(d) == Some(hex_number(d)),
{
    assert forall|i: int| 0 <= i < 8 implies 0 <= outside::hex_value(#[trigger] d[i]) < 16 by {
        assert(outside::is_hex(d[i]));
    }
    let e = Seq::<u8>::empty();
    assert(hex_number(e) == 0);
    lemma_hex_push(e, d[0]);
    lemma_hex_push(d.take(1), d[1]);
    lemma_hex_push(d.take(2), d[2]);
    lemma_hex_push(d.take(3), d[3]);
    lemma_hex_push(d.take(4), d[4]);
    lemma_hex_push(d.take(5), d[5]);
    lemma_hex_push(d.take(6), d[6]);
    lemma_hex_push(d.take(7), d[7]);
    assert(e.push(d[0]) =~= d.take(1));
    assert(d.take(1).push(d[1]) =~= d.take(2));
    assert(d.take(2).push(d[2]) =~= d.take(3));
    assert(d.take(3).push(d[3]) =~= d.take(4));
    assert(d.take(4).push(d[4]) =~= d.take(5));
    assert(d.take(5).push(d[5]) =~= d.take(6));
    assert(d.take(6).push(d[6]) =~= d.take(7));
    assert(d.take(7).push(d[7]) =~= d);
    assert(outside::is_hex(d[0]));
    assert(d[0] != 43);
}

/// A color of six digits is handed on as a number with full opacity: red, green
/// and blue in its lower bytes. One of eight digits has its opacity in front.
pub proof fn law_colors_are_numbers(color: Seq<char>, d: Seq<u8>, red: int, green: int, blue: int)
    requires
        encode_utf8(color_digits(color)) == d,
        all_hex(d),
    ensures
        d.len() == 6 && color_parts(color) == Some((red, green, blue)) ==> color_number(color) == Ok::<
            int,
            Seq<char>,
        >(65536 * red + 256 * green + blue - 16777216),
        d.len() == 8 ==> color_number(color) == Ok::<int, Seq<char>>(
            signed(hex_number(d) as u32),
        ),
        d.len() != 6 && d.len() != 8 ==> color_number(color) is Err,
{
    if d.len() == 6 {
        let f = seq![70u8, 70u8] + d;
        law_digits_give_the_parts(color, d);
        assert forall|i: int| 0 <= i < f.len() implies outside::is_hex(#[trigger] f[i]) by {
            if i >= 2 {
                assert(f[i] == d[i - 2]);
            }
        }
        assert(f[2] == d[0] && f[3] == d[1] && f[4] == d[2] && f[5] == d[3] && f[6] == d[4] && f[7]
            == d[5]);
        lemma_eight_digits(f);
        assert(outside::is_hex(d[0]) && outside::is_hex(d[1]) && outside::is_hex(d[2])
            && outside::is_hex(d[3]) && outside::is_hex(d[4]) && outside::is_hex(d[5]));
    }
    if d.len() == 8 {
        lemma_eight_digits(d);
    }
}

/// Of a color and its opposite one is light and the other is not, but for the
/// exact middle; white is light; and more of any part never makes a light color
/// a dark one.
pub proof fn law_light_is_the_opposite_of_dark(
    red: int,
    green: int,
    blue: int,
    more: int,
)
    ensures
        luminance(red, green, blue) != MIDDLE ==> parts_are_light(red, green, blue)
            != parts_are_light(255 - red, 255 - green, 255 - blue),
        parts_are_light(255, 255, 255),
        parts_are_light(red, green, blue) && more > 0 ==> parts_are_light(red + more, green, blue)
            && parts_are_light(red, green + more, blue) && parts_are_light(red, green, blue + more),
        parts_are_light(0, 255, 0) && !parts_are_light(255, 0, 0) && !parts_are_light(0, 0, 255),
{
}

/// A wiki's activity is told the path and the title, and the address of a server
/// exactly where there is one.
pub proof fn law_activities_are_told(
    wiki_path: Seq<char>,
    wiki_title: Seq<char>,
    is_folder: bool,
    server_url: Option<Seq<char>>,
    backups_enabled: bool,
    backup_count: u32,
)
    ensures
        ({
            let e = wiki_extras(
                wiki_path,
                wiki_title,
                is_folder,
                server_url,
                backups_enabled,
                backup_count,
            );
            &&& e.contains(ExtraView::Text("wiki_path"@, wiki_path))
            &&& e.contains(ExtraView::Text("wiki_title"@, wiki_title))
            &&& e.contains(ExtraView::Flag("is_folder"@, is_folder))
            &&& e.contains(ExtraView::Flag("backups_enabled"@, backups_enabled))
            &&& backup_count < 0x8000_0000 ==> e.contains(
                ExtraView::Number("backup_count"@, backup_count as int),
            )
            &&& server_url is Some ==> e.contains(ExtraView::Text("wiki_url"@, server_url->0))
            &&& e.len() == (if server_url is Some {
                6int
            } else {
                5
            })
        }),
{
    let e = wiki_extras(
        wiki_path,
        wiki_title,
        is_folder,
        server_url,
        backups_enabled,
        backup_count,
    );
    let n = e.len() as int;
    assert(e[0] == ExtraView::Text("wiki_path"@, wiki_path));
    assert(e[1] == ExtraView::Text("wiki_title"@, wiki_title));
    assert(e[2] == ExtraView::Flag("is_folder"@, is_folder));
    assert(e[n - 2] == ExtraView::Flag("backups_enabled"@, backups_enabled));
    assert(e[n - 1] == ExtraView::Number("backup_count"@, signed(backup_count)));
    if server_url is Some {
        assert(e[3] == ExtraView::Text("wiki_url"@, server_url->0));
    }
}

} // verus!
