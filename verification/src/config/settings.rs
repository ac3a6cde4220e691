use vstd::prelude::*;

use crate::models::system::SNAP_GAP;

verus! {

/// The `[snapping]` section of the configuration.
pub struct SnappingEntry {
    pub gap: Option<i32>,
}

/// The `[colors]` section of the configuration: border colours as `#RRGGBB` text.
pub struct ColorsEntry {
    pub floating: Option<String>,
    pub stretched: Option<String>,
    pub zoned: Option<String>,
}

/// Border colour of a floating window, as a `0x00BBGGRR` colour value.
pub const DEFAULT_COLOR_FLOATING: u32 = 0x0067B051;
/// Border colour of a stretched window.
pub const DEFAULT_COLOR_STRETCHED: u32 = 0x0058C5ED;
/// Border colour of a zoned window.
pub const DEFAULT_COLOR_ZONED: u32 = 0x00FFA269;

/// The settings in effect: the gap left around snapped windows and the border colours,
/// each a `0x00BBGGRR` colour value.
#[derive(Clone, Copy, Debug, PartialEq, Eq, Structural)]
pub struct Settings {
    pub snap_gap: i32,
    pub color_floating: u32,
    pub color_stretched: u32,
    pub color_zoned: u32,
}

impl Default for Settings {
    fn default() -> (s: Self)
        ensures
            s == (Settings {
                snap_gap: SNAP_GAP,
                color_floating: DEFAULT_COLOR_FLOATING,
                color_stretched: DEFAULT_COLOR_STRETCHED,
                color_zoned: DEFAULT_COLOR_ZONED,
            }),
    {
        Settings {
            snap_gap: SNAP_GAP,
            color_floating: DEFAULT_COLOR_FLOATING,
            color_stretched: DEFAULT_COLOR_STRETCHED,
            color_zoned: DEFAULT_COLOR_ZONED,
        }
    }
}

/// The colour value of red `r`, green `g` and blue `b`: `0x00BBGGRR`.
pub open spec fn spec_colorref(r: nat, g: nat, b: nat) -> nat {
    b * 65536 + g * 256 + r
}

/// The colour value of red `r`, green `g` and blue `b`: `0x00BBGGRR`.
pub fn colorref(r: u8, g: u8, b: u8) -> (c: u32)
    ensures
        c as nat == spec_colorref(r as nat, g as nat, b as nat),
{
    (b as u32) * 65536 + (g as u32) * 256 + (r as u32)
}

/// Whether `c` is white space as Unicode has it (what `str::trim` strips).
pub open spec fn is_white(c: char) -> bool {
    ('\u{9}' <= c <= '\u{d}') || c == ' ' || c == '\u{85}' || c == '\u{a0}' || c == '\u{1680}'
        || ('\u{2000}' <= c <= '\u{200a}') || c == '\u{2028}' || c == '\u{2029}' || c == '\u{202f}'
        || c == '\u{205f}' || c == '\u{3000}'
}

/// `s` without its leading white space.
pub open spec fn trim_start(s: Seq<char>) -> Seq<char>
    decreases s.len(),
{
    if s.len() > 0 && is_white(s[0]) {
        trim_start(s.drop_first())
    } else {
        s
    }
}

/// `s` without its trailing white space.
pub open spec fn trim_end(s: Seq<char>) -> Seq<char>
    decreases s.len(),
{
    if s.len() > 0 && is_white(s.last()) {
        trim_end(s.drop_last())
    } else {
        s
    }
}

/// `s` without its leading `#` characters.
pub open spec fn hashes_dropped(s: Seq<char>) -> Seq<char>
    decreases s.len(),
{
    if s.len() > 0 && s[0] == '#' {
        hashes_dropped(s.drop_first())
    } else {
        s
    }
}

/// The value of hexadecimal digit `c`.
pub open spec fn hex_value(c: char) -> Option<nat> {
    if '0' <= c <= '9' {
        Some((c as nat - '0' as nat) as nat)
    } else if 'a' <= c <= 'f' {
        Some((c as nat - 'a' as nat + 10) as nat)
    } else if 'A' <= c <= 'F' {
        Some((c as nat - 'A' as nat + 10) as nat)
    } else {
        None
    }
}

/// The byte that the two characters `a`, `b` give read as a hexadecimal number: two hex
/// digits, or a `+` sign and one digit.
pub open spec fn hex_byte(a: char, b: char) -> Option<nat> {
    match (a, hex_value(a), hex_value(b)) {
        (_, Some(x), Some(y)) => Some(x * 16 + y),
        ('+', None, Some(y)) => Some(y),
        _ => None,
    }
}

/// Whether `c` is an ASCII character.
pub open spec fn is_ascii_char(c: char) -> bool {
    (c as u32) < 128
}

/// Bytes that `c` takes in UTF-8.
pub open spec fn utf8_len(c: char) -> nat {
    if (c as u32) < 0x80 {
        1
    } else if (c as u32) < 0x800 {
        2
    } else if (c as u32) < 0x10000 {
        3
    } else {
        4
    }
}

/// Bytes that `t` takes in UTF-8.
pub open spec fn utf8_size(t: Seq<char>) -> nat
    decreases t.len(),
{
    if t.len() == 0 {
        0
    } else {
        utf8_size(t.drop_last()) + utf8_len(t.last())
    }
}

/// Whether byte offset `k` of `t`, written in UTF-8, falls between two characters.
pub open spec fn on_char_boundary(t: Seq<char>, k: nat) -> bool {
    exists|j: int| 0 <= j <= t.len() && #[trigger] utf8_size(t.take(j)) == k
}

/// Whether reading `s` as a colour cuts a character in two: its text, once trimmed, is
/// six bytes long and byte 2 falls inside a character, or the first two bytes read as a
/// hexadecimal byte and byte 4 falls inside one. Such text is refused, not read.
pub open spec fn color_text_cuts_char(s: Seq<char>) -> bool {
    let t = hashes_dropped(trim_end(trim_start(s)));
    &&& utf8_size(t) == 6
    &&& !on_char_boundary(t, 2) || (t.len() >= 2 && is_ascii_char(t[0]) && is_ascii_char(t[1])
        && hex_byte(t[0], t[1]) is Some && !on_char_boundary(t, 4))
}

/// The colour value that `s` gives as `RRGGBB` text, after white space around it and
/// leading `#` characters.
pub open spec fn spec_parse_hex_color(s: Seq<char>) -> Option<u32> {
    let t = hashes_dropped(trim_end(trim_start(s)));
    if t.len() == 6 && (forall|i: int| 0 <= i < 6 ==> is_ascii_char(#[trigger] t[i])) {
        match (hex_byte(t[0], t[1]), hex_byte(t[2], t[3]), hex_byte(t[4], t[5])) {
            (Some(r), Some(g), Some(b)) => Some(spec_colorref(r, g, b) as u32),
            _ => None,
        }
    } else {
        None
    }
}

fn white(c: char) -> (b: bool)
    ensures
        b == is_white(c),
{
    ('\u{9}' <= c && c <= '\u{d}') || c == ' ' || c == '\u{85}' || c == '\u{a0}' || c == '\u{1680}'
        || ('\u{2000}' <= c && c <= '\u{200a}') || c == '\u{2028}' || c == '\u{2029}' || c == '\u{202f}'
        || c == '\u{205f}' || c == '\u{3000}'
}

fn hex_digit(c: char) -> (v: Option<u32>)
    ensures
        match v {
            Some(x) => hex_value(c) == Some(x as nat) && x < 16,
            None => hex_value(c) is None,
        },
{
    if '0' <= c && c <= '9' {
        Some(c as u32 - '0' as u32)
    } else if 'a' <= c && c <= 'f' {
        Some(c as u32 - 'a' as u32 + 10)
    } else if 'A' <= c && c <= 'F' {
        Some(c as u32 - 'A' as u32 + 10)
    } else {
        None
    }
}

fn hex_pair(a: char, b: char) -> (v: Option<u32>)
    ensures
        match v {
            Some(x) => hex_byte(a, b) == Some(x as nat) && x < 256,
            None => hex_byte(a, b) is None,
        },
{
    match (hex_digit(a), hex_digit(b)) {
        (Some(x), Some(y)) => Some(x * 16 + y),
        (None, Some(y)) => {
            if a == '+' {
                Some(y)
            } else {
                None
            }
        },
        _ => None,
    }
}

/// Reads a border colour written `RRGGBB` in hexadecimal, with or without leading `#`
/// and white space around it, as a `0x00BBGGRR` colour value.
pub fn parse_hex_color(s: &str) -> (r: Option<u32>)
    requires
        !color_text_cuts_char(s@),
    ensures
        r == spec_parse_hex_color(s@),
{
    let n = s.unicode_len();
    let mut a: usize = 0;
    assert(s@.subrange(0, n as int) =~= s@);
    while a < n && white(s.get_char(a))
        invariant
            n == s@.len(),
            a <= n,
            trim_start(s@) == trim_start(s@.subrange(a as int, n as int)),
        decreases n - a,
    {
        assert(s@.subrange(a as int, n as int).drop_first() =~= s@.subrange(a as int + 1, n as int));
        a = a + 1;
    }
    assert(trim_start(s@) == s@.subrange(a as int, n as int));
    let mut b: usize = n;
    while b > a && white(s.get_char(b - 1))
        invariant
            n == s@.len(),
            a <= b <= n,
            trim_end(trim_start(s@)) == trim_end(s@.subrange(a as int, b as int)),
        decreases b - a,
    {
        assert(s@.subrange(a as int, b as int).drop_last() =~= s@.subrange(a as int, b as int - 1));
        b = b - 1;
    }
    assert(trim_end(trim_start(s@)) == s@.subrange(a as int, b as int));
    while a < b && s.get_char(a) == '#'
        invariant
            n == s@.len(),
            a <= b <= n,
            hashes_dropped(trim_end(trim_start(s@))) == hashes_dropped(s@.subrange(a as int, b as int)),
        decreases b - a,
    {
        assert(s@.subrange(a as int, b as int).drop_first() =~= s@.subrange(a as int + 1, b as int));
        a = a + 1;
    }
    let ghost t = s@.subrange(a as int, b as int);
    assert(hashes_dropped(trim_end(trim_start(s@))) == t);
    if b - a != 6 {
        return None;
    }
    let mut k: usize = 0;
    while k < 6
        invariant
            n == s@.len(),
            a + 6 == b <= n,
            t == s@.subrange(a as int, b as int),
            hashes_dropped(trim_end(trim_start(s@))) == t,
            k <= 6,
            forall|i: int| 0 <= i < k ==> is_ascii_char(#[trigger] t[i]),
        decreases 6 - k,
    {
        let c = s.get_char(a + k);
        assert(t[k as int] == c);
        if c as u32 >= 128 {
            assert(!is_ascii_char(t[k as int]));
            return None;
        }
        k = k + 1;
    }
    let r = hex_pair(s.get_char(a), s.get_char(a + 1));
    let g = hex_pair(s.get_char(a + 2), s.get_char(a + 3));
    let bb = hex_pair(s.get_char(a + 4), s.get_char(a + 5));
    assert(t[0] == s@[a as int] && t[1] == s@[a + 1] && t[2] == s@[a + 2]);
    assert(t[3] == s@[a + 3] && t[4] == s@[a + 4] && t[5] == s@[a + 5]);
    match (r, g, bb) {
        (Some(r), Some(g), Some(bb)) => Some(colorref(r as u8, g as u8, bb as u8)),
        _ => None,
    }
}

/// The settings that the `[snapping]` and `[colors]` sections give: each value as
/// configured, or its default where the section, the value or a valid colour is missing.
pub fn settings_from(snapping: &Option<SnappingEntry>, colors: &Option<ColorsEntry>) -> (s: Settings)
    requires
        colors_floating(*colors) matches Some(t) ==> !color_text_cuts_char(t),
        colors_stretched(*colors) matches Some(t) ==> !color_text_cuts_char(t),
        colors_zoned(*colors) matches Some(t) ==> !color_text_cuts_char(t),
    ensures
        s.snap_gap == match snapping {
            Some(e) => match e.gap {
                Some(g) => g,
                None => SNAP_GAP,
            },
            None => SNAP_GAP,
        },
        s.color_floating == color_or(colors_floating(*colors), DEFAULT_COLOR_FLOATING),
        s.color_stretched == color_or(colors_stretched(*colors), DEFAULT_COLOR_STRETCHED),
        s.color_zoned == color_or(colors_zoned(*colors), DEFAULT_COLOR_ZONED),
{
    let snap_gap = match snapping {
        Some(e) => match e.gap {
            Some(g) => g,
            None => SNAP_GAP,
        },
        None => SNAP_GAP,
    };
    let (f, st, z) = match colors {
        Some(c) => (color_text_or(&c.floating, DEFAULT_COLOR_FLOATING), color_text_or(&c.stretched, DEFAULT_COLOR_STRETCHED), color_text_or(&c.zoned, DEFAULT_COLOR_ZONED)),
        None => (DEFAULT_COLOR_FLOATING, DEFAULT_COLOR_STRETCHED, DEFAULT_COLOR_ZONED),
    };
    Settings { snap_gap, color_floating: f, color_stretched: st, color_zoned: z }
}

/// The floating colour text of a `[colors]` section, if any.
pub open spec fn colors_floating(c: Option<ColorsEntry>) -> Option<Seq<char>> {
    match c {
        Some(e) => match e.floating {
            Some(t) => Some(t@),
            None => None,
        },
        None => None,
    }
}

/// The stretched colour text of a `[colors]` section, if any.
pub open spec fn colors_stretched(c: Option<ColorsEntry>) -> Option<Seq<char>> {
    match c {
        Some(e) => match e.stretched {
            Some(t) => Some(t@),
            None => None,
        },
        None => None,
    }
}

/// The zoned colour text of a `[colors]` section, if any.
pub open spec fn colors_zoned(c: Option<ColorsEntry>) -> Option<Seq<char>> {
    match c {
        Some(e) => match e.zoned {
            Some(t) => Some(t@),
            None => None,
        },
        None => None,
    }
}

/// The colour that text `t` gives, or `default` when there is no text or it is no colour.
pub open spec fn color_or(t: Option<Seq<char>>, default: u32) -> u32 {
    match t {
        Some(text) => match spec_parse_hex_color(text) {
            Some(c) => c,
            None => default,
        },
        None => default,
    }
}

fn color_text_or(t: &Option<String>, default: u32) -> (c: u32)
    requires
        t matches Some(s) ==> !color_text_cuts_char(s@),
    ensures
        c == color_or(match t {
            Some(s) => Some(s@),
            None => None,
        }, default),
{
    match t {
        Some(s) => match parse_hex_color(s.as_str()) {
            Some(c) => c,
            None => default,
        },
        None => default,
    }
}

} // verus!
