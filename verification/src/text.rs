//! Textual forms of RGB colors: hex parsing and formatting, and the
//! decimal `r, g, b` form used for template substitution.

use vstd::prelude::*;
use vstd::arithmetic::div_mod::lemma_fundamental_div_mod;
use crate::color::Rgb;

verus! {

/// The failure of parsing a malformed hex color string.
#[derive(Clone, Copy, Debug, PartialEq, Eq, Structural)]
pub struct ParseError;

/// Whether a character is a hexadecimal digit (either case).
pub open spec fn is_hex_digit(c: char) -> bool {
    ('0' as int <= c as int && c as int <= '9' as int) || ('a' as int <= c as int && c as int
        <= 'f' as int) || ('A' as int <= c as int && c as int <= 'F' as int)
}

/// The numeric value of a hexadecimal digit.
pub open spec fn hex_val(c: char) -> int {
    if '0' as int <= c as int && c as int <= '9' as int {
        c as int - '0' as int
    } else if 'a' as int <= c as int && c as int <= 'f' as int {
        10 + c as int - 'a' as int
    } else {
        10 + c as int - 'A' as int
    }
}

/// A hex color body: exactly six hexadecimal digits.
pub open spec fn valid_hex6(s: Seq<char>) -> bool {
    s.len() == 6 && (forall|i: int| 0 <= i < 6 ==> is_hex_digit(#[trigger] s[i]))
}

/// Drops one optional leading `#`.
pub open spec fn strip_hash(s: Seq<char>) -> Seq<char> {
    if s.len() > 0 && s[0] == '#' {
        s.skip(1)
    } else {
        s
    }
}

/// The RGB value written by six hexadecimal digits.
pub open spec fn spec_rgb_of_hex(s: Seq<char>) -> Rgb {
    Rgb {
        r: (hex_val(s[0]) * 16 + hex_val(s[1])) as u8,
        g: (hex_val(s[2]) * 16 + hex_val(s[3])) as u8,
        b: (hex_val(s[4]) * 16 + hex_val(s[5])) as u8,
    }
}

/// The lowercase hexadecimal digit of a value below 16.
pub open spec fn hex_char_of(n: int) -> char {
    if n == 0 {
        '0'
    } else if n == 1 {
        '1'
    } else if n == 2 {
        '2'
    } else if n == 3 {
        '3'
    } else if n == 4 {
        '4'
    } else if n == 5 {
        '5'
    } else if n == 6 {
        '6'
    } else if n == 7 {
        '7'
    } else if n == 8 {
        '8'
    } else if n == 9 {
        '9'
    } else if n == 10 {
        'a'
    } else if n == 11 {
        'b'
    } else if n == 12 {
        'c'
    } else if n == 13 {
        'd'
    } else if n == 14 {
        'e'
    } else {
        'f'
    }
}

/// The two hexadecimal digits of a channel value.
pub open spec fn spec_hex_pair(n: int) -> Seq<char> {
    seq![hex_char_of(n / 16), hex_char_of(n % 16)]
}

/// The six hex digits of a color, without the leading `#`.
pub open spec fn spec_to_hex_strip(c: Rgb) -> Seq<char> {
    spec_hex_pair(c.r as int) + spec_hex_pair(c.g as int) + spec_hex_pair(c.b as int)
}

/// The hex form of a color, with the leading `#`.
pub open spec fn spec_to_hex(c: Rgb) -> Seq<char> {
    seq!['#'] + spec_to_hex_strip(c)
}

/// The decimal digits of a channel value, without leading zeros.
pub open spec fn spec_decimal(n: int) -> Seq<char> {
    if n < 10 {
        seq![hex_char_of(n)]
    } else if n < 100 {
        seq![hex_char_of(n / 10), hex_char_of(n % 10)]
    } else {
        seq![hex_char_of(n / 100), hex_char_of((n / 10) % 10), hex_char_of(n % 10)]
    }
}

/// The `r, g, b` decimal form of a color.
pub open spec fn spec_to_rgb_string(c: Rgb) -> Seq<char> {
    spec_decimal(c.r as int) + seq![',', ' '] + spec_decimal(c.g as int) + seq![',', ' ']
        + spec_decimal(c.b as int)
}

/// Parses one hexadecimal digit, in either case.
fn hex_digit_val(c: char) -> (res: Option<u8>)
    ensures
        res is Some <==> is_hex_digit(c),
        res matches Some(v) ==> v as int == hex_val(c) && v < 16,
{
    match c {
        '0' => Some(0),
        '1' => Some(1),
        '2' => Some(2),
        '3' => Some(3),
        '4' => Some(4),
        '5' => Some(5),
        '6' => Some(6),
        '7' => Some(7),
        '8' => Some(8),
        '9' => Some(9),
        'a' | 'A' => Some(10),
        'b' | 'B' => Some(11),
        'c' | 'C' => Some(12),
        'd' | 'D' => Some(13),
        'e' | 'E' => Some(14),
        'f' | 'F' => Some(15),
        _ => None,
    }
}

/// The one-character string of a value below 16, as a lowercase hex digit.
fn nibble_str(n: u8) -> (s: &'static str)
    requires
        n < 16,
    ensures
        s@ =~= seq![hex_char_of(n as int)],
{
    let s: &'static str = match n {
        0 => "0",
        1 => "1",
        2 => "2",
        3 => "3",
        4 => "4",
        5 => "5",
        6 => "6",
        7 => "7",
        8 => "8",
        9 => "9",
        10 => "a",
        11 => "b",
        12 => "c",
        13 => "d",
        14 => "e",
        _ => "f",
    };
    proof {
        reveal_strlit("0");
        reveal_strlit("1");
        reveal_strlit("2");
        reveal_strlit("3");
        reveal_strlit("4");
        reveal_strlit("5");
        reveal_strlit("6");
        reveal_strlit("7");
        reveal_strlit("8");
        reveal_strlit("9");
        reveal_strlit("a");
        reveal_strlit("b");
        reveal_strlit("c");
        reveal_strlit("d");
        reveal_strlit("e");
        reveal_strlit("f");
    }
    s
}

/// Appends the two hex digits of a channel value.
fn append_hex_pair(out: &mut String, n: u8)
    ensures
        final(out)@ == old(out)@ + spec_hex_pair(n as int),
{
    out.append(nibble_str(n / 16));
    out.append(nibble_str(n % 16));
    proof {
        assert(out@ =~= old(out)@ + spec_hex_pair(n as int));
    }
}

/// Appends the decimal digits of a channel value, without leading zeros.
fn append_decimal(out: &mut String, n: u8)
    ensures
        final(out)@ == old(out)@ + spec_decimal(n as int),
{
    if n >= 100 {
        out.append(nibble_str(n / 100));
        out.append(nibble_str((n / 10) % 10));
        out.append(nibble_str(n % 10));
    } else if n >= 10 {
        out.append(nibble_str(n / 10));
        out.append(nibble_str(n % 10));
    } else {
        out.append(nibble_str(n));
    }
    proof {
        assert(out@ =~= old(out)@ + spec_decimal(n as int));
    }
}

impl Rgb {
    /// Parses a hex color: one optional leading `#` and exactly six hex
    /// digits. Any other length or character fails.
    pub fn from_hex(hex: &str) -> (res: Result<Rgb, ParseError>)
        ensures
            res is Ok <==> valid_hex6(strip_hash(hex@)),
            res matches Ok(c) ==> c == spec_rgb_of_hex(strip_hash(hex@)),
    {
        let n: usize = hex.unicode_len();
        let off: usize = if n >= 1 && hex.get_char(0) == '#' {
            1
        } else {
            0
        };
        let ghost body: Seq<char> = strip_hash(hex@);
        proof {
            assert(body =~= hex@.skip(off as int));
        }
        if n - off != 6 {
            return Err(ParseError);
        }
        let d0: Option<u8> = hex_digit_val(hex.get_char(off));
        let d1: Option<u8> = hex_digit_val(hex.get_char(off + 1));
        let d2: Option<u8> = hex_digit_val(hex.get_char(off + 2));
        let d3: Option<u8> = hex_digit_val(hex.get_char(off + 3));
        let d4: Option<u8> = hex_digit_val(hex.get_char(off + 4));
        let d5: Option<u8> = hex_digit_val(hex.get_char(off + 5));
        proof {
            assert(body.len() == 6);
            assert(body[0] == hex@[off as int]);
            assert(body[1] == hex@[off as int + 1]);
            assert(body[2] == hex@[off as int + 2]);
            assert(body[3] == hex@[off as int + 3]);
            assert(body[4] == hex@[off as int + 4]);
            assert(body[5] == hex@[off as int + 5]);
        }
        match (d0, d1, d2, d3, d4, d5) {
            (Some(v0), Some(v1), Some(v2), Some(v3), Some(v4), Some(v5)) => {
                proof {
                    assert forall|i: int| 0 <= i < 6 implies is_hex_digit(#[trigger] body[i]) by {
                        if i == 0 {
                            assert(is_hex_digit(body[0]));
                        } else if i == 1 {
                            assert(is_hex_digit(body[1]));
                        } else if i == 2 {
                            assert(is_hex_digit(body[2]));
                        } else if i == 3 {
                            assert(is_hex_digit(body[3]));
                        } else if i == 4 {
                            assert(is_hex_digit(body[4]));
                        } else {
                            assert(is_hex_digit(body[5]));
                        }
                    }
                    assert(valid_hex6(body));
                }
                Ok(Rgb { r: v0 * 16 + v1, g: v2 * 16 + v3, b: v4 * 16 + v5 })
            },
            _ => {
                proof {
                    if valid_hex6(body) {
                        assert(is_hex_digit(body[0]));
                        assert(is_hex_digit(body[1]));
                        assert(is_hex_digit(body[2]));
                        assert(is_hex_digit(body[3]));
                        assert(is_hex_digit(body[4]));
                        assert(is_hex_digit(body[5]));
                    }
                }
                Err(ParseError)
            },
        }
    }

    /// Formats this color as `#rrggbb` with lowercase hex digits.
    pub fn to_hex(self) -> (s: String)
        ensures
            s@ == spec_to_hex(self),
    {
        let mut out: String = String::from_str("#");
        proof {
            reveal_strlit("#");
        }
        append_hex_pair(&mut out, self.r);
        append_hex_pair(&mut out, self.g);
        append_hex_pair(&mut out, self.b);
        proof {
            assert(out@ =~= spec_to_hex(self));
        }
        out
    }

    /// Formats this color as `rrggbb`, without the leading `#`.
    pub fn to_hex_strip(self) -> (s: String)
        ensures
            s@ == spec_to_hex_strip(self),
    {
        let mut out: String = String::new();
        append_hex_pair(&mut out, self.r);
        append_hex_pair(&mut out, self.g);
        append_hex_pair(&mut out, self.b);
        proof {
            assert(out@ =~= spec_to_hex_strip(self));
        }
        out
    }

    /// Formats this color as `r, g, b` in decimal.
    pub fn to_rgb_string(self) -> (s: String)
        ensures
            s@ == spec_to_rgb_string(self),
    {
        let mut out: String = String::new();
        append_decimal(&mut out, self.r);
        out.append(comma_space());
        append_decimal(&mut out, self.g);
        out.append(comma_space());
        append_decimal(&mut out, self.b);
        proof {
            assert(out@ =~= spec_to_rgb_string(self));
        }
        out
    }
}

/// The `, ` separator of the decimal form.
fn comma_space() -> (s: &'static str)
    ensures
        s@ =~= seq![',', ' '],
{
    proof {
        reveal_strlit(", ");
    }
    ", "
}

/// The position of the first `#` at or after `i`, if any.
pub open spec fn spec_find_hash(s: Seq<char>, i: int) -> Option<int>
    decreases s.len() - i,
{
    if i < 0 || i >= s.len() {
        None
    } else if s[i] == '#' {
        Some(i)
    } else {
        spec_find_hash(s, i + 1)
    }
}

/// The color named by a histogram line: the six characters after the
/// first `#`, read as hex, if the line holds that many and they parse.
pub open spec fn spec_parse_histogram_line(s: Seq<char>) -> Option<Rgb> {
    match spec_find_hash(s, 0) {
        None => None,
        Some(k) => if k + 7 > s.len() {
            None
        } else {
            let hex: Seq<char> = strip_hash(s.subrange(k + 1, k + 7));
            if valid_hex6(hex) {
                Some(spec_rgb_of_hex(hex))
            } else {
                None
            }
        },
    }
}

/// Reads one line of the sampler's histogram output: the hex color after
/// the first `#`, if the line holds one.
pub fn parse_histogram_line(line: &str) -> (res: Option<Rgb>)
    ensures
        res == spec_parse_histogram_line(line@),
{
    let n: usize = line.unicode_len();
    let mut hash_idx: usize = n;
    let mut i: usize = 0;
    while i < n
        invariant
            i <= n,
            n == line@.len(),
            hash_idx == n || (hash_idx < i && line@[hash_idx as int] == '#'),
            spec_find_hash(line@, 0) == (if hash_idx == n {
                spec_find_hash(line@, i as int)
            } else {
                Some(hash_idx as int)
            }),
        decreases n - i,
    {
        if hash_idx == n && line.get_char(i) == '#' {
            hash_idx = i;
        }
        i = i + 1;
    }
    if hash_idx == n {
        return None;
    }
    if n - hash_idx < 7 {
        return None;
    }
    let sub: &str = line.substring_char(hash_idx + 1, hash_idx + 7);
    match Rgb::from_hex(sub) {
        Ok(c) => Some(c),
        Err(_) => None,
    }
}

/// A hex digit below 16 reads back as its own value.
pub proof fn lemma_hex_char_val(v: int)
    requires
        0 <= v < 16,
    ensures
        is_hex_digit(hex_char_of(v)),
        hex_val(hex_char_of(v)) == v,
{
}

/// Formatting a color as hex and parsing it back returns the same color.
pub proof fn lemma_hex_round_trip(c: Rgb)
    ensures
        valid_hex6(strip_hash(spec_to_hex(c))),
        spec_rgb_of_hex(strip_hash(spec_to_hex(c))) == c,
{
    let t: Seq<char> = spec_to_hex(c);
    assert(t[0] == '#');
    assert(strip_hash(t) =~= spec_to_hex_strip(c));
    let body: Seq<char> = spec_to_hex_strip(c);
    assert(body[0] == hex_char_of(c.r as int / 16));
    assert(body[1] == hex_char_of(c.r as int % 16));
    assert(body[2] == hex_char_of(c.g as int / 16));
    assert(body[3] == hex_char_of(c.g as int % 16));
    assert(body[4] == hex_char_of(c.b as int / 16));
    assert(body[5] == hex_char_of(c.b as int % 16));
    lemma_hex_char_val(c.r as int / 16);
    lemma_hex_char_val(c.r as int % 16);
    lemma_hex_char_val(c.g as int / 16);
    lemma_hex_char_val(c.g as int % 16);
    lemma_hex_char_val(c.b as int / 16);
    lemma_hex_char_val(c.b as int % 16);
    lemma_fundamental_div_mod(c.r as int, 16);
    lemma_fundamental_div_mod(c.g as int, 16);
    lemma_fundamental_div_mod(c.b as int, 16);
}

} // verus!
