//! Colors and their textual forms: `#RRGGBB`, `rgb(r, g, b)` with decimal
//! components, and a small set of named colors (matched case-insensitively).

use vstd::prelude::*;

use crate::normalize::{find_char, lemma_find_char, scan_for, scan_ws, subrange_vec, ws_len};
use crate::text::{chars_of, is_ws, lower, str_eq, to_lower, ws_char};

verus! {

/// An RGB color.
#[derive(Clone, Copy, PartialEq, Eq, Structural, Debug)]
pub struct Color {
    pub r: u8,
    pub g: u8,
    pub b: u8,
}

impl Default for Color {
    /// White, the fallback for unconfigured colors.
    fn default() -> (c: Self)
        ensures
            c == (Color { r: 255, g: 255, b: 255 }),
    {
        Color { r: 255, g: 255, b: 255 }
    }
}

/// The value of one hexadecimal digit, or -1.
pub open spec fn hex_val(c: char) -> int {
    if 48 <= c as int && c as int <= 57 {
        c as int - 48
    } else if 97 <= c as int && c as int <= 102 {
        c as int - 87
    } else if 65 <= c as int && c as int <= 70 {
        c as int - 55
    } else {
        -1
    }
}

/// A `#` followed by six hexadecimal digits.
pub open spec fn spec_hex_color(s: Seq<char>) -> Option<Color> {
    if s.len() == 7 && (forall|j: int| 1 <= j < 7 ==> hex_val(#[trigger] s[j]) >= 0) {
        Some(
            Color {
                r: (hex_val(s[1]) * 16 + hex_val(s[2])) as u8,
                g: (hex_val(s[3]) * 16 + hex_val(s[4])) as u8,
                b: (hex_val(s[5]) * 16 + hex_val(s[6])) as u8,
            },
        )
    } else {
        None
    }
}

/// The value of a run of decimal digits, most significant first.
pub open spec fn dec_val(s: Seq<char>) -> int
    decreases s.len(),
{
    if s.len() == 0 {
        0
    } else {
        dec_val(s.drop_last()) * 10 + (s.last() as int - 48)
    }
}

/// Only decimal digits.
pub open spec fn all_digits(s: Seq<char>) -> bool {
    forall|j: int| 0 <= j < s.len() ==> 48 <= (#[trigger] s[j]) as int <= 57
}

/// Trailing whitespace length.
pub open spec fn ws_end_len(s: Seq<char>) -> int
    decreases s.len(),
{
    if s.len() == 0 || !is_ws(s.last()) {
        0
    } else {
        1 + ws_end_len(s.drop_last())
    }
}

pub proof fn lemma_ws_end_len(s: Seq<char>)
    ensures
        0 <= ws_end_len(s) <= s.len(),
        forall|j: int| s.len() - ws_end_len(s) <= j < s.len() ==> is_ws(#[trigger] s[j]),
        ws_end_len(s) < s.len() ==> !is_ws(s[s.len() - ws_end_len(s) - 1]),
    decreases s.len(),
{
    if s.len() == 0 || !is_ws(s.last()) {
    } else {
        lemma_ws_end_len(s.drop_last());
        assert forall|j: int| s.len() - ws_end_len(s) <= j < s.len() implies is_ws(
            #[trigger] s[j],
        ) by {
            if j < s.len() - 1 {
                assert(is_ws(s.drop_last()[j]));
            }
        }
        if ws_end_len(s) < s.len() {
            assert(!is_ws(s.drop_last()[s.len() - ws_end_len(s) - 2 + 1]));
        }
    }
}

/// A component stripped of surrounding whitespace.
pub open spec fn spec_trim(s: Seq<char>) -> Seq<char> {
    let t = s.skip(ws_len(s));
    t.take(t.len() - ws_end_len(t))
}

/// A non-empty all-digit component whose value fits a color channel, after
/// trimming.
pub open spec fn comp_ok(s: Seq<char>) -> bool {
    let t = spec_trim(s);
    t.len() >= 1 && all_digits(t) && dec_val(t) <= 255
}

/// The channel value of a component.
pub open spec fn comp_val(s: Seq<char>) -> u8 {
    dec_val(spec_trim(s)) as u8
}

/// `rgb(` then exactly three comma-separated decimal components, then `)`.
pub open spec fn spec_rgb_color(s: Seq<char>) -> Option<Color> {
    let inner = s.subrange(4, s.len() - 1);
    let k1 = find_char(inner, ',');
    if k1 < inner.len() {
        let rest = inner.skip(k1 + 1);
        let k2 = find_char(rest, ',');
        if k2 < rest.len() {
            let p1 = inner.take(k1);
            let p2 = rest.take(k2);
            let p3 = rest.skip(k2 + 1);
            if find_char(p3, ',') == p3.len() && comp_ok(p1) && comp_ok(p2) && comp_ok(p3) {
                Some(Color { r: comp_val(p1), g: comp_val(p2), b: comp_val(p3) })
            } else {
                None
            }
        } else {
            None
        }
    } else {
        None
    }
}

/// One of the eight color names, matched case-insensitively.
pub open spec fn spec_named_color(s: Seq<char>) -> Option<Color> {
    let l = lower(s);
    if l == "black"@ {
        Some(Color { r: 0, g: 0, b: 0 })
    } else if l == "red"@ {
        Some(Color { r: 255, g: 0, b: 0 })
    } else if l == "green"@ {
        Some(Color { r: 0, g: 255, b: 0 })
    } else if l == "yellow"@ {
        Some(Color { r: 255, g: 255, b: 0 })
    } else if l == "blue"@ {
        Some(Color { r: 0, g: 0, b: 255 })
    } else if l == "magenta"@ {
        Some(Color { r: 255, g: 0, b: 255 })
    } else if l == "cyan"@ {
        Some(Color { r: 0, g: 255, b: 255 })
    } else if l == "white"@ {
        Some(Color { r: 255, g: 255, b: 255 })
    } else {
        None
    }
}

/// A leading `#` selects the hexadecimal form.
pub open spec fn is_hex_shape(s: Seq<char>) -> bool {
    s.len() > 0 && s[0] == '#'
}

/// A `rgb(` ... `)` wrapper selects the component form.
pub open spec fn is_rgb_shape(s: Seq<char>) -> bool {
    s.len() >= 5 && s.take(4) == "rgb("@ && s[s.len() - 1] == ')'
}

/// What a color string denotes, if anything.
pub open spec fn spec_color(s: Seq<char>) -> Option<Color> {
    if is_hex_shape(s) {
        spec_hex_color(s)
    } else if is_rgb_shape(s) {
        spec_rgb_color(s)
    } else {
        spec_named_color(s)
    }
}

/// Whether the character is a decimal digit.
fn digit_char(c: char) -> (r: bool)
    ensures
        r == (48 <= c as int <= 57),
{
    let u = c as u32;
    48 <= u && u <= 57
}

/// The value of one hexadecimal digit.
fn hex_digit(c: char) -> (r: Option<u8>)
    ensures
        match r {
            Some(v) => hex_val(c) == v as int && v <= 15,
            None => hex_val(c) < 0,
        },
{
    let u = c as u32;
    if 48 <= u && u <= 57 {
        Some((u - 48) as u8)
    } else if 97 <= u && u <= 102 {
        Some((u - 87) as u8)
    } else if 65 <= u && u <= 70 {
        Some((u - 55) as u8)
    } else {
        None
    }
}

/// Longer runs of digits can only denote larger values.
proof fn lemma_dec_val_grows(s: Seq<char>, i: int)
    requires
        0 <= i <= s.len(),
        all_digits(s),
    ensures
        dec_val(s) >= dec_val(s.take(i)),
        dec_val(s.take(i)) >= 0,
    decreases s.len() - i,
{
    if i == s.len() {
        assert(s.take(i) =~= s);
        lemma_dec_val_nonneg(s);
    } else {
        lemma_dec_val_grows(s, i + 1);
        lemma_dec_val_nonneg(s.take(i));
        assert(s.take(i + 1).drop_last() =~= s.take(i));
        assert(48 <= s[i] as int <= 57);
        assert(dec_val(s.take(i + 1)) == dec_val(s.take(i)) * 10 + (s[i] as int - 48));
    }
}

proof fn lemma_dec_val_nonneg(s: Seq<char>)
    requires
        all_digits(s),
    ensures
        dec_val(s) >= 0,
    decreases s.len(),
{
    if s.len() > 0 {
        assert forall|j: int| 0 <= j < s.drop_last().len() implies 48 <= (
        #[trigger] s.drop_last()[j]) as int <= 57 by {
            assert(48 <= s[j] as int <= 57);
        }
        lemma_dec_val_nonneg(s.drop_last());
        assert(48 <= s[s.len() - 1] as int <= 57);
    }
}

/// The bounds of a component once surrounding whitespace is stripped.
fn trim_bounds(v: &Vec<char>) -> (r: (usize, usize))
    ensures
        r.0 <= r.1 <= v@.len(),
        v@.subrange(r.0 as int, r.1 as int) == spec_trim(v@),
{
    let a = scan_ws(v, 0);
    proof {
        assert(v@.skip(0) =~= v@);
    }
    let ghost t = v@.skip(a as int);
    let mut b = v.len();
    while b > a && ws_char(v[b - 1])
        invariant
            a <= b <= v@.len(),
            a as int == ws_len(v@),
            t == v@.skip(a as int),
            forall|j: int| b <= j < v@.len() ==> is_ws(#[trigger] v@[j]),
        decreases b,
    {
        b -= 1;
    }
    proof {
        lemma_ws_end_len(t);
        crate::normalize::lemma_ws_len(v@);
        assert(forall|j: int| 0 <= j < t.len() ==> #[trigger] t[j] == v@[a + j]);
        let w = ws_end_len(t);
        assert(v@.len() - b == w) by {
            if v@.len() - b < w {
                if b == a {
                    assert(t.len() < w);
                } else {
                    assert(!is_ws(v@[b - 1]));
                    assert(is_ws(t[b - 1 - a]));
                }
            }
            if v@.len() - b > w {
                assert(is_ws(v@[v@.len() - w - 1])) by {
                    assert(b <= v@.len() - w - 1 < v@.len());
                }
                if w < t.len() {
                    assert(!is_ws(t[t.len() - w - 1]));
                } else {
                    assert(v@.len() - w - 1 < a);
                    assert(is_ws(v@[v@.len() - w - 1]));
                    assert(v@.len() - b > t.len());
                }
            }
        }
        assert(v@.subrange(a as int, b as int) =~= spec_trim(v@));
    }
    (a, b)
}

/// The channel value of one component, when it is well-formed.
fn parse_component(v: &Vec<char>) -> (r: Option<u8>)
    ensures
        match r {
            Some(c) => comp_ok(v@) && c == comp_val(v@),
            None => !comp_ok(v@),
        },
{
    let (a, b) = trim_bounds(v);
    let ghost t = spec_trim(v@);
    if a == b {
        return None;
    }
    let mut val: u32 = 0;
    let mut i = a;
    while i < b
        invariant
            a <= i <= b <= v@.len(),
            t == spec_trim(v@),
            t == v@.subrange(a as int, b as int),
            all_digits(t.take(i - a)),
            val <= 255,
            val as int == dec_val(t.take(i - a)),
        decreases b - i,
    {
        let c = v[i];
        proof {
            assert(c == v@[i as int]);
        }
        if !digit_char(c) {
            proof {
                assert(t[i - a] == v@[i as int]);
                assert(!all_digits(t));
            }
            return None;
        }
        let d = (c as u32) - 48;
        proof {
            assert(48 <= c as u32 <= 57);
            assert(t.take(i - a + 1).drop_last() =~= t.take(i - a));
            assert(t[i - a] == v@[i as int]);
            assert forall|j: int| 0 <= j < i - a + 1 implies 48 <= (#[trigger] t.take(
                i - a + 1,
            )[j]) as int <= 57 by {
                if j < i - a {
                    assert(48 <= t.take(i - a)[j] as int <= 57);
                    assert(t.take(i - a + 1)[j] == t.take(i - a)[j]);
                } else {
                    assert(t.take(i - a + 1)[j] == t[i - a]);
                    assert(t[i - a] == v@[i as int]);
                    assert(v@[i as int] == c);
                    assert(48 <= c as int <= 57);
                }
            }
        }
        let next = val * 10 + d;
        if next > 255 {
            proof {
                if comp_ok(v@) {
                    lemma_dec_val_grows(t, i - a + 1);
                }
            }
            return None;
        }
        val = next;
        i += 1;
    }
    proof {
        assert(t.take(b - a) =~= t);
    }
    Some(val as u8)
}

impl Color {
    /// Parse the textual form of a color.
    ///
    /// `#RRGGBB`, `rgb(r, g, b)` with decimal components up to 255, or one
    /// of eight color names in any case. Exactly the strings
    /// [`spec_color`] accepts are accepted; anything else is reported with
    /// a message naming the form that was attempted.
    pub fn try_from(value: &str) -> (res: Result<Color, String>)
        ensures
            match res {
                Ok(c) => spec_color(value@) == Some(c),
                Err(e) => spec_color(value@) is None && e@ == (if is_hex_shape(value@) {
                    "Invalid hex color format. Use #RRGGBB"@
                } else if is_rgb_shape(value@) {
                    "Invalid RGB color format. Use rgb(r, g, b)"@
                } else {
                    "Invalid color"@
                }),
            },
    {
        let cs = chars_of(value);
        let n = cs.len();
        if n > 0 && cs[0] == '#' {
            if n == 7 {
                let h1 = hex_digit(cs[1]);
                let h2 = hex_digit(cs[2]);
                let h3 = hex_digit(cs[3]);
                let h4 = hex_digit(cs[4]);
                let h5 = hex_digit(cs[5]);
                let h6 = hex_digit(cs[6]);
                match (h1, h2, h3, h4, h5, h6) {
                    (Some(a), Some(b), Some(c), Some(d), Some(e), Some(f)) => {
                        proof {
                            assert forall|j: int| 1 <= j < 7 implies hex_val(
                                #[trigger] value@[j],
                            ) >= 0 by {
                                assert(value@[1] == cs@[1] && value@[2] == cs@[2] && value@[3]
                                    == cs@[3] && value@[4] == cs@[4] && value@[5] == cs@[5]
                                    && value@[6] == cs@[6]);
                            }
                        }
                        return Ok(Color { r: a * 16 + b, g: c * 16 + d, b: e * 16 + f });
                    },
                    _ => {
                        return Err("Invalid hex color format. Use #RRGGBB".to_owned());
                    },
                }
            }
            return Err("Invalid hex color format. Use #RRGGBB".to_owned());
        }
        let rgb_shape = n >= 5 && cs[0] == 'r' && cs[1] == 'g' && cs[2] == 'b' && cs[3] == '('
            && cs[n - 1] == ')';
        proof {
            reveal_strlit("rgb(");
            if rgb_shape {
                assert(value@.take(4) =~= "rgb("@);
            } else if value@.len() >= 5 && value@.take(4) == "rgb("@ {
                assert(value@[0] == 'r' && value@[1] == 'g' && value@[2] == 'b' && value@[3]
                    == '(') by {
                    assert(value@.take(4)[0] == 'r' && value@.take(4)[1] == 'g' && value@.take(
                        4,
                    )[2] == 'b' && value@.take(4)[3] == '(');
                }
            }
        }
        if rgb_shape {
            let ghost inner_s = value@.subrange(4, value@.len() - 1);
            let inner = subrange_vec(&cs, 4, n - 1);
            let k1 = scan_for(&inner, 0, ',');
            proof {
                assert(inner_s.skip(0) =~= inner_s);
            }
            if k1 < inner.len() {
                let k2 = scan_for(&inner, k1 + 1, ',');
                proof {
                    assert(inner_s.skip(k1 as int).skip(1) =~= inner_s.skip(k1 as int + 1));
                    lemma_find_char(inner_s.skip(k1 as int + 1), ',');
                }
                if k2 < inner.len() {
                    let k3 = scan_for(&inner, k2 + 1, ',');
                    let ghost rest = inner_s.skip(k1 as int + 1);
                    proof {
                        assert(rest.skip(k2 - k1) =~= inner_s.skip(k2 as int + 1));
                        lemma_find_char(inner_s.skip(k2 as int + 1), ',');
                    }
                    if k3 == inner.len() {
                        let p1 = subrange_vec(&inner, 0, k1);
                        let p2 = subrange_vec(&inner, k1 + 1, k2);
                        let p3 = subrange_vec(&inner, k2 + 1, inner.len());
                        proof {
                            assert(p1@ =~= inner_s.take(find_char(inner_s, ',')));
                            assert(p2@ =~= rest.take(find_char(rest, ',')));
                            assert(p3@ =~= rest.skip(find_char(rest, ',') + 1));
                        }
                        let c1 = parse_component(&p1);
                        let c2 = parse_component(&p2);
                        let c3 = parse_component(&p3);
                        match (c1, c2, c3) {
                            (Some(r), Some(g), Some(b)) => {
                                return Ok(Color { r, g, b });
                            },
                            _ => {
                                return Err(
                                    "Invalid RGB color format. Use rgb(r, g, b)".to_owned(),
                                );
                            },
                        }
                    }
                    return Err("Invalid RGB color format. Use rgb(r, g, b)".to_owned());
                }
                return Err("Invalid RGB color format. Use rgb(r, g, b)".to_owned());
            }
            return Err("Invalid RGB color format. Use rgb(r, g, b)".to_owned());
        }
        let l = to_lower(value);
        if str_eq(l.as_str(), "black") {
            return Ok(Color { r: 0, g: 0, b: 0 });
        }
        if str_eq(l.as_str(), "red") {
            return Ok(Color { r: 255, g: 0, b: 0 });
        }
        if str_eq(l.as_str(), "green") {
            return Ok(Color { r: 0, g: 255, b: 0 });
        }
        if str_eq(l.as_str(), "yellow") {
            return Ok(Color { r: 255, g: 255, b: 0 });
        }
        if str_eq(l.as_str(), "blue") {
            return Ok(Color { r: 0, g: 0, b: 255 });
        }
        if str_eq(l.as_str(), "magenta") {
            return Ok(Color { r: 255, g: 0, b: 255 });
        }
        if str_eq(l.as_str(), "cyan") {
            return Ok(Color { r: 0, g: 255, b: 255 });
        }
        if str_eq(l.as_str(), "white") {
            return Ok(Color { r: 255, g: 255, b: 255 });
        }
        Err("Invalid color".to_owned())
    }
}

/// The default color of a scriptlet's displayed name.
pub fn default_scriptlet_name_color() -> (c: Color)
    ensures
        c == (Color { r: 255, g: 255, b: 0 }),
{
    Color { r: 255, g: 255, b: 0 }
}

/// The default color of a scriptlet's displayed description.
pub fn default_scriptlet_description_color() -> (c: Color)
    ensures
        c == (Color { r: 255, g: 255, b: 255 }),
{
    Color { r: 255, g: 255, b: 255 }
}

} // verus!
