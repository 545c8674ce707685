//! Character and string utilities shared by the normalizer, the search
//! index and the renderer.
//!
//! The library works on the ASCII classes below: they are what the
//! tokenizer, the placeholder rule and the index need.

use vstd::prelude::*;

verus! {

/// Whitespace as the tokenizers understand it: the ASCII blank characters.
pub open spec fn is_ws(c: char) -> bool {
    c == ' ' || c == '\t' || c == '\n' || c == '\r' || c == '\u{b}' || c == '\u{c}'
}

/// ASCII letters and digits.
pub open spec fn is_alnum(c: char) -> bool {
    (48 <= c as int && c as int <= 57) || (65 <= c as int && c as int <= 90) || (97 <= c as int
        && c as int <= 122)
}

/// ASCII lowercasing of one character.
pub open spec fn lower_char(c: char) -> char {
    if 65 <= c as int && c as int <= 90 {
        (c as int + 32) as char
    } else {
        c
    }
}

/// ASCII lowercasing of a whole sequence.
pub open spec fn lower(s: Seq<char>) -> Seq<char> {
    s.map_values(|c: char| lower_char(c))
}

pub fn ws_char(c: char) -> (b: bool)
    ensures
        b == is_ws(c),
{
    c == ' ' || c == '\t' || c == '\n' || c == '\r' || c == '\u{b}' || c == '\u{c}'
}

pub fn alnum_char(c: char) -> (b: bool)
    ensures
        b == is_alnum(c),
{
    let u = c as u32;
    (48 <= u && u <= 57) || (65 <= u && u <= 90) || (97 <= u && u <= 122)
}

pub fn to_lower_char(c: char) -> (r: char)
    ensures
        r == lower_char(c),
{
    let u = c as u32;
    if 65 <= u && u <= 90 {
        ((u + 32) as u8) as char
    } else {
        c
    }
}

/// The characters of a string, as a vector.
pub fn chars_of(s: &str) -> (r: Vec<char>)
    ensures
        r@ == s@,
{
    let n = s.unicode_len();
    let mut r: Vec<char> = Vec::new();
    let mut i: usize = 0;
    while i < n
        invariant
            i <= n,
            n == s@.len(),
            r@ == s@.take(i as int),
        decreases n - i,
    {
        let c = s.get_char(i);
        r.push(c);
        proof {
            assert(s@.take(i as int).push(s@[i as int]) =~= s@.take(i as int + 1));
        }
        i += 1;
    }
    proof {
        assert(s@.take(n as int) =~= s@);
    }
    r
}

/// Relies on `String::push`: appends exactly one character.
#[verifier::external_body]
pub fn push_char(s: &mut String, c: char)
    ensures
        final(s)@ == old(s)@.push(c),
{
    s.push(c);
}

/// A `String` holding exactly the given characters.
pub fn string_of(cs: &Vec<char>) -> (r: String)
    ensures
        r@ == cs@,
{
    let mut r = String::new();
    let mut i: usize = 0;
    while i < cs.len()
        invariant
            i <= cs.len(),
            r@ == cs@.take(i as int),
        decreases cs.len() - i,
    {
        push_char(&mut r, cs[i]);
        proof {
            assert(cs@.take(i as int).push(cs@[i as int]) =~= cs@.take(i as int + 1));
        }
        i += 1;
    }
    proof {
        assert(cs@.take(cs@.len() as int) =~= cs@);
    }
    r
}

/// ASCII lowercasing of a whole string.
pub fn to_lower(s: &str) -> (r: String)
    ensures
        r@ == lower(s@),
{
    let cs = lower_chars(s);
    string_of(&cs)
}

/// Equality of two character vectors.
pub fn chars_eq(a: &Vec<char>, b: &Vec<char>) -> (r: bool)
    ensures
        r == (a@ == b@),
{
    if a.len() != b.len() {
        proof {
            assert(a@ != b@);
        }
        return false;
    }
    let mut i: usize = 0;
    while i < a.len()
        invariant
            i <= a.len() == b.len(),
            forall|j: int| 0 <= j < i ==> a@[j] == b@[j],
        decreases a.len() - i,
    {
        if a[i] != b[i] {
            return false;
        }
        i += 1;
    }
    proof {
        assert(a@ =~= b@);
    }
    true
}

/// A copy of a character vector.
pub fn clone_chars(v: &Vec<char>) -> (r: Vec<char>)
    ensures
        r@ == v@,
{
    let mut r: Vec<char> = Vec::new();
    let mut i: usize = 0;
    while i < v.len()
        invariant
            0 <= i <= v@.len(),
            r@ == v@.take(i as int),
        decreases v.len() - i,
    {
        r.push(v[i]);
        proof {
            assert(v@.take(i as int).push(v@[i as int]) =~= v@.take(i as int + 1));
        }
        i += 1;
    }
    proof {
        assert(v@.take(v@.len() as int) =~= v@);
    }
    r
}

/// Equality of two strings, by characters.
pub fn str_eq(a: &str, b: &str) -> (r: bool)
    ensures
        r == (a@ == b@),
{
    let ca = chars_of(a);
    let cb = chars_of(b);
    chars_eq(&ca, &cb)
}

/// Whether `a` begins `b`.
pub open spec fn is_prefix(a: Seq<char>, b: Seq<char>) -> bool {
    a.len() <= b.len() && a == b.take(a.len() as int)
}

/// Whether `a` occurs contiguously anywhere inside `b`.
pub open spec fn is_substring(a: Seq<char>, b: Seq<char>) -> bool {
    exists|k: int| 0 <= k <= b.len() - a.len() && a == #[trigger] b.subrange(k, k + a.len())
}

/// Whether `a` occurs at position `k` of `b`.
fn matches_at(a: &Vec<char>, b: &Vec<char>, k: usize) -> (r: bool)
    requires
        k + a@.len() <= b@.len(),
    ensures
        r == (a@ == b@.subrange(k as int, k as int + a@.len())),
{
    let bn = b.len();
    let mut j: usize = 0;
    while j < a.len()
        invariant
            0 <= j <= a@.len(),
            k + a@.len() <= b@.len(),
            b@.len() == bn as int,
            forall|m: int| 0 <= m < j ==> a@[m] == b@[k + m],
        decreases a.len() - j,
    {
        proof {
            assert(k + j < b@.len());
        }
        if a[j] != b[k + j] {
            proof {
                assert(b@.subrange(k as int, k as int + a@.len())[j as int] == b@[k + j]);
            }
            return false;
        }
        j += 1;
    }
    proof {
        assert(a@ =~= b@.subrange(k as int, k as int + a@.len()));
    }
    true
}

/// Substring test on character vectors.
pub fn contains_sub(a: &Vec<char>, b: &Vec<char>) -> (r: bool)
    ensures
        r == is_substring(a@, b@),
{
    if a.len() > b.len() {
        proof {
            assert(!is_substring(a@, b@));
        }
        return false;
    }
    if a.len() == 0 {
        proof {
            assert(a@ =~= b@.subrange(0, 0 + a@.len() as int));
            assert(is_substring(a@, b@));
        }
        return true;
    }
    let last = b.len() - a.len();
    let mut k: usize = 0;
    while k <= last
        invariant
            0 <= k <= last + 1,
            last == b@.len() - a@.len(),
            a@.len() >= 1,
            b@.len() <= usize::MAX,
            forall|m: int| 0 <= m < k ==> a@ != #[trigger] b@.subrange(m, m + a@.len()),
        decreases last + 1 - k,
    {
        if matches_at(a, b, k) {
            proof {
                assert(is_substring(a@, b@));
            }
            return true;
        }
        k += 1;
    }
    proof {
        if is_substring(a@, b@) {
            let m = choose|m: int|
                0 <= m <= b@.len() - a@.len() && a@ == #[trigger] b@.subrange(m, m + a@.len());
            assert(a@ != b@.subrange(m, m + a@.len()));
        }
    }
    false
}

/// The lowercased characters of a string.
pub fn lower_chars(s: &str) -> (r: Vec<char>)
    ensures
        r@ == lower(s@),
{
    let cs = chars_of(s);
    let mut out: Vec<char> = Vec::new();
    let mut i: usize = 0;
    while i < cs.len()
        invariant
            i <= cs.len(),
            cs@ == s@,
            out@ == lower(s@.take(i as int)),
        decreases cs.len() - i,
    {
        out.push(to_lower_char(cs[i]));
        proof {
            assert(lower(s@.take(i as int)).push(lower_char(s@[i as int])) =~= lower(
                s@.take(i as int + 1),
            ));
        }
        i += 1;
    }
    proof {
        assert(lower(s@.take(s@.len() as int)) =~= lower(s@));
    }
    out
}

/// Prefix test on character vectors.
pub fn starts_with(a: &Vec<char>, b: &Vec<char>) -> (r: bool)
    ensures
        r == is_prefix(a@, b@),
{
    if a.len() > b.len() {
        proof {
            assert(!is_prefix(a@, b@));
        }
        return false;
    }
    let mut i: usize = 0;
    while i < a.len()
        invariant
            i <= a.len() <= b.len(),
            forall|j: int| 0 <= j < i ==> a@[j] == b@[j],
        decreases a.len() - i,
    {
        if a[i] != b[i] {
            proof {
                assert(b@.take(a@.len() as int)[i as int] == b@[i as int]);
            }
            return false;
        }
        i += 1;
    }
    proof {
        assert(a@ =~= b@.take(a@.len() as int));
    }
    true
}

} // verus!
