//! UTF-16LE names: encoding, decoding and the comparison that directories
//! order their entries by.
use std::cmp::Ordering;
use vstd::prelude::*;
use vstd::string::StrSliceExecFns;

use crate::bytes::{le_u16, read_u16_le};

verus! {

/// What `char::to_uppercase` yields for `c` (the full Unicode uppercase
/// mapping, one or more characters).
pub uninterp spec fn spec_char_to_uppercase(c: char) -> Seq<char>;

/// Calls `char::to_uppercase` and collects what it yields.
#[verifier::external_body]
fn char_to_uppercase(c: char) -> (r: Vec<char>)
    ensures
        r@ == spec_char_to_uppercase(c),
{
    c.to_uppercase().collect()
}

/// Calls `char::from_u32`: the character whose scalar value is `v`, if `v`
/// is a Unicode scalar value (at most 0x10FFFF and not a surrogate).
#[verifier::external_body]
pub(crate) fn char_from_u32(v: u32) -> (r: Option<char>)
    ensures
        r is Some <==> (v <= 0x10FFFF && !(0xD800 <= v <= 0xDFFF)),
        r matches Some(c) ==> c as u32 == v && c == v as char,
{
    char::from_u32(v)
}

pub open spec fn is_surrogate(u: u16) -> bool {
    0xD800 <= u <= 0xDFFF
}

pub open spec fn is_high_surrogate(u: u16) -> bool {
    0xD800 <= u <= 0xDBFF
}

pub open spec fn is_low_surrogate(u: u16) -> bool {
    0xDC00 <= u <= 0xDFFF
}

/// The UTF-16 code units of a character.
pub open spec fn utf16_of_char(c: char) -> Seq<u16> {
    let v = c as u32;
    if v < 0x10000 {
        seq![v as u16]
    } else {
        let w = v - 0x10000;
        seq![(0xD800 + w / 0x400) as u16, (0xDC00 + w % 0x400) as u16]
    }
}

/// The UTF-16 code units of a string.
pub open spec fn utf16_encode(s: Seq<char>) -> Seq<u16>
    decreases s.len(),
{
    if s.len() == 0 {
        Seq::empty()
    } else {
        utf16_encode(s.drop_last()) + utf16_of_char(s.last())
    }
}

/// The little-endian bytes of code units.
pub open spec fn units_le_bytes(u: Seq<u16>) -> Seq<u8> {
    Seq::new(
        2 * u.len(),
        |i: int|
            if i % 2 == 0 {
                (u[i / 2] % 256) as u8
            } else {
                (u[i / 2] / 256) as u8
            },
    )
}

/// The code units that little-endian bytes hold (a last odd byte is left
/// out).
pub open spec fn le_units(b: Seq<u8>) -> Seq<u16> {
    Seq::new(b.len() / 2, |i: int| le_u16(b, 2 * i))
}

/// Decodes code units from position `i` on: the scalar values decoded, and
/// the position where decoding stopped (the end, or an unpaired surrogate).
pub open spec fn decode_from(u: Seq<u16>, i: int) -> (Seq<u32>, int)
    decreases u.len() - i,
{
    if i < 0 || i >= u.len() {
        (Seq::empty(), i)
    } else if !is_surrogate(u[i]) {
        let (rest, end) = decode_from(u, i + 1);
        (seq![u[i] as u32] + rest, end)
    } else if is_high_surrogate(u[i]) && i + 1 < u.len() && is_low_surrogate(u[i + 1]) {
        let v = (0x10000 + (u[i] - 0xD800) * 0x400 + (u[i + 1] - 0xDC00)) as u32;
        let (rest, end) = decode_from(u, i + 2);
        (seq![v] + rest, end)
    } else {
        (Seq::empty(), i)
    }
}

/// Is `v` a Unicode scalar value (at most 0x10FFFF and not a surrogate)?
pub open spec fn is_scalar(v: u32) -> bool {
    v <= 0x10FFFF && !(0xD800 <= v <= 0xDFFF)
}

/// Decoding gives Unicode scalar values only.
pub proof fn lemma_decode_scalars(u: Seq<u16>, i: int)
    ensures
        forall|k: int|
            0 <= k < decode_from(u, i).0.len() ==> is_scalar(#[trigger] decode_from(u, i).0[k]),
    decreases u.len() - i,
{
    if 0 <= i < u.len() {
        if !is_surrogate(u[i]) {
            lemma_decode_scalars(u, i + 1);
            let (rest, _) = decode_from(u, i + 1);
            assert forall|k: int| 0 <= k < decode_from(u, i).0.len() implies is_scalar(
                #[trigger] decode_from(u, i).0[k],
            ) by {
                if k > 0 {
                    assert(decode_from(u, i).0[k] == rest[k - 1]);
                }
            }
        } else if is_high_surrogate(u[i]) && i + 1 < u.len() && is_low_surrogate(u[i + 1]) {
            lemma_decode_scalars(u, i + 2);
            let (rest, _) = decode_from(u, i + 2);
            assert forall|k: int| 0 <= k < decode_from(u, i).0.len() implies is_scalar(
                #[trigger] decode_from(u, i).0[k],
            ) by {
                if k > 0 {
                    assert(decode_from(u, i).0[k] == rest[k - 1]);
                }
            }
        }
    }
}

/// The unit that names are compared by: the simple uppercase mapping of the
/// character, where it is a single character of the basic plane; surrogates
/// and other characters are kept.
pub open spec fn spec_fold_unit(u: u16) -> u16 {
    if is_surrogate(u) {
        u
    } else {
        let up = spec_char_to_uppercase((u as u32) as char);
        if up.len() == 1 && (up[0] as u32) <= 0xFFFF {
            (up[0] as u32) as u16
        } else {
            u
        }
    }
}

/// Encodes `name` in UTF-16LE at the front of `buffer` and fills the rest
/// with zeros; returns the length in bytes. `None`, with `buffer` unchanged,
/// where the encoding takes more than 62 bytes: the 64-byte buffer must keep
/// room for a two-byte null terminator.
pub fn encode_utf16le(name: &str, buffer: &mut [u8; 64]) -> (r: Option<usize>)
    ensures
        r is Some <==> utf16_encode(name@).len() <= 31,
        r matches Some(n) ==> n == 2 * utf16_encode(name@).len() && final(buffer)@.subrange(0, n as int)
            == units_le_bytes(utf16_encode(name@)) && forall|i: int|
            n <= i < 64 ==> #[trigger] final(buffer)@[i] == 0,
        r is None ==> final(buffer)@ == old(buffer)@,
{
    let length = name.unicode_len();
    let mut units: Vec<u16> = Vec::new();
    let mut i: usize = 0;
    while i < length && units.len() <= 31
        invariant
            i <= length,
            length == name@.len(),
            units@ == utf16_encode(name@.take(i as int)),
            units@.len() <= 33,
        decreases length - i,
    {
        let c = name.get_char(i);
        let v = c as u32;
        assert(name@.take(i + 1).drop_last() =~= name@.take(i as int));
        if v < 0x10000 {
            units.push(v as u16);
        } else {
            let w = v - 0x10000;
            units.push((0xD800 + w / 0x400) as u16);
            units.push((0xDC00 + w % 0x400) as u16);
        }
        assert(units@ =~= utf16_encode(name@.take(i as int)) + utf16_of_char(c));
        i = i + 1;
    }
    proof {
        lemma_encode_prefix_len(name@, i as nat);
    }
    if units.len() > 31 {
        return None;
    }
    assert(name@.take(i as int) =~= name@);
    let mut j: usize = 0;
    while j < 64
        invariant
            j <= 64,
            units@ == utf16_encode(name@),
            units@.len() <= 31,
            forall|k: int|
                0 <= k < j && k < 2 * units@.len() ==> #[trigger] buffer@[k] == units_le_bytes(
                    units@,
                )[k],
            forall|k: int| 2 * units@.len() <= k < j ==> #[trigger] buffer@[k] == 0,
        decreases 64 - j,
    {
        if j < 2 * units.len() {
            let u = units[j / 2];
            if j % 2 == 0 {
                buffer[j] = (u % 256) as u8;
            } else {
                buffer[j] = (u / 256) as u8;
            }
        } else {
            buffer[j] = 0;
        }
        j = j + 1;
    }
    let n = 2 * units.len();
    assert(buffer@.subrange(0, n as int) =~= units_le_bytes(units@));
    Some(n)
}

/// A longer prefix encodes to at least as many units.
proof fn lemma_encode_prefix_len(s: Seq<char>, i: nat)
    requires
        i <= s.len(),
    ensures
        utf16_encode(s.take(i as int)).len() <= utf16_encode(s).len(),
    decreases s.len() - i,
{
    if i < s.len() {
        lemma_encode_prefix_len(s, i + 1);
        assert(s.take((i + 1) as int).drop_last() =~= s.take(i as int));
    } else {
        assert(s.take(i as int) =~= s);
    }
}


/// The code units of little-endian bytes of code units are those units.
pub proof fn lemma_le_units_roundtrip(u: Seq<u16>)
    ensures
        le_units(units_le_bytes(u)) == u,
{
    let b = units_le_bytes(u);
    assert forall|i: int| 0 <= i < u.len() implies #[trigger] le_units(b)[i] == u[i] by {
        assert(b[2 * i] == (u[i] % 256) as u8);
        assert(b[2 * i + 1] == (u[i] / 256) as u8);
        assert(u[i] % 256 + (u[i] / 256) * 256 == u[i]);
    }
    assert(le_units(b) =~= u);
}

/// A character is a Unicode scalar value.
proof fn lemma_char_range(c: char)
    ensures
        is_scalar(c as u32),
        c as u32 == c as int,
{
}

/// Encoding a text that starts with `c` starts with the units of `c`.
proof fn lemma_encode_cons(c: char, t: Seq<char>)
    ensures
        utf16_encode(seq![c] + t) == utf16_of_char(c) + utf16_encode(t),
    decreases t.len(),
{
    let s = seq![c] + t;
    if t.len() == 0 {
        assert(s.drop_last() =~= Seq::<char>::empty());
        assert(utf16_encode(s) =~= utf16_of_char(c) + utf16_encode(t));
    } else {
        lemma_encode_cons(c, t.drop_last());
        assert(s.drop_last() =~= seq![c] + t.drop_last());
        assert(s.last() == t.last());
        assert(utf16_encode(s) == utf16_encode(s.drop_last()) + utf16_of_char(s.last()));
        assert(utf16_encode(t) == utf16_encode(t.drop_last()) + utf16_of_char(t.last()));
        assert(utf16_encode(s) =~= utf16_of_char(c) + utf16_encode(t));
    }
}

/// Decoding the units of `t` that follow `p` gives back the characters of
/// `t`, and stops at the end.
proof fn lemma_decode_suffix(p: Seq<u16>, t: Seq<char>)
    ensures
        decode_from(p + utf16_encode(t), p.len() as int) == (
            t.map_values(|c: char| c as u32),
            (p.len() + utf16_encode(t).len()) as int,
        ),
    decreases t.len(),
{
    let u = p + utf16_encode(t);
    if t.len() == 0 {
        assert(t.map_values(|c: char| c as u32) =~= Seq::<u32>::empty());
        assert(u =~= p);
    } else {
        let c = t[0];
        lemma_char_range(c);
        let rest = t.drop_first();
        assert(t =~= seq![c] + rest);
        lemma_encode_cons(c, rest);
        let p2 = p + utf16_of_char(c);
        assert(u =~= p2 + utf16_encode(rest));
        lemma_decode_suffix(p2, rest);
        let v = c as u32;
        if v < 0x10000 {
            assert(u[p.len() as int] == v as u16);
        } else {
            let w = v - 0x10000;
            assert(w <= 0xFFFFF);
            assert(w / 0x400 < 0x400 && w % 0x400 < 0x400 && (w / 0x400) * 0x400 + w % 0x400 == w)
                by (nonlinear_arith)
                requires
                    0 <= w <= 0xFFFFF,
            ;
            let hi = (0xD800 + w / 0x400) as u16;
            let lo = (0xDC00 + w % 0x400) as u16;
            assert(hi == 0xD800 + w / 0x400);
            assert(lo == 0xDC00 + w % 0x400);
            assert(u[p.len() as int] == hi);
            assert(u[p.len() as int + 1] == lo);
            assert(0x10000 + (hi - 0xD800) * 0x400 + (lo - 0xDC00) == v);
        }
        assert(t.map_values(|c: char| c as u32) =~= seq![v] + rest.map_values(|c: char| c as u32));
    }
}

/// Decoding the UTF-16LE encoding of a text gives back its characters, and
/// the whole encoding decodes.
pub proof fn lemma_utf16_roundtrip(s: Seq<char>)
    ensures
        le_units(units_le_bytes(utf16_encode(s))) == utf16_encode(s),
        decode_from(utf16_encode(s), 0) == (
            s.map_values(|c: char| c as u32),
            utf16_encode(s).len() as int,
        ),
{
    lemma_le_units_roundtrip(utf16_encode(s));
    lemma_decode_suffix(Seq::empty(), s);
    assert(Seq::<u16>::empty() + utf16_encode(s) =~= utf16_encode(s));
}

/// The lexicographic comparison of two unit sequences from position `i` on:
/// negative, zero or positive.
pub open spec fn lex_compare(a: Seq<u16>, b: Seq<u16>, i: int) -> int
    decreases a.len() - i,
{
    if i < 0 || i >= a.len() || i >= b.len() {
        a.len() - b.len()
    } else if a[i] < b[i] {
        -1
    } else if a[i] > b[i] {
        1
    } else {
        lex_compare(a, b, i + 1)
    }
}

/// A sequence compares equal to itself.
pub proof fn lemma_lex_compare_refl(a: Seq<u16>, i: int)
    requires
        0 <= i,
    ensures
        lex_compare(a, a, i) == 0,
    decreases a.len() - i,
{
    if i < a.len() {
        lemma_lex_compare_refl(a, i + 1);
    }
}

/// The last unit of the encoding of a text that does not end with U+0000
/// is not null.
pub proof fn lemma_encode_last_nonzero(s: Seq<char>)
    requires
        s.len() > 0,
        s.last() != '\0',
    ensures
        utf16_encode(s).len() > 0,
        utf16_encode(s).last() != 0,
{
    let c = s.last();
    lemma_char_range(c);
    lemma_char_range('\0');
    assert(utf16_encode(s) == utf16_encode(s.drop_last()) + utf16_of_char(c));
    if (c as u32) < 0x10000 {
        assert(utf16_of_char(c).last() == c as u16);
    } else {
        let w = c as u32 - 0x10000;
        assert(w % 0x400 < 0x400) by (nonlinear_arith)
            requires
                0 <= w,
        ;
        assert(utf16_of_char(c).last() == (0xDC00 + w % 0x400) as u16);
    }
}

/// `lex_compare` from an executable position.
pub open spec fn lex_compare_from(a: Seq<u16>, b: Seq<u16>, i: usize) -> int {
    lex_compare(a, b, i as int)
}

/// The unit at an executable position.
pub open spec fn unit_at(s: Seq<u16>, i: usize) -> u16 {
    s[i as int]
}

/// The units that a name is compared by.
pub open spec fn folded(u: Seq<u16>) -> Seq<u16> {
    u.map_values(|x: u16| spec_fold_unit(x))
}

/// Decodes little-endian UTF-16 from the front of `bytes`: the characters
/// decoded and the offset of the bytes left undecoded (from an unpaired
/// surrogate, or a last odd byte, on).
pub fn decode_utf16le(bytes: &[u8]) -> (r: (Vec<char>, usize))
    ensures
        r.0@.len() == decode_from(le_units(bytes@), 0).0.len(),
        forall|i: int|
            0 <= i < r.0@.len() ==> #[trigger] r.0@[i] as u32 == decode_from(le_units(bytes@), 0).0[i],
        r.1 == 2 * decode_from(le_units(bytes@), 0).1,
        r.1 <= bytes@.len(),
{
    let ghost units = le_units(bytes@);
    let n = bytes.len() / 2;
    let mut chars: Vec<char> = Vec::new();
    let ghost mut acc: Seq<u32> = Seq::empty();
    let mut i: usize = 0;
    while i < n
        invariant
            n == units.len(),
            units == le_units(bytes@),
            2 * n <= bytes.len(),
            i <= n,
            chars@.len() == acc.len(),
            forall|j: int| 0 <= j < acc.len() ==> #[trigger] chars@[j] as u32 == acc[j],
            (acc + decode_from(units, i as int).0, decode_from(units, i as int).1) == decode_from(
                units,
                0,
            ),
        ensures
            n == units.len(),
            units == le_units(bytes@),
            2 * n <= bytes.len(),
            i <= n,
            chars@.len() == acc.len(),
            forall|j: int| 0 <= j < acc.len() ==> #[trigger] chars@[j] as u32 == acc[j],
            (acc + decode_from(units, i as int).0, decode_from(units, i as int).1) == decode_from(
                units,
                0,
            ),
            decode_from(units, i as int) == (Seq::<u32>::empty(), i as int),
        decreases n - i,
    {
        let u = read_u16_le(bytes, 2 * i);
        assert(u == units[i as int]);
        if u < 0xD800 || u > 0xDFFF {
            let c = match char_from_u32(u as u32) {
                Some(c) => c,
                None => {
                    assert(false);
                    break;
                },
            };
            chars.push(c);
            proof {
                let (rest, end) = decode_from(units, i + 1);
                assert(decode_from(units, i as int) == (seq![u as u32] + rest, end));
                assert(acc.push(u as u32) + rest =~= acc + (seq![u as u32] + rest));
                acc = acc.push(u as u32);
            }
            i = i + 1;
        } else if u <= 0xDBFF && i + 1 < n {
            let low = read_u16_le(bytes, 2 * i + 2);
            assert(low == units[i + 1]);
            if low < 0xDC00 || low > 0xDFFF {
                break;
            }
            let v: u32 = 0x10000 + ((u - 0xD800) as u32) * 0x400 + ((low - 0xDC00) as u32);
            let c = match char_from_u32(v) {
                Some(c) => c,
                None => {
                    assert(false);
                    break;
                },
            };
            chars.push(c);
            proof {
                let (rest, end) = decode_from(units, i + 2);
                assert(decode_from(units, i as int) == (seq![v] + rest, end));
                assert(acc.push(v) + rest =~= acc + (seq![v] + rest));
                acc = acc.push(v);
            }
            i = i + 2;
        } else {
            break;
        }
    }
    proof {
        assert(decode_from(units, i as int).0 =~= Seq::<u32>::empty());
        assert(acc + Seq::<u32>::empty() =~= acc);
    }
    (chars, 2 * i)
}

/// The unit that `u` is compared by (see `spec_fold_unit`).
fn fold_unit(u: u16) -> (r: u16)
    ensures
        r == spec_fold_unit(u),
{
    if 0xD800 <= u && u <= 0xDFFF {
        return u;
    }
    let c = match char_from_u32(u as u32) {
        Some(c) => c,
        None => {
            return u;
        },
    };
    let up = char_to_uppercase(c);
    if up.len() == 1 && (up[0] as u32) <= 0xFFFF {
        up[0] as u32 as u16
    } else {
        u
    }
}

/// Compares two UTF-16LE names of the same length unit by unit, each unit
/// taken by its simple uppercase mapping (see `spec_fold_unit`).
pub fn compare_utf16le(a: &[u8], b: &[u8]) -> (r: Ordering)
    ensures
        (r == Ordering::Less) == (lex_compare(folded(le_units(a@)), folded(le_units(b@)), 0) < 0),
        (r == Ordering::Equal) == (lex_compare(folded(le_units(a@)), folded(le_units(b@)), 0) == 0),
        (r == Ordering::Greater) == (lex_compare(folded(le_units(a@)), folded(le_units(b@)), 0)
            > 0),
{
    let ghost fa = folded(le_units(a@));
    let ghost fb = folded(le_units(b@));
    let na = a.len() / 2;
    let nb = b.len() / 2;
    let mut i: usize = 0;
    while i < na && i < nb
        invariant
            fa == folded(le_units(a@)),
            fb == folded(le_units(b@)),
            na == fa.len(),
            nb == fb.len(),
            2 * na <= a.len(),
            2 * nb <= b.len(),
            i <= na,
            i <= nb,
            lex_compare_from(fa, fb, i) == lex_compare(fa, fb, 0),
        decreases na - i,
    {
        let x = fold_unit(read_u16_le(a, 2 * i));
        let y = fold_unit(read_u16_le(b, 2 * i));
        assert(x == unit_at(fa, i));
        assert(y == unit_at(fb, i));
        if x < y {
            return Ordering::Less;
        }
        if x > y {
            return Ordering::Greater;
        }
        i = i + 1;
    }
    if na < nb {
        Ordering::Less
    } else if na > nb {
        Ordering::Greater
    } else {
        Ordering::Equal
    }
}

} // verus!
