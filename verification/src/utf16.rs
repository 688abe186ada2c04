use vstd::prelude::*;

use crate::text::string_from_chars;

verus! {

/// A UTF-16 unit that opens a surrogate pair.
pub open spec fn is_high_surrogate(u: u16) -> bool {
    0xD800 <= u <= 0xDBFF
}

/// A UTF-16 unit that closes a surrogate pair.
pub open spec fn is_low_surrogate(u: u16) -> bool {
    0xDC00 <= u <= 0xDFFF
}

/// The code point that a surrogate pair encodes.
pub open spec fn pair_code_point(high: u16, low: u16) -> int {
    0x10000 + (high - 0xD800) * 0x400 + (low - 0xDC00)
}

/// The character that `String::from_utf16_lossy` decodes `units` to: surrogate
/// pairs are combined, and every unpaired surrogate becomes U+FFFD.
pub open spec fn decode_utf16_lossy(units: Seq<u16>) -> Seq<char>
    decreases units.len(),
{
    if units.len() == 0 {
        Seq::empty()
    } else if units.len() >= 2 && is_high_surrogate(units[0]) && is_low_surrogate(units[1]) {
        seq![pair_code_point(units[0], units[1]) as char] + decode_utf16_lossy(units.skip(2))
    } else if is_high_surrogate(units[0]) || is_low_surrogate(units[0]) {
        seq!['\u{FFFD}'] + decode_utf16_lossy(units.drop_first())
    } else {
        seq![(units[0] as int) as char] + decode_utf16_lossy(units.drop_first())
    }
}

/// Text without surrogates decodes one character per unit, each the character of
/// that unit's value.
pub proof fn law_decode_without_surrogates(units: Seq<u16>)
    requires
        forall|i: int| 0 <= i < units.len() ==> !(0xD800 <= #[trigger] units[i] <= 0xDFFF),
    ensures
        decode_utf16_lossy(units).len() == units.len(),
        forall|i: int|
            0 <= i < units.len() ==> #[trigger] decode_utf16_lossy(units)[i] == (units[i] as int) as char,
    decreases units.len(),
{
    if units.len() > 0 {
        let rest = units.drop_first();
        assert forall|i: int| 0 <= i < rest.len() implies !(0xD800 <= #[trigger] rest[i] <= 0xDFFF) by {
            assert(rest[i] == units[i + 1]);
        }
        law_decode_without_surrogates(rest);
        assert(!(0xD800 <= units[0] <= 0xDFFF));
        assert forall|i: int| 0 <= i < units.len() implies #[trigger] decode_utf16_lossy(units)[i]
            == (units[i] as int) as char by {
            if i > 0 {
                assert(rest[i - 1] == units[i]);
            }
        }
    }
}

/// Calls `char::from_u32`, which gives the character with that code point, or
/// `None` for a surrogate or a value past U+10FFFF.
#[verifier::external_body]
fn char_from_code_point(x: u32) -> (r: Option<char>)
    ensures
        r is None <==> (x > 0x10FFFF || (0xD800 <= x <= 0xDFFF)),
        r matches Some(c) ==> c == (x as int) as char,
{
    char::from_u32(x)
}

/// The characters that the first `n` units of `units` decode to.
pub fn decode_utf16_chars(units: &[u16], n: usize) -> (r: Vec<char>)
    requires
        n <= units@.len(),
    ensures
        r@ == decode_utf16_lossy(units@.take(n as int)),
{
    let ghost pre = units@.take(n as int);
    let mut out: Vec<char> = Vec::new();
    let mut i: usize = 0;
    assert(pre.skip(0) =~= pre);
    while i < n
        invariant
            n <= units@.len(),
            pre == units@.take(n as int),
            i <= n,
            decode_utf16_lossy(pre) == out@ + decode_utf16_lossy(pre.skip(i as int)),
        decreases n - i,
    {
        let ghost rest = pre.skip(i as int);
        let u = units[i];
        assert(rest[0] == u);
        if i + 1 < n && 0xD800 <= u && u <= 0xDBFF && 0xDC00 <= units[i + 1] && units[i + 1] <= 0xDFFF {
            let lo = units[i + 1];
            assert(rest[1] == lo);
            let x: u32 = 0x10000 + ((u - 0xD800) as u32) * 0x400 + ((lo - 0xDC00) as u32);
            assert(x == pair_code_point(u, lo));
            let c = char_from_code_point(x).unwrap();
            assert(c == pair_code_point(u, lo) as char);
            assert(rest.skip(2) =~= pre.skip(i + 2));
            assert(out@.push(c) + decode_utf16_lossy(pre.skip(i + 2)) =~= out@ + (seq![c]
                + decode_utf16_lossy(pre.skip(i + 2))));
            out.push(c);
            i = i + 2;
        } else {
            let c = if 0xD800 <= u && u <= 0xDFFF {
                '\u{FFFD}'
            } else {
                char_from_code_point(u as u32).unwrap()
            };
            assert(rest.drop_first() =~= pre.skip(i + 1));
            assert(out@.push(c) + decode_utf16_lossy(pre.skip(i + 1)) =~= out@ + (seq![c]
                + decode_utf16_lossy(pre.skip(i + 1))));
            out.push(c);
            i = i + 1;
        }
    }
    assert(pre.skip(n as int) =~= Seq::<u16>::empty());
    assert(out@ + Seq::<char>::empty() =~= out@);
    out
}

/// The first `n` units of `units` decoded as `String::from_utf16_lossy` decodes them.
pub fn decode_utf16_prefix(units: &[u16], n: usize) -> (s: String)
    requires
        n <= units@.len(),
    ensures
        s@ == decode_utf16_lossy(units@.take(n as int)),
{
    let chars = decode_utf16_chars(units, n);
    string_from_chars(&chars)
}

/// `units` decoded as `String::from_utf16_lossy` decodes them.
pub fn decode_utf16(units: &[u16]) -> (s: String)
    ensures
        s@ == decode_utf16_lossy(units@),
{
    assert(units@.take(units@.len() as int) =~= units@);
    decode_utf16_prefix(units, units.len())
}

} // verus!
