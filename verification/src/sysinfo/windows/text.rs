//! UTF-16 text as the Windows calls return it.
use vstd::prelude::*;

verus! {

/// A code unit that opens a surrogate pair.
pub open spec fn high_surrogate(u: u16) -> bool {
    0xD800 <= u < 0xDC00
}

/// A code unit that closes a surrogate pair.
pub open spec fn low_surrogate(u: u16) -> bool {
    0xDC00 <= u < 0xE000
}

/// A code unit that is not a surrogate.
pub open spec fn plain_unit(u: u16) -> bool {
    u < 0xD800 || u >= 0xE000
}

/// The character of a surrogate pair.
pub open spec fn pair_char(high: u16, low: u16) -> char {
    (0x10000 + (high - 0xD800) * 0x400 + (low - 0xDC00)) as char
}

/// The text that UTF-16 code units decode to: a unit that is not a surrogate stands for the
/// character of its value, a high surrogate followed by a low one for the character of the
/// pair, and every other surrogate for the replacement character U+FFFD.
pub open spec fn utf16_text(units: Seq<u16>) -> Seq<char>
    decreases units.len(),
{
    if units.len() == 0 {
        Seq::empty()
    } else if plain_unit(units[0]) {
        seq![units[0] as char] + utf16_text(units.subrange(1, units.len() as int))
    } else if high_surrogate(units[0]) && units.len() >= 2 && low_surrogate(units[1]) {
        seq![pair_char(units[0], units[1])] + utf16_text(units.subrange(2, units.len() as int))
    } else {
        seq!['\u{FFFD}'] + utf16_text(units.subrange(1, units.len() as int))
    }
}

/// Units that are all plain decode each to the character of the same value.
pub proof fn lemma_plain_units_text(units: Seq<u16>)
    requires
        forall|i: int| 0 <= i < units.len() ==> plain_unit(#[trigger] units[i]),
    ensures
        utf16_text(units) == units.map_values(|u: u16| u as char),
    decreases units.len(),
{
    if units.len() > 0 {
        let rest = units.subrange(1, units.len() as int);
        assert forall|i: int| 0 <= i < rest.len() implies plain_unit(#[trigger] rest[i]) by {
            assert(rest[i] == units[i + 1]);
        }
        lemma_plain_units_text(rest);
        assert(utf16_text(units) =~= units.map_values(|u: u16| u as char));
    } else {
        assert(utf16_text(units) =~= units.map_values(|u: u16| u as char));
    }
}

/// Decodes UTF-16 code units with `String::from_utf16_lossy`, which replaces each unpaired
/// surrogate with U+FFFD.
#[verifier::external_body]
pub(crate) fn utf16_lossy(units: &[u16]) -> (s: String)
    ensures
        s@ == utf16_text(units@),
{
    String::from_utf16_lossy(units)
}

/// The code units before the first zero, or all of them where there is none.
pub open spec fn before_nul(units: Seq<u16>) -> Seq<u16>
    decreases units.len(),
{
    if units.len() == 0 {
        units
    } else if units[0] == 0 {
        Seq::empty()
    } else {
        seq![units[0]] + before_nul(units.subrange(1, units.len() as int))
    }
}

/// The code units before the first zero.
pub fn units_before_nul(units: &[u16]) -> (r: Vec<u16>)
    ensures
        r@ == before_nul(units@),
{
    let mut out: Vec<u16> = Vec::new();
    let mut i: usize = 0;
    assert(units@.subrange(0, units@.len() as int) =~= units@);
    assert(Seq::<u16>::empty() + units@ =~= units@);
    while i < units.len() && units[i] != 0
        invariant
            i <= units@.len(),
            out@ == units@.subrange(0, i as int),
            before_nul(units@) == out@ + before_nul(units@.subrange(i as int, units@.len() as int)),
        decreases units.len() - i,
    {
        let ghost rest = units@.subrange(i as int, units@.len() as int);
        assert(rest.subrange(1, rest.len() as int) =~= units@.subrange(i + 1, units@.len() as int));
        out.push(units[i]);
        i = i + 1;
        assert(out@ =~= units@.subrange(0, i as int));
        assert(before_nul(units@) =~= out@ + before_nul(units@.subrange(i as int, units@.len() as int)));
    }
    proof {
        let rest = units@.subrange(i as int, units@.len() as int);
        assert(before_nul(rest) =~= Seq::<u16>::empty());
        assert(out@ + Seq::<u16>::empty() =~= out@);
    }
    out
}

} // verus!
