//! The processor counters: the paths that name them, and the usage that a formatted
//! counter value gives.
use vstd::prelude::*;
use crate::text::{chars_of, decimal, decimal_chars, push_all, push_str};

verus! {

/// The status of a counter call that succeeded.
pub const QUERY_SUCCESS: i32 = 0;

/// The path of the counter of the processor time of the whole machine.
pub open spec fn total_counter_text() -> Seq<char> {
    "\\Processor(_Total)\\% Processor Time"@
}

/// The path of the counter of the processor time of processor `index`.
pub open spec fn cpu_counter_text(index: nat) -> Seq<char> {
    "\\Processor("@ + decimal(index) + ")\\% Processor Time"@
}

/// The zero-terminated UTF-16 code units of a text of characters below `0x10000`: the
/// code of each character, then a zero.
pub open spec fn wide_text(text: Seq<char>) -> Seq<u16> {
    text.map_values(|c: char| (c as u32) as u16).push(0)
}

fn wide(text: &Vec<char>) -> (r: Vec<u16>)
    ensures
        r@ == wide_text(text@),
{
    let mut out: Vec<u16> = Vec::new();
    let mut i: usize = 0;
    while i < text.len()
        invariant
            i <= text@.len(),
            out@ == text@.subrange(0, i as int).map_values(|c: char| (c as u32) as u16),
        decreases text.len() - i,
    {
        let c = text[i];
        out.push((c as u32) as u16);
        i = i + 1;
        assert(out@ =~= text@.subrange(0, i as int).map_values(|c: char| (c as u32) as u16));
    }
    assert(text@.subrange(0, text@.len() as int) =~= text@);
    out.push(0);
    out
}

/// The zero-terminated path of the counter of the whole machine.
pub fn total_counter_path() -> (r: Vec<u16>)
    ensures
        r@ == wide_text(total_counter_text()),
{
    let text = chars_of("\\Processor(_Total)\\% Processor Time");
    wide(&text)
}

/// The zero-terminated path of the counter of processor `index`.
pub fn cpu_counter_path(index: usize) -> (r: Vec<u16>)
    ensures
        r@ == wide_text(cpu_counter_text(index as nat)),
{
    let mut text = chars_of("\\Processor(");
    let digits = decimal_chars(index as u64);
    push_all(&mut text, digits.as_slice());
    push_str(&mut text, ")\\% Processor Time");
    wide(&text)
}

/// The usage of a processor, in hundredths of a percent, from a formatted counter value in
/// percent: the value times 100, at most 10000; zero where the counter could not be read.
pub open spec fn counter_usage_of(status: i32, value: i32) -> u16 {
    if status != QUERY_SUCCESS {
        0
    } else if value * 100 > 10000 {
        10000
    } else {
        (value * 100) as u16
    }
}

/// The usage of a processor from the answer of its counter.
pub fn counter_usage(status: i32, value: i32) -> (r: u16)
    requires
        status == QUERY_SUCCESS ==> i32::MIN <= value * 100 <= i32::MAX,
    ensures
        r == counter_usage_of(status, value),
{
    if status == QUERY_SUCCESS {
        let usage: i32 = value * 100;
        if usage > 10000 {
            10000
        } else {
            usage as u16
        }
    } else {
        0
    }
}

/// The usage read from a processor's counter is a hundred times the percentage it reports,
/// at most 10000 (a full load), for a percentage that is not negative; a counter that could
/// not be read gives zero.
pub proof fn law_counter_usage(status: i32, value: i32)
    requires
        status == QUERY_SUCCESS ==> i32::MIN <= value * 100 <= i32::MAX,
    ensures
        value >= 0 ==> counter_usage_of(status, value) <= 10000,
        status != QUERY_SUCCESS ==> counter_usage_of(status, value) == 0,
        status == QUERY_SUCCESS && 0 <= value <= 100 ==> counter_usage_of(status, value) == value
            * 100,
        status == QUERY_SUCCESS && value >= 100 ==> counter_usage_of(status, value) == 10000,
{
}

} // verus!
