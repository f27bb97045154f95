//! Durations as short readable text.

use crate::buf::ascii_to_string;
use crate::name::all_ascii;
use vstd::prelude::*;

verus! {

/// The decimal digits of a number, as ASCII codes.
pub open spec fn decimal(n: nat) -> Seq<u8>
    decreases n,
{
    if n < 10 {
        seq![(0x30 + n) as u8]
    } else {
        decimal(n / 10).push((0x30 + n % 10) as u8)
    }
}

/// The decimal digits of a number, with zeros in front up to three digits.
pub open spec fn padded3(n: nat) -> Seq<u8> {
    if n < 10 {
        seq![0x30u8, 0x30u8] + decimal(n)
    } else if n < 100 {
        seq![0x30u8] + decimal(n)
    } else {
        decimal(n)
    }
}

/// The text of a duration of `secs` whole seconds and `millis` milliseconds:
/// under a minute `S.mmms`, under an hour `Mm Ss`, else `Hh Mm Ss`.
pub open spec fn duration_text(secs: nat, millis: nat) -> Seq<u8> {
    if secs < 60 {
        decimal(secs) + seq![0x2Eu8] + padded3(millis) + seq![0x73u8]
    } else if secs < 3600 {
        decimal(secs / 60) + seq![0x6Du8, 0x20u8] + decimal(secs % 60) + seq![0x73u8]
    } else {
        decimal(secs / 3600) + seq![0x68u8, 0x20u8] + decimal((secs % 3600) / 60) + seq![
            0x6Du8,
            0x20u8,
        ] + decimal(secs % 60) + seq![0x73u8]
    }
}

/// Appends the decimal digits of a number.
fn push_decimal(out: &mut Vec<u8>, n: u64)
    ensures
        final(out)@ == old(out)@ + decimal(n as nat),
        all_ascii(old(out)@) ==> all_ascii(final(out)@),
    decreases n,
{
    if n >= 10 {
        push_decimal(out, n / 10);
    }
    out.push(0x30 + (n % 10) as u8);
    proof {
        if n >= 10 {
            assert(out@ =~= old(out)@ + decimal((n / 10) as nat).push((0x30 + n % 10) as u8));
        } else {
            assert(out@ =~= old(out)@ + seq![(0x30 + n) as u8]);
        }
    }
}

/// A duration of `total_secs` whole seconds and `subsec_millis` milliseconds
/// as a short readable text.
pub fn format_duration(total_secs: u64, subsec_millis: u32) -> (s: String)
    ensures
        s@ == Seq::new(
            duration_text(total_secs as nat, subsec_millis as nat).len(),
            |i: int| duration_text(total_secs as nat, subsec_millis as nat)[i] as char,
        ),
{
    let mut out: Vec<u8> = Vec::new();
    if total_secs < 60 {
        push_decimal(&mut out, total_secs);
        out.push(0x2E);
        if subsec_millis < 10 {
            out.push(0x30);
            out.push(0x30);
        } else if subsec_millis < 100 {
            out.push(0x30);
        }
        push_decimal(&mut out, subsec_millis as u64);
        out.push(0x73);
        assert(out@ =~= duration_text(total_secs as nat, subsec_millis as nat));
    } else if total_secs < 3600 {
        push_decimal(&mut out, total_secs / 60);
        out.push(0x6D);
        out.push(0x20);
        push_decimal(&mut out, total_secs % 60);
        out.push(0x73);
        assert(out@ =~= duration_text(total_secs as nat, subsec_millis as nat));
    } else {
        push_decimal(&mut out, total_secs / 3600);
        out.push(0x68);
        out.push(0x20);
        push_decimal(&mut out, (total_secs % 3600) / 60);
        out.push(0x6D);
        out.push(0x20);
        push_decimal(&mut out, total_secs % 60);
        out.push(0x73);
        assert(out@ =~= duration_text(total_secs as nat, subsec_millis as nat));
    }
    ascii_to_string(out.as_slice())
}

} // verus!
