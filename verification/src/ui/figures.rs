//! Numbers and protocols as they are shown.
//!
//! Amounts are shown as a double-precision quotient by a power of 1024, with
//! one or two decimals. Such a quotient is exact once the amount itself has
//! been rounded to 53 significant bits, so the texts are stated, and computed,
//! in whole numbers.

use vstd::prelude::*;

use crate::aggregator;
use crate::aggregator::{ConnectionEntry, ConnectionEntryView, ProcessRow, ProcessRowView};
use crate::capture::Protocol;
use crate::number;

verus! {

/// The first whole number that needs more than 53 bits.
pub const DOUBLE_EXACT_LIMIT: u64 = 0x20_0000_0000_0000;

/// The quotient of two numbers rounded to the nearest whole number, halves to
/// the even one.
pub open spec fn nearest(n: nat, d: nat) -> nat {
    let low = n / d;
    let rest = n % d;
    if 2 * rest < d {
        low
    } else if 2 * rest > d {
        low + 1
    } else if low % 2 == 0 {
        low
    } else {
        low + 1
    }
}

/// The distance between neighbouring double-precision numbers around `n`,
/// where it is more than one.
pub open spec fn double_unit(n: nat) -> nat
    decreases n,
{
    if n < DOUBLE_EXACT_LIMIT {
        1
    } else {
        2 * double_unit(n / 2)
    }
}

/// `n` rounded to double precision.
pub open spec fn to_double(n: nat) -> nat {
    nearest(n, double_unit(n)) * double_unit(n)
}

/// A number of tenths or hundredths, written with its decimals.
pub open spec fn with_decimals(n: nat, places: nat) -> Seq<char> {
    if places == 1 {
        number::decimal(n / 10) + "."@ + number::decimal(n % 10)
    } else {
        number::decimal(n / 100) + "."@ + number::decimal(n / 10 % 10) + number::decimal(n % 10)
    }
}

/// The quotient `n / d` with the given number of decimals.
pub open spec fn quotient_text(n: nat, d: nat, places: nat) -> Seq<char> {
    if places == 1 {
        with_decimals(nearest(n * 10, d), 1)
    } else {
        with_decimals(nearest(n * 100, d), 2)
    }
}

/// A rate as it is shown: whole bytes below one kibibyte, else kibibytes or
/// mebibytes with one decimal.
pub open spec fn bandwidth_text(bytes_per_sec: u64) -> Seq<char> {
    let n = bytes_per_sec as nat;
    if n < 1024 {
        number::decimal(n) + " B/s"@
    } else if n < 1024 * 1024 {
        quotient_text(n, 1024, 1) + " KB/s"@
    } else {
        quotient_text(to_double(n), 1024 * 1024, 1) + " MB/s"@
    }
}

/// The power of 1024 that an amount is divided by for display: the largest one
/// that is at most the amount, but not more than the fourth.
pub open spec fn scale_of(n: nat) -> nat {
    if n < 1024 {
        0
    } else if n < 1024 * 1024 {
        1
    } else if n < 1024 * 1024 * 1024 {
        2
    } else if n < 1024 * 1024 * 1024 * 1024 {
        3
    } else {
        4
    }
}

/// A power of 1024.
pub open spec fn kibi_power(scale: nat) -> nat {
    if scale == 0 {
        1
    } else if scale == 1 {
        1024
    } else if scale == 2 {
        1024 * 1024
    } else if scale == 3 {
        1024 * 1024 * 1024
    } else {
        1024 * 1024 * 1024 * 1024
    }
}

/// The name of a unit.
pub open spec fn unit_name(scale: nat, bits: bool) -> Seq<char> {
    if bits {
        if scale == 0 {
            "b"@
        } else if scale == 1 {
            "Kb"@
        } else if scale == 2 {
            "Mb"@
        } else if scale == 3 {
            "Gb"@
        } else {
            "Tb"@
        }
    } else if scale == 0 {
        "B"@
    } else if scale == 1 {
        "KB"@
    } else if scale == 2 {
        "MB"@
    } else if scale == 3 {
        "GB"@
    } else {
        "TB"@
    }
}

/// An amount as it is shown: in bytes or in bits, with two decimals.
pub open spec fn amount_text(value: u64, bits: bool) -> Seq<char> {
    let rounded = to_double(value as nat);
    let n = if bits {
        rounded * 8
    } else {
        rounded
    };
    let scale = scale_of(n);
    quotient_text(n, kibi_power(scale), 2) + " "@ + unit_name(scale, bits)
}

/// Rounds a quotient to the nearest whole number.
fn nearest_quotient(n: u128, d: u128) -> (q: u128)
    requires
        0 < d <= 0x1_0000_0000_0000_0000,
    ensures
        q == nearest(n as nat, d as nat),
{
    let low: u128 = n / d;
    let rest: u128 = n % d;
    let up: bool = 2 * rest > d || (2 * rest == d && low % 2 == 1);
    if up {
        assert(low < u128::MAX) by (nonlinear_arith)
            requires
                low == n / d,
                rest == n % d,
                rest > 0,
                d > 0,
                n <= u128::MAX,
        ;
        low + 1
    } else {
        low
    }
}

proof fn lemma_double_unit(n: nat)
    requires
        n <= u64::MAX,
    ensures
        1 <= double_unit(n) <= 0x1000,
{
    reveal_with_fuel(double_unit, 13);
}

/// Rounds a number to double precision.
fn round_to_double(n: u64) -> (rounded: u128)
    ensures
        rounded == to_double(n as nat),
        rounded <= 0x1_0000_0000_0000_0000,
{
    let mut shrunk: u64 = n;
    let mut unit: u64 = 1;
    proof {
        lemma_double_unit(n as nat);
    }
    while shrunk >= DOUBLE_EXACT_LIMIT
        invariant
            double_unit(n as nat) == unit * double_unit(shrunk as nat),
            double_unit(n as nat) <= 0x1000,
            1 <= unit,
        decreases shrunk,
    {
        proof {
            lemma_double_unit((shrunk / 2) as nat);
            assert(unit * (2 * double_unit((shrunk / 2) as nat)) == (unit * 2) * double_unit(
                (shrunk / 2) as nat,
            )) by (nonlinear_arith);
            assert(unit * 2 <= (unit * 2) * double_unit((shrunk / 2) as nat)) by (nonlinear_arith)
                requires
                    double_unit((shrunk / 2) as nat) >= 1,
                    unit >= 1,
            ;
        }
        shrunk = shrunk / 2;
        unit = unit * 2;
    }
    assert(unit == double_unit(n as nat)) by (nonlinear_arith)
        requires
            double_unit(n as nat) == unit * double_unit(shrunk as nat),
            double_unit(shrunk as nat) == 1,
    ;
    let q: u128 = nearest_quotient(n as u128, unit as u128);
    proof {
        lemma_nearest_multiple(n as nat, unit as nat);
    }
    q * (unit as u128)
}

/// Rounding to a multiple of a power of two up to 4096 does not leave the range
/// up to 2^64.
proof fn lemma_nearest_multiple(n: nat, unit: nat)
    requires
        n <= u64::MAX,
        unit == double_unit(n),
    ensures
        nearest(n, unit) * unit <= 0x1_0000_0000_0000_0000,
{
    lemma_unit_divides(n);
    let whole: nat = 0x1_0000_0000_0000_0000;
    let parts: nat = whole / unit;
    assert(whole == parts * unit) by (nonlinear_arith)
        requires
            whole % unit == 0,
            parts == whole / unit,
            unit > 0,
    ;
    let low = n / unit;
    assert(low + 1 <= parts) by (nonlinear_arith)
        requires
            low == n / unit,
            n < parts * unit,
            unit > 0,
    ;
    assert(nearest(n, unit) * unit <= parts * unit) by (nonlinear_arith)
        requires
            nearest(n, unit) <= parts,
            unit > 0,
    ;
}

proof fn lemma_unit_divides(n: nat)
    requires
        n <= u64::MAX,
    ensures
        1 <= double_unit(n),
        0x1_0000_0000_0000_0000nat % double_unit(n) == 0,
{
    reveal_with_fuel(double_unit, 13);
    let u = double_unit(n);
    assert(u == 1 || u == 2 || u == 4 || u == 8 || u == 16 || u == 32 || u == 64 || u == 128 || u
        == 256 || u == 512 || u == 1024 || u == 2048 || u == 4096);
    let whole: nat = 0x1_0000_0000_0000_0000;
    assert(whole % 1 == 0 && whole % 2 == 0 && whole % 4 == 0 && whole % 8 == 0 && whole % 16 == 0);
    assert(whole % 32 == 0 && whole % 64 == 0 && whole % 128 == 0 && whole % 256 == 0);
    assert(whole % 512 == 0 && whole % 1024 == 0 && whole % 2048 == 0 && whole % 4096 == 0);
}

/// Appends a number of tenths with its decimal.
fn push_tenths(text: &mut String, n: u64)
    ensures
        final(text)@ == old(text)@ + with_decimals(n as nat, 1),
{
    number::push_decimal(text, n / 10);
    text.append(".");
    number::push_decimal(text, n % 10);
    assert(text@ =~= old(text)@ + with_decimals(n as nat, 1));
}

/// Appends a number of hundredths with its decimals.
fn push_hundredths(text: &mut String, n: u64)
    ensures
        final(text)@ == old(text)@ + with_decimals(n as nat, 2),
{
    number::push_decimal(text, n / 100);
    text.append(".");
    number::push_decimal(text, n / 10 % 10);
    number::push_decimal(text, n % 10);
    assert(text@ =~= old(text)@ + with_decimals(n as nat, 2));
}

/// Writes a rate as it is shown.
pub fn format_bandwidth(bytes_per_sec: u64) -> (shown: String)
    ensures
        shown@ == bandwidth_text(bytes_per_sec),
{
    let mut shown = String::new();
    if bytes_per_sec < 1024 {
        number::push_decimal(&mut shown, bytes_per_sec);
        shown.append(" B/s");
    } else if bytes_per_sec < 1024 * 1024 {
        let tenths: u128 = nearest_quotient(bytes_per_sec as u128 * 10, 1024);
        push_tenths(&mut shown, tenths as u64);
        shown.append(" KB/s");
    } else {
        let rounded: u128 = round_to_double(bytes_per_sec);
        let tenths: u128 = nearest_quotient(rounded * 10, 1024 * 1024);
        push_tenths(&mut shown, tenths as u64);
        shown.append(" MB/s");
    }
    assert(shown@ =~= bandwidth_text(bytes_per_sec));
    shown
}

/// Writes an amount as it is shown.
pub fn format_bytes_or_bits(value: u64, bits: bool) -> (shown: String)
    ensures
        shown@ == amount_text(value, bits),
{
    let rounded: u128 = round_to_double(value);
    let n: u128 = if bits {
        rounded * 8
    } else {
        rounded
    };
    let (divisor, unit): (u128, &str) = if n < 1024 {
        (1, if bits { "b" } else { "B" })
    } else if n < 1024 * 1024 {
        (1024, if bits { "Kb" } else { "KB" })
    } else if n < 1024 * 1024 * 1024 {
        (1024 * 1024, if bits { "Mb" } else { "MB" })
    } else if n < 1024 * 1024 * 1024 * 1024 {
        (1024 * 1024 * 1024, if bits { "Gb" } else { "GB" })
    } else {
        (1024 * 1024 * 1024 * 1024, if bits { "Tb" } else { "TB" })
    };
    let hundredths: u128 = nearest_quotient(n * 100, divisor);
    let mut shown = String::new();
    push_hundredths(&mut shown, hundredths as u64);
    shown.append(" ");
    shown.append(unit);
    assert(shown@ =~= amount_text(value, bits));
    shown
}

// ---------------------------------------------------------------------------
// Protocols
// ---------------------------------------------------------------------------

/// The name of a protocol as it is shown.
pub open spec fn protocol_name(protocol: Protocol) -> Seq<char> {
    match protocol {
        Protocol::Tcp => "TCP"@,
        Protocol::Udp => "UDP"@,
        Protocol::Other(_) => "OTHER"@,
    }
}

/// Names a protocol.
pub fn format_protocol(protocol: Protocol) -> (name: &'static str)
    ensures
        name@ == protocol_name(protocol),
{
    match protocol {
        Protocol::Tcp => "TCP",
        Protocol::Udp => "UDP",
        Protocol::Other(_) => "OTHER",
    }
}

/// The connections over TCP, over UDP, and over anything else.
pub open spec fn protocol_counts(connections: Seq<ConnectionEntryView>) -> (nat, nat, nat)
    decreases connections.len(),
{
    if connections.len() == 0 {
        (0, 0, 0)
    } else {
        let (tcp, udp, other) = protocol_counts(connections.drop_last());
        match connections.last().protocol {
            Protocol::Tcp => (tcp + 1, udp, other),
            Protocol::Udp => (tcp, udp + 1, other),
            Protocol::Other(_) => (tcp, udp, other + 1),
        }
    }
}

/// The protocols of a row's connections as they are shown.
pub open spec fn protocol_mix(row: ProcessRowView) -> Seq<char> {
    let (tcp, udp, other) = protocol_counts(row.connections);
    "T:"@ + number::decimal(tcp) + " U:"@ + number::decimal(udp) + " O:"@ + number::decimal(other)
}

/// Every connection counts once.
pub proof fn every_connection_counts_once(connections: Seq<ConnectionEntryView>)
    ensures
        ({
            let (tcp, udp, other) = protocol_counts(connections);
            tcp + udp + other == connections.len()
        }),
    decreases connections.len(),
{
    if connections.len() > 0 {
        every_connection_counts_once(connections.drop_last());
    }
}

/// Sums up the protocols of a row's connections.
pub fn protocol_mix_summary(row: &ProcessRow) -> (summary: String)
    ensures
        summary@ == protocol_mix(row@),
{
    let connections: &Vec<ConnectionEntry> = &row.connections;
    let ghost all = aggregator::entry_views(connections@);
    let mut tcp: usize = 0;
    let mut udp: usize = 0;
    let mut other: usize = 0;
    let total: usize = connections.len();
    let mut i: usize = 0;
    assert(all.take(0) =~= Seq::empty());
    while i < total
        invariant
            i <= total,
            total == connections@.len(),
            all == aggregator::entry_views(connections@),
            tcp + udp + other == i,
            protocol_counts(all.take(i as int)) == (tcp as nat, udp as nat, other as nat),
        decreases total - i,
    {
        assert(all.take(i + 1).drop_last() =~= all.take(i as int));
        assert(all.take(i + 1).last() == connections@[i as int]@);
        match connections[i].protocol {
            Protocol::Tcp => {
                tcp += 1;
            },
            Protocol::Udp => {
                udp += 1;
            },
            Protocol::Other(_) => {
                other += 1;
            },
        }
        i += 1;
    }
    assert(all.take(all.len() as int) =~= all);
    let mut summary = String::new();
    summary.append("T:");
    number::push_decimal(&mut summary, tcp as u64);
    summary.append(" U:");
    number::push_decimal(&mut summary, udp as u64);
    summary.append(" O:");
    number::push_decimal(&mut summary, other as u64);
    assert(summary@ =~= protocol_mix(row@));
    summary
}

} // verus!
