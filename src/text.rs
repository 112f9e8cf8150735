//! Text that the library writes: decimal numbers, dotted-quad addresses and
//! the log record of an alert-logging session.
use vstd::prelude::*;

verus! {

/// The ASCII digit of `d`, for `d < 10`.
pub open spec fn digit_byte(d: nat) -> u8 {
    (48 + d) as u8
}

/// The decimal text of `n`, without leading zeros.
pub open spec fn decimal(n: nat) -> Seq<u8>
    decreases n,
{
    if n < 10 {
        seq![digit_byte(n)]
    } else {
        decimal(n / 10).push(digit_byte(n % 10))
    }
}

/// The four octets of an address, most significant first.
pub open spec fn octet(ip: u32, k: nat) -> nat {
    if k == 0 {
        (ip / 16777216) as nat
    } else if k == 1 {
        (ip / 65536 % 256) as nat
    } else if k == 2 {
        (ip / 256 % 256) as nat
    } else {
        (ip % 256) as nat
    }
}

/// The dotted-quad text of an address, such as `10.0.0.5`.
pub open spec fn dotted_quad(ip: u32) -> Seq<u8> {
    decimal(octet(ip, 0)) + seq![46u8] + decimal(octet(ip, 1)) + seq![46u8] + decimal(
        octet(ip, 2),
    ) + seq![46u8] + decimal(octet(ip, 3))
}

pub open spec fn record_prefix() -> Seq<u8> {
    seq![84u8, 114, 97, 102, 102, 105, 99, 32, 102, 114, 111, 109, 32, 105, 112, 32]
}

pub open spec fn record_middle() -> Seq<u8> {
    seq![32u8, 104, 97, 115, 32, 98, 101, 101, 110, 32, 114, 101, 103, 105, 115, 116, 101, 114, 101, 100, 32]
}

pub open spec fn record_suffix() -> Seq<u8> {
    seq![32u8, 116, 105, 109, 101, 115, 46]
}

/// The log record of a session: `Traffic from ip <ip> has been registered
/// <count> times.`
pub open spec fn log_record(ip: u32, count: nat) -> Seq<u8> {
    record_prefix() + dotted_quad(ip) + record_middle() + decimal(count) + record_suffix()
}

pub(crate) fn prefix_bytes() -> (r: Vec<u8>)
    ensures
        r@ == record_prefix(),
{
    vec![84u8, 114, 97, 102, 102, 105, 99, 32, 102, 114, 111, 109, 32, 105, 112, 32]
}

pub(crate) fn middle_bytes() -> (r: Vec<u8>)
    ensures
        r@ == record_middle(),
{
    vec![32u8, 104, 97, 115, 32, 98, 101, 101, 110, 32, 114, 101, 103, 105, 115, 116, 101, 114, 101, 100, 32]
}

pub(crate) fn suffix_bytes() -> (r: Vec<u8>)
    ensures
        r@ == record_suffix(),
{
    vec![32u8, 116, 105, 109, 101, 115, 46]
}

/// Appends `b` to `out`.
pub fn push_all(out: &mut Vec<u8>, b: &[u8])
    ensures
        final(out)@ == old(out)@ + b@,
{
    let mut i: usize = 0;
    while i < b.len()
        invariant
            0 <= i <= b@.len(),
            out@ == old(out)@ + b@.subrange(0, i as int),
        decreases b@.len() - i,
    {
        out.push(b[i]);
        i = i + 1;
        assert(out@ =~= old(out)@ + b@.subrange(0, i as int));
    }
    assert(b@.subrange(0, b@.len() as int) =~= b@);
}

/// Appends the decimal text of `n` to `out`.
pub fn push_decimal(out: &mut Vec<u8>, n: u64)
    ensures
        final(out)@ == old(out)@ + decimal(n as nat),
    decreases n,
{
    if n >= 10 {
        push_decimal(out, n / 10);
    }
    let d: u8 = (n % 10) as u8;
    out.push(48u8 + d);
    assert(out@ =~= old(out)@ + decimal(n as nat));
}

/// The decimal text of `n`.
pub fn decimal_text(n: u64) -> (r: Vec<u8>)
    ensures
        r@ == decimal(n as nat),
{
    let mut out: Vec<u8> = Vec::new();
    push_decimal(&mut out, n);
    assert(out@ =~= decimal(n as nat));
    out
}

/// Appends the dotted-quad text of `ip` to `out`.
pub fn push_dotted_quad(out: &mut Vec<u8>, ip: u32)
    ensures
        final(out)@ == old(out)@ + dotted_quad(ip),
{
    push_decimal(out, (ip / 16777216) as u64);
    out.push(46u8);
    push_decimal(out, (ip / 65536 % 256) as u64);
    out.push(46u8);
    push_decimal(out, (ip / 256 % 256) as u64);
    out.push(46u8);
    push_decimal(out, (ip % 256) as u64);
    assert(out@ =~= old(out)@ + dotted_quad(ip));
}

/// The dotted-quad text of `ip`.
pub fn dotted_quad_text(ip: u32) -> (r: Vec<u8>)
    ensures
        r@ == dotted_quad(ip),
{
    let mut out: Vec<u8> = Vec::new();
    push_dotted_quad(&mut out, ip);
    assert(out@ =~= dotted_quad(ip));
    out
}

/// The log record that an alert-logging session ends with, for the alert
/// address `ip` seen `count` times.
pub fn log_record_text(ip: u32, count: u64) -> (r: Vec<u8>)
    ensures
        r@ == log_record(ip, count as nat),
{
    let mut out: Vec<u8> = Vec::new();
    push_all(&mut out, prefix_bytes().as_slice());
    push_dotted_quad(&mut out, ip);
    push_all(&mut out, middle_bytes().as_slice());
    push_decimal(&mut out, count);
    push_all(&mut out, suffix_bytes().as_slice());
    assert(out@ =~= log_record(ip, count as nat));
    out
}

} // verus!
