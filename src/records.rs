//! Reading text back: dotted-quad addresses and the log records of earlier
//! sessions, cross-referenced against the alert address.
use vstd::prelude::*;
use vstd::string::StringSliceAdditionalSpecFns;
use crate::text::{
    decimal, digit_byte, dotted_quad, log_record, octet, middle_bytes, prefix_bytes, record_middle,
    record_prefix, record_suffix, suffix_bytes,
};

verus! {

pub open spec fn is_digit(b: u8) -> bool {
    48 <= b <= 57
}

/// The number of ASCII digits in `s` from position `i` on, up to the first
/// byte that is not one.
pub open spec fn digit_run(s: Seq<u8>, i: int) -> nat
    decreases s.len() - i,
{
    if 0 <= i < s.len() && is_digit(s[i]) {
        1 + digit_run(s, i + 1)
    } else {
        0
    }
}

/// The value of the `k` digits of `s` from position `i`.
pub open spec fn digits_value(s: Seq<u8>, i: int, k: nat) -> nat
    decreases k,
{
    if k == 0 {
        0
    } else {
        digits_value(s, i, (k - 1) as nat) * 10 + (s[i + k - 1] - 48) as nat
    }
}

/// Whether `lit` stands in `s` at position `i`.
pub open spec fn has_at(s: Seq<u8>, i: int, lit: Seq<u8>) -> bool {
    0 <= i && i + lit.len() <= s.len() && s.subrange(i, i + lit.len()) == lit
}

/// An octet at position `i`: one to three digits of value at most 255; its
/// value and the position after it.
pub open spec fn octet_at(s: Seq<u8>, i: int) -> Option<(nat, int)> {
    let k = digit_run(s, i);
    if 1 <= k <= 3 && digits_value(s, i, k) <= 255 {
        Some((digits_value(s, i, k), i + k))
    } else {
        None
    }
}

/// An octet at position `i` followed by a dot; its value and the position
/// after the dot.
pub open spec fn octet_dot_at(s: Seq<u8>, i: int) -> Option<(nat, int)> {
    match octet_at(s, i) {
        Some((v, e)) => if 0 <= e < s.len() && s[e] == 46u8 {
            Some((v, e + 1))
        } else {
            None
        },
        None => None,
    }
}

/// A dotted-quad address at position `i`; the address and the position
/// after it.
pub open spec fn quad_at(s: Seq<u8>, i: int) -> Option<(u32, int)> {
    match octet_dot_at(s, i) {
        None => None,
        Some((a, i1)) => match octet_dot_at(s, i1) {
            None => None,
            Some((b, i2)) => match octet_dot_at(s, i2) {
                None => None,
                Some((c, i3)) => match octet_at(s, i3) {
                    None => None,
                    Some((d, i4)) => Some(
                        ((((a * 256 + b) * 256 + c) * 256 + d) as u32, i4),
                    ),
                },
            },
        },
    }
}

/// The address that the whole of `s` writes in dotted-quad form.
pub open spec fn address_of(s: Seq<u8>) -> Option<u32> {
    match quad_at(s, 0) {
        Some((ip, e)) => if e == s.len() {
            Some(ip)
        } else {
            None
        },
        None => None,
    }
}

/// A log record that starts at position `i`: its address and its count.
pub open spec fn record_at(s: Seq<u8>, i: int) -> Option<(u32, u64)> {
    if !has_at(s, i, record_prefix()) {
        None
    } else {
        match quad_at(s, i + record_prefix().len()) {
            None => None,
            Some((ip, j)) => if !has_at(s, j, record_middle()) {
                None
            } else {
                let c = j + record_middle().len();
                let k = digit_run(s, c);
                if k >= 1 && digits_value(s, c, k) <= u64::MAX && has_at(
                    s,
                    c + k,
                    record_suffix(),
                ) {
                    Some((ip, digits_value(s, c, k) as u64))
                } else {
                    None
                }
            },
        }
    }
}

/// The leftmost log record in `s` that starts at position `i` or later.
pub open spec fn first_record(s: Seq<u8>, i: int) -> Option<(u32, u64)>
    decreases s.len() - i,
{
    if i < 0 || i >= s.len() {
        None
    } else if record_at(s, i) is Some {
        record_at(s, i)
    } else {
        first_record(s, i + 1)
    }
}

pub(crate) fn digit_run_exec(s: &[u8], i: usize) -> (r: usize)
    requires
        i <= s.len(),
    ensures
        r == digit_run(s@, i as int),
        i + r <= s.len(),
{
    let mut j: usize = i;
    while j < s.len() && 48 <= s[j] && s[j] <= 57
        invariant
            i <= j <= s.len(),
            digit_run(s@, i as int) == (j - i) + digit_run(s@, j as int),
        decreases s.len() - j,
    {
        j = j + 1;
    }
    j - i
}

proof fn lemma_digits_value_grows(s: Seq<u8>, i: int, j: nat, k: nat)
    requires
        j <= k,
        forall|t: int| i <= t < i + k ==> is_digit(#[trigger] s[t]),
    ensures
        digits_value(s, i, j) <= digits_value(s, i, k),
    decreases k,
{
    if j < k {
        lemma_digits_value_grows(s, i, j, (k - 1) as nat);
    }
}

pub(crate) proof fn lemma_run_digits(s: Seq<u8>, i: int)
    requires
        0 <= i,
    ensures
        forall|t: int| i <= t < i + digit_run(s, i) ==> is_digit(#[trigger] s[t]),
        i + digit_run(s, i) <= s.len() || digit_run(s, i) == 0,
    decreases s.len() - i,
{
    if 0 <= i < s.len() && is_digit(s[i]) {
        lemma_run_digits(s, i + 1);
    }
}

/// The value of the `k` digits from position `i`, where it fits in a `u64`.
pub(crate) fn digits_value_exec(s: &[u8], i: usize, k: usize) -> (r: Option<u64>)
    requires
        i + k <= s.len(),
        forall|t: int| i <= t < i + k ==> is_digit(#[trigger] s@[t]),
    ensures
        r is Some <==> digits_value(s@, i as int, k as nat) <= u64::MAX,
        r is Some ==> r->0 == digits_value(s@, i as int, k as nat),
{
    let mut v: u64 = 0;
    let mut j: usize = 0;
    while j < k
        invariant
            0 <= j <= k,
            i + k <= s.len(),
            forall|t: int| i <= t < i + k ==> is_digit(#[trigger] s@[t]),
            v == digits_value(s@, i as int, j as nat),
        decreases k - j,
    {
        assert(is_digit(s@[i + j]));
        let d: u64 = (s[i + j] - 48) as u64;
        proof {
            lemma_digits_value_grows(s@, i as int, (j + 1) as nat, k as nat);
        }
        if v > (u64::MAX - d) / 10 {
            assert(digits_value(s@, i as int, (j + 1) as nat) > u64::MAX) by (nonlinear_arith)
                requires
                    v > (u64::MAX - d) / 10,
                    d <= 9,
                    digits_value(s@, i as int, (j + 1) as nat) == v * 10 + d,
            ;
            return None;
        }
        assert(v * 10 + d <= u64::MAX) by (nonlinear_arith)
            requires
                v <= (u64::MAX - d) / 10,
                d <= 9,
        ;
        v = v * 10 + d;
        j = j + 1;
    }
    Some(v)
}

/// Whether `lit` stands in `s` at position `i`.
pub(crate) fn has_at_exec(s: &[u8], i: usize, lit: &[u8]) -> (r: bool)
    ensures
        r == has_at(s@, i as int, lit@),
{
    if lit.len() > s.len() || i > s.len() - lit.len() {
        return false;
    }
    let mut j: usize = 0;
    while j < lit.len()
        invariant
            0 <= j <= lit.len(),
            i <= s.len(),
            i + lit.len() <= s.len(),
            forall|t: int| 0 <= t < j ==> s@[i + t] == lit@[t],
        decreases lit.len() - j,
    {
        if s[i + j] != lit[j] {
            assert(s@.subrange(i as int, i + lit.len())[j as int] != lit@[j as int]);
            return false;
        }
        j = j + 1;
    }
    assert(s@.subrange(i as int, i + lit.len()) =~= lit@);
    true
}

fn octet_at_exec(s: &[u8], i: usize) -> (r: Option<(u64, usize)>)
    requires
        i <= s.len(),
    ensures
        octet_at(s@, i as int) == match r {
            Some((v, e)) => Some((v as nat, e as int)),
            None => None,
        },
        match r {
            Some((v, e)) => e <= s.len() && v <= 255,
            None => true,
        },
{
    let k = digit_run_exec(s, i);
    proof {
        lemma_run_digits(s@, i as int);
    }
    if k < 1 || k > 3 {
        return None;
    }
    match digits_value_exec(s, i, k) {
        Some(v) => if v <= 255 {
            Some((v, i + k))
        } else {
            None
        },
        None => None,
    }
}

fn octet_dot_at_exec(s: &[u8], i: usize) -> (r: Option<(u64, usize)>)
    requires
        i <= s.len(),
    ensures
        octet_dot_at(s@, i as int) == match r {
            Some((v, e)) => Some((v as nat, e as int)),
            None => None,
        },
        match r {
            Some((v, e)) => e <= s.len() && v <= 255,
            None => true,
        },
{
    match octet_at_exec(s, i) {
        Some((v, e)) => if e < s.len() && s[e] == 46u8 {
            Some((v, e + 1))
        } else {
            None
        },
        None => None,
    }
}

fn quad_at_exec(s: &[u8], i: usize) -> (r: Option<(u32, usize)>)
    requires
        i <= s.len(),
    ensures
        quad_at(s@, i as int) == match r {
            Some((v, e)) => Some((v, e as int)),
            None => None,
        },
        match r {
            Some((_, e)) => e <= s.len(),
            None => true,
        },
{
    let (a, i1) = match octet_dot_at_exec(s, i) {
        Some(p) => p,
        None => return None,
    };
    let (b, i2) = match octet_dot_at_exec(s, i1) {
        Some(p) => p,
        None => return None,
    };
    let (c, i3) = match octet_dot_at_exec(s, i2) {
        Some(p) => p,
        None => return None,
    };
    let (d, i4) = match octet_at_exec(s, i3) {
        Some(p) => p,
        None => return None,
    };
    assert(((a * 256 + b) * 256 + c) * 256 + d <= u32::MAX) by (nonlinear_arith)
        requires
            a <= 255,
            b <= 255,
            c <= 255,
            d <= 255,
    ;
    let ip: u32 = (((a as u32) * 256 + (b as u32)) * 256 + (c as u32)) * 256 + (d as u32);
    Some((ip, i4))
}

/// Reads a whole dotted-quad address, such as `10.0.0.5`: four decimal
/// octets of at most three digits and value at most 255, joined by dots.
pub fn parse_address(s: &str) -> (r: Option<u32>)
    ensures
        r == address_of(s.spec_bytes()),
{
    let b = s.as_bytes();
    match quad_at_exec(b, 0) {
        Some((ip, e)) => if e == b.len() {
            Some(ip)
        } else {
            None
        },
        None => None,
    }
}

fn record_at_exec(s: &[u8], i: usize) -> (r: Option<(u32, u64)>)
    requires
        i <= s.len(),
    ensures
        r == record_at(s@, i as int),
{
    let prefix = prefix_bytes();
    let middle = middle_bytes();
    let suffix = suffix_bytes();
    if !has_at_exec(s, i, prefix.as_slice()) {
        return None;
    }
    let (ip, j) = match quad_at_exec(s, i + prefix.len()) {
        Some(p) => p,
        None => return None,
    };
    if !has_at_exec(s, j, middle.as_slice()) {
        return None;
    }
    let c = j + middle.len();
    let k = digit_run_exec(s, c);
    proof {
        lemma_run_digits(s@, c as int);
    }
    if k < 1 {
        return None;
    }
    match digits_value_exec(s, c, k) {
        Some(n) => if has_at_exec(s, c + k, suffix.as_slice()) {
            Some((ip, n))
        } else {
            None
        },
        None => None,
    }
}

/// The leftmost log record in `line`: the alert address and the count that
/// it states.
pub fn find_record(line: &str) -> (r: Option<(u32, u64)>)
    ensures
        r == first_record(line.spec_bytes(), 0),
{
    let s = line.as_bytes();
    let mut i: usize = 0;
    while i < s.len()
        invariant
            0 <= i <= s.len(),
            s@ == line.spec_bytes(),
            first_record(s@, 0) == first_record(s@, i as int),
        decreases s.len() - i,
    {
        let r = record_at_exec(s, i);
        if r.is_some() {
            return r;
        }
        i = i + 1;
    }
    None
}

/// What one line of a log says of the alert address.
#[derive(Clone, Copy, Debug, PartialEq, Eq, Structural)]
pub enum CrossRef {
    /// The line holds no log record.
    NoRecord,
    /// A record of the alert address with a count above zero.
    Registered { count: u64 },
    /// A record of the alert address with a count of zero.
    NoTraffic,
    /// A record of another address.
    OtherAddress { ip: u32 },
}

/// What the record `rec`, if any, says of `alert_ip`.
pub open spec fn cross_ref_of(rec: Option<(u32, u64)>, alert_ip: u32) -> CrossRef {
    match rec {
        None => CrossRef::NoRecord,
        Some((ip, count)) => if ip != alert_ip {
            CrossRef::OtherAddress { ip }
        } else if count > 0 {
            CrossRef::Registered { count }
        } else {
            CrossRef::NoTraffic
        },
    }
}

/// Cross-references one line of a log against the alert address: the
/// leftmost record in the line decides.
pub fn cross_reference(line: &str, alert_ip: u32) -> (r: CrossRef)
    ensures
        r == cross_ref_of(first_record(line.spec_bytes(), 0), alert_ip),
{
    match find_record(line) {
        None => CrossRef::NoRecord,
        Some((ip, count)) => if ip != alert_ip {
            CrossRef::OtherAddress { ip }
        } else if count > 0 {
            CrossRef::Registered { count }
        } else {
            CrossRef::NoTraffic
        },
    }
}

proof fn lemma_decimal_shape(n: nat)
    ensures
        decimal(n).len() >= 1,
        forall|t: int| 0 <= t < decimal(n).len() ==> is_digit(#[trigger] decimal(n)[t]),
        n < 10 ==> decimal(n).len() == 1,
        n < 100 ==> decimal(n).len() <= 2,
        n < 1000 ==> decimal(n).len() <= 3,
    decreases n,
{
    if n >= 10 {
        lemma_decimal_shape(n / 10);
        let d = decimal(n / 10);
        assert forall|t: int| 0 <= t < decimal(n).len() implies is_digit(
            #[trigger] decimal(n)[t],
        ) by {
            if t < d.len() {
                assert(decimal(n)[t] == d[t]);
            }
        }
    }
}

proof fn lemma_digit_run_exact(s: Seq<u8>, i: int, k: nat)
    requires
        0 <= i,
        i + k <= s.len(),
        forall|t: int| i <= t < i + k ==> is_digit(#[trigger] s[t]),
        i + k == s.len() || !is_digit(s[i + k]),
    ensures
        digit_run(s, i) == k,
    decreases k,
{
    if k > 0 {
        lemma_digit_run_exact(s, i + 1, (k - 1) as nat);
    }
}

proof fn lemma_digits_value_of_decimal(s: Seq<u8>, i: int, n: nat)
    requires
        0 <= i,
        i + decimal(n).len() <= s.len(),
        s.subrange(i, i + decimal(n).len()) == decimal(n),
    ensures
        digits_value(s, i, decimal(n).len()) == n,
    decreases n,
{
    if n >= 10 {
        let d = decimal(n / 10);
        assert(decimal(n) == d.push(digit_byte(n % 10)));
        assert(decimal(n).subrange(0, d.len() as int) =~= d);
        assert(s.subrange(i, i + d.len()) =~= s.subrange(i, i + decimal(n).len()).subrange(
            0,
            d.len() as int,
        ));
        lemma_digits_value_of_decimal(s, i, n / 10);
        assert(s[i + d.len()] == s.subrange(i, i + decimal(n).len())[d.len() as int]);
        assert(s[i + d.len()] == digit_byte(n % 10));
        assert(digits_value(s, i, decimal(n).len()) == digits_value(s, i, d.len()) * 10 + (
        s[i + d.len()] - 48) as nat);
        assert((n / 10) * 10 + n % 10 == n) by (nonlinear_arith);
    } else {
        assert(s[i] == s.subrange(i, i + decimal(n).len())[0]);
        assert(decimal(n).len() == 1);
        assert(digits_value(s, i, 0) == 0);
        assert(digits_value(s, i, 1) == digits_value(s, i, 0) * 10 + (s[i] - 48) as nat);
    }
}

/// The decimal text of `n` at position `i` of `s`, followed by a byte that
/// is not a digit, reads back as `n`.
proof fn lemma_number_at(s: Seq<u8>, i: int, n: nat)
    requires
        0 <= i,
        i + decimal(n).len() < s.len(),
        s.subrange(i, i + decimal(n).len()) == decimal(n),
        !is_digit(s[i + decimal(n).len()]),
    ensures
        digit_run(s, i) == decimal(n).len(),
        digits_value(s, i, decimal(n).len()) == n,
{
    lemma_decimal_shape(n);
    assert forall|t: int| i <= t < i + decimal(n).len() implies is_digit(#[trigger] s[t]) by {
        assert(s[t] == s.subrange(i, i + decimal(n).len())[t - i]);
    }
    lemma_digit_run_exact(s, i, decimal(n).len());
    lemma_digits_value_of_decimal(s, i, n);
}

proof fn lemma_octet_bound(ip: u32, k: nat)
    ensures
        octet(ip, k) <= 255,
        (((octet(ip, 0) * 256 + octet(ip, 1)) * 256 + octet(ip, 2)) * 256 + octet(ip, 3)) == ip,
{
}

proof fn lemma_sub(s: Seq<u8>, i: int, t: Seq<u8>, off: int, u: Seq<u8>)
    requires
        0 <= i,
        i + t.len() <= s.len(),
        s.subrange(i, i + t.len()) == t,
        0 <= off,
        off + u.len() <= t.len(),
        t.subrange(off, off + u.len()) == u,
    ensures
        s.subrange(i + off, i + off + u.len()) == u,
{
    let w = s.subrange(i + off, i + off + u.len());
    assert forall|q: int| 0 <= q < u.len() implies #[trigger] w[q] == u[q] by {
        assert(s[i + off + q] == s.subrange(i, i + t.len())[off + q]);
        assert(u[q] == t.subrange(off, off + u.len())[q]);
    }
    assert(w =~= u);
}

proof fn lemma_at(s: Seq<u8>, i: int, t: Seq<u8>, off: int)
    requires
        0 <= i,
        i + t.len() <= s.len(),
        s.subrange(i, i + t.len()) == t,
        0 <= off < t.len(),
    ensures
        s[i + off] == t[off],
{
    assert(s[i + off] == s.subrange(i, i + t.len())[off]);
}

/// The dotted-quad text of `ip` at position `i` of `s`, followed by a byte
/// that is not a digit, reads back as `ip`.
proof fn lemma_quad_reads_back(s: Seq<u8>, i: int, ip: u32)
    requires
        0 <= i,
        i + dotted_quad(ip).len() < s.len(),
        s.subrange(i, i + dotted_quad(ip).len()) == dotted_quad(ip),
        !is_digit(s[i + dotted_quad(ip).len()]),
    ensures
        quad_at(s, i) == Some((ip, i + dotted_quad(ip).len())),
{
    let t = dotted_quad(ip);
    let a = decimal(octet(ip, 0));
    let b = decimal(octet(ip, 1));
    let c = decimal(octet(ip, 2));
    let d = decimal(octet(ip, 3));
    lemma_octet_bound(ip, 0);
    lemma_decimal_shape(octet(ip, 0));
    lemma_decimal_shape(octet(ip, 1));
    lemma_decimal_shape(octet(ip, 2));
    lemma_decimal_shape(octet(ip, 3));
    let o1 = a.len() + 1int;
    let o2 = o1 + b.len() + 1int;
    let o3 = o2 + c.len() + 1int;
    assert(t.subrange(0, a.len() as int) =~= a);
    assert(t[a.len() as int] == 46u8);
    assert(t.subrange(o1, o1 + b.len()) =~= b);
    assert(t[o1 + b.len()] == 46u8);
    assert(t.subrange(o2, o2 + c.len()) =~= c);
    assert(t[o2 + c.len()] == 46u8);
    assert(t.subrange(o3, o3 + d.len()) =~= d);
    assert(t.len() == o3 + d.len());
    lemma_sub(s, i, t, 0, a);
    lemma_at(s, i, t, a.len() as int);
    lemma_sub(s, i, t, o1, b);
    lemma_at(s, i, t, o1 + b.len());
    lemma_sub(s, i, t, o2, c);
    lemma_at(s, i, t, o2 + c.len());
    lemma_sub(s, i, t, o3, d);
    lemma_number_at(s, i, octet(ip, 0));
    lemma_number_at(s, i + o1, octet(ip, 1));
    lemma_number_at(s, i + o2, octet(ip, 2));
    lemma_number_at(s, i + o3, octet(ip, 3));
    lemma_octet_bound(ip, 1);
    lemma_octet_bound(ip, 2);
    lemma_octet_bound(ip, 3);
    assert(octet_dot_at(s, i) == Some((octet(ip, 0), i + o1)));
    assert(octet_dot_at(s, i + o1) == Some((octet(ip, 1), i + o2)));
    assert(octet_dot_at(s, i + o2) == Some((octet(ip, 2), i + o3)));
    assert(octet_at(s, i + o3) == Some((octet(ip, 3), i + t.len())));
}

/// Every log record that the library writes reads back as the address and
/// the count that it was written with, so a cross-reference of it against
/// its own address reports that count.
pub proof fn lemma_log_record_reads_back(ip: u32, count: u64)
    ensures
        first_record(log_record(ip, count as nat), 0) == Some((ip, count)),
        cross_ref_of(first_record(log_record(ip, count as nat), 0), ip) == (if count > 0 {
            CrossRef::Registered { count }
        } else {
            CrossRef::NoTraffic
        }),
{
    let s = log_record(ip, count as nat);
    let q = dotted_quad(ip);
    let n = decimal(count as nat);
    let p = record_prefix();
    let m = record_middle();
    let x = record_suffix();
    lemma_decimal_shape(count as nat);
    let j = p.len() + q.len() + 0int;
    let k = j + m.len();
    assert(s.subrange(0, p.len() as int) =~= p);
    assert(s.subrange(p.len() as int, j) =~= q);
    assert(s[j] == m[0]);
    assert(s.subrange(j, k) =~= m);
    assert(s.subrange(k, k + n.len()) =~= n);
    assert(s[k + n.len()] == x[0]);
    assert(s.subrange(k + n.len(), k + n.len() + x.len()) =~= x);
    lemma_quad_reads_back(s, p.len() as int, ip);
    lemma_number_at(s, k, count as nat);
    assert(record_at(s, 0) == Some((ip, count)));
}

} // verus!
