//! The screen of a summary session: a header and one row per address.
use vstd::prelude::*;
use crate::session::Session;
use crate::stats::IpCounters;
use crate::text::{decimal, dotted_quad, push_all, push_decimal, push_dotted_quad};

verus! {

pub const ADDRESS_WIDTH: usize = 18;

pub const SENT_WIDTH: usize = 12;

pub open spec fn header() -> Seq<u8> {
    seq![73u8, 80, 32, 65, 100, 100, 114, 101, 115, 115, 32, 32, 32, 32, 32, 32, 32, 32, 124, 32, 80, 97, 99, 107, 101, 116, 115, 32, 83, 101, 110, 116, 32, 124, 32, 80, 97, 99, 107, 101, 116, 115, 32, 82, 101, 99, 101, 105, 118, 101, 100, 10]
}

pub open spec fn rule() -> Seq<u8> {
    seq![45u8, 45, 45, 45, 45, 45, 45, 45, 45, 45, 45, 45, 45, 45, 45, 45, 45, 45, 43, 45, 45, 45, 45, 45, 45, 45, 45, 45, 45, 45, 45, 45, 45, 43, 45, 45, 45, 45, 45, 45, 45, 45, 45, 45, 45, 45, 45, 45, 45, 45, 45, 10]
}

/// `t` followed by spaces up to `width` bytes; `t` itself where it is as
/// long already.
pub open spec fn padded(t: Seq<u8>, width: nat) -> Seq<u8> {
    if t.len() >= width {
        t
    } else {
        t + Seq::new((width - t.len()) as nat, |i: int| 32u8)
    }
}

/// The row of one address: its dotted quad, the bytes it sent and the bytes
/// it received, in columns.
pub open spec fn row(e: (u32, IpCounters)) -> Seq<u8> {
    padded(dotted_quad(e.0), ADDRESS_WIDTH as nat) + seq![32u8, 124u8, 32u8] + padded(
        decimal(e.1.sent as nat),
        SENT_WIDTH as nat,
    ) + seq![32u8, 124u8, 32u8] + decimal(e.1.received as nat) + seq![10u8]
}

/// The rows of `rows`, in order.
pub open spec fn rows_text(rows: Seq<(u32, IpCounters)>) -> Seq<u8>
    decreases rows.len(),
{
    if rows.len() == 0 {
        Seq::empty()
    } else {
        rows_text(rows.drop_last()) + row(rows.last())
    }
}

/// The whole screen: the header, a rule and the rows.
pub open spec fn screen(rows: Seq<(u32, IpCounters)>) -> Seq<u8> {
    header() + rule() + rows_text(rows)
}

fn pad_to(out: &mut Vec<u8>, start: usize, width: usize)
    requires
        start <= old(out)@.len(),
    ensures
        final(out)@ == old(out)@.subrange(0, start as int) + padded(
            old(out)@.subrange(start as int, old(out)@.len() as int),
            width as nat,
        ),
{
    let ghost t = out@.subrange(start as int, out@.len() as int);
    if out.len() - start >= width {
        assert(out@ =~= out@.subrange(0, start as int) + t);
        return;
    }
    let ghost base = out@;
    while out.len() - start < width
        invariant
            start <= base.len() <= out@.len(),
            out@.len() - start <= width,
            t == base.subrange(start as int, base.len() as int),
            out@ == base + Seq::new((out@.len() - base.len()) as nat, |i: int| 32u8),
        decreases width - (out@.len() - start),
    {
        out.push(32u8);
        assert(out@ =~= base + Seq::new((out@.len() - base.len()) as nat, |i: int| 32u8));
    }
    assert(out@ =~= base.subrange(0, start as int) + padded(t, width as nat));
}

/// Appends the row of `e` to `out`.
pub fn push_row(out: &mut Vec<u8>, e: (u32, IpCounters))
    ensures
        final(out)@ == old(out)@ + row(e),
{
    let ghost o = out@;
    let sep: Vec<u8> = vec![32u8, 124u8, 32u8];
    let s0 = out.len();
    push_dotted_quad(out, e.0);
    pad_to(out, s0, ADDRESS_WIDTH);
    assert(out@.subrange(s0 as int, out@.len() as int) =~= padded(dotted_quad(e.0), ADDRESS_WIDTH as nat)) by {
        assert(out@ =~= o + padded(dotted_quad(e.0), ADDRESS_WIDTH as nat)) by {
            assert((o + dotted_quad(e.0)).subrange(0, s0 as int) =~= o);
            assert((o + dotted_quad(e.0)).subrange(s0 as int, (o + dotted_quad(e.0)).len() as int) =~= dotted_quad(e.0));
        }
    }
    let ghost o1 = out@;
    push_all(out, sep.as_slice());
    let s1 = out.len();
    let ghost o2 = out@;
    push_decimal(out, e.1.sent);
    assert((o2 + decimal(e.1.sent as nat)).subrange(0, s1 as int) =~= o2);
    assert((o2 + decimal(e.1.sent as nat)).subrange(s1 as int, (o2 + decimal(e.1.sent as nat)).len() as int) =~= decimal(e.1.sent as nat));
    pad_to(out, s1, SENT_WIDTH);
    push_all(out, sep.as_slice());
    push_decimal(out, e.1.received);
    out.push(10u8);
    assert(out@ =~= o + row(e));
}

/// The summary screen of `rows`: header, rule, and one row per entry in
/// the order given.
pub fn screen_text(rows: &Vec<(u32, IpCounters)>) -> (r: Vec<u8>)
    ensures
        r@ == screen(rows@),
{
    let mut out: Vec<u8> = vec![73u8, 80, 32, 65, 100, 100, 114, 101, 115, 115, 32, 32, 32, 32, 32, 32, 32, 32, 124, 32, 80, 97, 99, 107, 101, 116, 115, 32, 83, 101, 110, 116, 32, 124, 32, 80, 97, 99, 107, 101, 116, 115, 32, 82, 101, 99, 101, 105, 118, 101, 100, 10];
    let h2: Vec<u8> = vec![45u8, 45, 45, 45, 45, 45, 45, 45, 45, 45, 45, 45, 45, 45, 45, 45, 45, 45, 43, 45, 45, 45, 45, 45, 45, 45, 45, 45, 45, 45, 45, 45, 45, 43, 45, 45, 45, 45, 45, 45, 45, 45, 45, 45, 45, 45, 45, 45, 45, 45, 45, 10];
    push_all(&mut out, h2.as_slice());
    let mut i: usize = 0;
    while i < rows.len()
        invariant
            0 <= i <= rows@.len(),
            out@ == header() + rule() + rows_text(rows@.subrange(0, i as int)),
        decreases rows@.len() - i,
    {
        push_row(&mut out, rows[i]);
        assert(rows@.subrange(0, i + 1).drop_last() =~= rows@.subrange(0, i as int));
        i = i + 1;
        assert(out@ =~= header() + rule() + rows_text(rows@.subrange(0, i as int)));
    }
    assert(rows@.subrange(0, rows@.len() as int) =~= rows@);
    out
}

/// A redraw depends on the table alone: two redraws between which the table
/// took no update (a poll, a read or a snapshot may come between them) give
/// the same bytes.
pub proof fn lemma_redraw_is_idempotent(a: &Session, b: &Session)
    requires
        a.entries() == b.entries(),
    ensures
        screen(a.entries()) == screen(b.entries()),
{
}

} // verus!
