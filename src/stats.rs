//! The traffic statistics table: per-address byte counters.
use vstd::prelude::*;

verus! {

/// Byte counters of one IPv4 address.
#[derive(Clone, Copy, Debug, PartialEq, Eq, Structural)]
pub struct IpCounters {
    pub sent: u64,
    pub received: u64,
}

/// `a + b`, held at `u64::MAX` where it would not fit.
pub open spec fn sat_add(a: int, b: int) -> u64 {
    if a + b > u64::MAX {
        u64::MAX
    } else {
        (a + b) as u64
    }
}

pub open spec fn zero_counters() -> IpCounters {
    IpCounters { sent: 0, received: 0 }
}

/// The counters of `ip` in `m`, zero where `ip` has not been seen.
pub open spec fn counters_in(m: Map<u32, IpCounters>, ip: u32) -> IpCounters {
    if m.contains_key(ip) {
        m[ip]
    } else {
        zero_counters()
    }
}

/// `c` after a frame of `len` bytes: added to `sent` for a source, to
/// `received` for a destination.
pub open spec fn bumped(c: IpCounters, is_source: bool, len: u32) -> IpCounters {
    if is_source {
        IpCounters { sent: sat_add(c.sent as int, len as int), ..c }
    } else {
        IpCounters { received: sat_add(c.received as int, len as int), ..c }
    }
}

/// The table after one update of `ip`.
pub open spec fn update_model(
    m: Map<u32, IpCounters>,
    ip: u32,
    is_source: bool,
    len: u32,
) -> Map<u32, IpCounters> {
    m.insert(ip, bumped(counters_in(m, ip), is_source, len))
}

/// The table after one IPv4 packet: its source sent `len` bytes, then its
/// destination received them.
pub open spec fn record_model(
    m: Map<u32, IpCounters>,
    src: u32,
    dst: u32,
    len: u32,
) -> Map<u32, IpCounters> {
    update_model(update_model(m, src, true, len), dst, false, len)
}

/// The table after the packets `pkts`, each a source, a destination and a
/// wire length, recorded in order from `m`.
pub open spec fn replay(m: Map<u32, IpCounters>, pkts: Seq<(u32, u32, u32)>) -> Map<
    u32,
    IpCounters,
>
    decreases pkts.len(),
{
    if pkts.len() == 0 {
        m
    } else {
        let p = pkts.last();
        record_model(replay(m, pkts.drop_last()), p.0, p.1, p.2)
    }
}

/// The sum of the lengths of the packets in `pkts` whose source is `ip`.
pub open spec fn sent_total(pkts: Seq<(u32, u32, u32)>, ip: u32) -> int
    decreases pkts.len(),
{
    if pkts.len() == 0 {
        0
    } else {
        sent_total(pkts.drop_last(), ip) + if pkts.last().0 == ip {
            pkts.last().2 as int
        } else {
            0
        }
    }
}

/// The sum of the lengths of the packets in `pkts` whose destination is `ip`.
pub open spec fn received_total(pkts: Seq<(u32, u32, u32)>, ip: u32) -> int
    decreases pkts.len(),
{
    if pkts.len() == 0 {
        0
    } else {
        received_total(pkts.drop_last(), ip) + if pkts.last().1 == ip {
            pkts.last().2 as int
        } else {
            0
        }
    }
}

/// For every sequence of packets recorded into an empty table, the `sent`
/// counter of an address is the sum of the lengths of the packets it sent,
/// and its `received` counter the sum of those it received (each held at
/// `u64::MAX`). Reads of the table change nothing, so they may come between
/// the updates in any number.
pub proof fn lemma_counters_are_totals(pkts: Seq<(u32, u32, u32)>, ip: u32)
    ensures
        counters_in(replay(Map::empty(), pkts), ip).sent == sat_add(sent_total(pkts, ip), 0),
        counters_in(replay(Map::empty(), pkts), ip).received == sat_add(
            received_total(pkts, ip),
            0,
        ),
    decreases pkts.len(),
{
    if pkts.len() > 0 {
        lemma_counters_are_totals(pkts.drop_last(), ip);
        lemma_totals_nonneg(pkts.drop_last(), ip);
    }
}

proof fn lemma_totals_nonneg(pkts: Seq<(u32, u32, u32)>, ip: u32)
    ensures
        sent_total(pkts, ip) >= 0,
        received_total(pkts, ip) >= 0,
    decreases pkts.len(),
{
    if pkts.len() > 0 {
        lemma_totals_nonneg(pkts.drop_last(), ip);
    }
}

/// A table of counters keyed by address; each address has one entry, kept
/// in the order in which it was first seen.
pub struct StatsTable {
    entries: Vec<(u32, IpCounters)>,
    model: Ghost<Map<u32, IpCounters>>,
}

impl StatsTable {
    /// The entries in order of first sighting.
    pub closed spec fn entries(&self) -> Seq<(u32, IpCounters)> {
        self.entries@
    }

    pub closed spec fn view(&self) -> Map<u32, IpCounters> {
        self.model@
    }

    pub closed spec fn wf(&self) -> bool {
        &&& forall|i: int, j: int|
            0 <= i < j < self.entries@.len() ==> self.entries@[i].0 != self.entries@[j].0
        &&& forall|i: int|
            0 <= i < self.entries@.len() ==> #[trigger] self.model@.contains_key(
                self.entries@[i].0,
            ) && self.model@[self.entries@[i].0] == self.entries@[i].1
        &&& forall|ip: u32|
            #[trigger] self.model@.contains_key(ip) ==> exists|i: int|
                0 <= i < self.entries@.len() && self.entries@[i].0 == ip
    }

    /// An empty table.
    pub fn new() -> (r: StatsTable)
        ensures
            r.wf(),
            r@ == Map::<u32, IpCounters>::empty(),
            r.entries().len() == 0,
    {
        StatsTable { entries: Vec::new(), model: Ghost(Map::empty()) }
    }

    /// The number of distinct addresses seen.
    pub fn len(&self) -> (r: usize)
        requires
            self.wf(),
        ensures
            r == self.entries().len(),
            r == self@.dom().len(),
    {
        proof {
            self.lemma_dom_len();
        }
        self.entries.len()
    }

    proof fn lemma_dom_len(&self)
        requires
            self.wf(),
        ensures
            self@.dom().len() == self.entries().len(),
            self@.dom() == self.entries().map_values(|e: (u32, IpCounters)| e.0).to_set(),
    {
        let keys = self.entries().map_values(|e: (u32, IpCounters)| e.0);
        assert forall|ip: u32| self@.dom().contains(ip) <==> keys.to_set().contains(ip) by {
            if self@.dom().contains(ip) {
                let i = choose|i: int| 0 <= i < self.entries@.len() && self.entries@[i].0 == ip;
                assert(keys[i] == ip);
            }
            if keys.to_set().contains(ip) {
                let i = choose|i: int| 0 <= i < keys.len() && keys[i] == ip;
                assert(self.model@.contains_key(self.entries@[i].0));
            }
        }
        assert(self@.dom() =~= keys.to_set());
        assert(keys.no_duplicates());
        keys.unique_seq_to_set();
    }

    /// The counters of `ip`, zero where it has not been seen.
    pub fn get(&self, ip: u32) -> (r: IpCounters)
        requires
            self.wf(),
        ensures
            r == counters_in(self@, ip),
    {
        let mut i: usize = 0;
        while i < self.entries.len()
            invariant
                self.wf(),
                0 <= i <= self.entries@.len(),
                forall|k: int| 0 <= k < i ==> self.entries@[k].0 != ip,
            decreases self.entries@.len() - i,
        {
            if self.entries[i].0 == ip {
                return self.entries[i].1;
            }
            i = i + 1;
        }
        IpCounters { sent: 0, received: 0 }
    }

    /// Adds `len` bytes to `ip`'s `sent` counter for a source, else to its
    /// `received` counter; an address not seen before starts at zero.
    /// A counter that would pass `u64::MAX` stays there.
    pub fn update(&mut self, ip: u32, is_source: bool, len: u32)
        requires
            old(self).wf(),
        ensures
            final(self).wf(),
            final(self)@ == update_model(old(self)@, ip, is_source, len),
            old(self)@.contains_key(ip) ==> final(self).entries().len() == old(
                self,
            ).entries().len(),
            !old(self)@.contains_key(ip) ==> final(self).entries() == old(self).entries().push(
                (ip, final(self)@[ip]),
            ),
            forall|k: int|
                0 <= k < old(self).entries().len() ==> k < final(self).entries().len() && (
                #[trigger] final(self).entries()[k]).0 == old(self).entries()[k].0,
    {
        let ghost old_model = self.model@;
        let mut i: usize = 0;
        while i < self.entries.len()
            invariant
                self.wf(),
                self.model@ == old_model,
                old_model == old(self).model@,
                self.entries@ == old(self).entries@,
                0 <= i <= self.entries@.len(),
                forall|k: int| 0 <= k < i ==> self.entries@[k].0 != ip,
            decreases self.entries@.len() - i,
        {
            if self.entries[i].0 == ip {
                let c = self.entries[i].1;
                assert(old_model.contains_key(self.entries@[i as int].0));
                let n = bump(c, is_source, len);
                let ghost old_entries = self.entries@;
                self.entries.set(i, (ip, n));
                self.model = Ghost(self.model@.insert(ip, n));
                assert forall|other: u32| #[trigger] self.model@.contains_key(other) implies exists|
                    k: int,
                | 0 <= k < self.entries@.len() && self.entries@[k].0 == other by {
                    if other != ip {
                        let k = choose|k: int|
                            0 <= k < old_entries.len() && old_entries[k].0 == other;
                        assert(self.entries@[k].0 == other);
                    } else {
                        assert(self.entries@[i as int].0 == other);
                    }
                }
                return;
            }
            i = i + 1;
        }
        assert(!old_model.contains_key(ip)) by {
            if old_model.contains_key(ip) {
                let k = choose|k: int| 0 <= k < self.entries@.len() && self.entries@[k].0 == ip;
                assert(self.entries@[k].0 != ip);
            }
        }
        let n = bump(IpCounters { sent: 0, received: 0 }, is_source, len);
        let ghost old_entries = self.entries@;
        self.entries.push((ip, n));
        self.model = Ghost(self.model@.insert(ip, n));
        assert forall|other: u32| #[trigger] self.model@.contains_key(other) implies exists|k: int|
            0 <= k < self.entries@.len() && self.entries@[k].0 == other by {
            if other != ip {
                let k = choose|k: int| 0 <= k < old_entries.len() && old_entries[k].0 == other;
                assert(self.entries@[k].0 == other);
            } else {
                assert(self.entries@[old_entries.len() as int].0 == other);
            }
        }
    }

    /// Records one IPv4 packet of `len` bytes from `src` to `dst`.
    pub fn record(&mut self, src: u32, dst: u32, len: u32)
        requires
            old(self).wf(),
        ensures
            final(self).wf(),
            final(self)@ == record_model(old(self)@, src, dst, len),
    {
        self.update(src, true, len);
        self.update(dst, false, len);
    }

    /// A copy of the entries in order of first sighting.
    pub fn snapshot(&self) -> (r: Vec<(u32, IpCounters)>)
        requires
            self.wf(),
        ensures
            r@ == self.entries(),
    {
        let mut r: Vec<(u32, IpCounters)> = Vec::new();
        let mut i: usize = 0;
        while i < self.entries.len()
            invariant
                0 <= i <= self.entries@.len(),
                r@ == self.entries@.subrange(0, i as int),
            decreases self.entries@.len() - i,
        {
            r.push(self.entries[i]);
            i = i + 1;
            assert(r@ =~= self.entries@.subrange(0, i as int));
        }
        assert(r@ =~= self.entries@);
        r
    }
}

fn bump(c: IpCounters, is_source: bool, len: u32) -> (r: IpCounters)
    ensures
        r == bumped(c, is_source, len),
{
    if is_source {
        IpCounters { sent: c.sent.saturating_add(len as u64), ..c }
    } else {
        IpCounters { received: c.received.saturating_add(len as u64), ..c }
    }
}

} // verus!
