//! One capture session: the decisions of the capture loop. The caller pulls
//! frames and operator events and carries out what each step returns.
use vstd::prelude::*;
use crate::decode::{ethertype_of, ipv4_fields, ipv4_of, trace, trace_of, Trace, ETHERTYPE_IPV4};
use crate::stats::{record_model, replay, IpCounters, StatsTable};
use crate::text::{log_record, log_record_text};

verus! {

/// How a session displays what it captures; fixed for the whole session.
#[derive(Clone, Copy, Debug, PartialEq, Eq, Structural)]
pub enum Mode {
    /// A table of all addresses, redrawn on a timer; no alert count.
    Summary,
    /// One trace line per TCP or UDP packet, and an alert count that is
    /// logged when the session stops.
    Detailed,
}

/// An operator gesture seen by a poll.
#[derive(Clone, Copy, Debug, PartialEq, Eq, Structural)]
pub enum ControlEvent {
    /// Stop the capture and flush its results.
    Stop,
    /// Leave the process at once, without flushing anything.
    ForceQuit,
}

/// What the capture loop does after a poll.
#[derive(Clone, Copy, Debug, PartialEq, Eq, Structural)]
pub enum Control {
    /// Pull the next frame.
    Proceed,
    /// End the session gracefully (and write its log record, if any).
    Finish,
    /// Leave the process at once.
    Abort,
}

/// What to do about one frame.
#[derive(Clone, Copy, Debug, PartialEq, Eq, Structural)]
pub struct FrameOutcome {
    /// Notify the alert sink of the alert address.
    pub alert: bool,
    /// A trace line to print.
    pub trace: Option<Trace>,
}

/// The state of a session as the contracts see it.
pub struct SessionView {
    pub mode: Mode,
    pub alert_ip: u32,
    pub table: Map<u32, IpCounters>,
    pub alerts: u64,
    pub cancelled: bool,
}

/// A fresh session.
pub open spec fn initial(mode: Mode, alert_ip: u32) -> SessionView {
    SessionView { mode, alert_ip, table: Map::empty(), alerts: 0, cancelled: false }
}

/// What a poll decides, given whether the session was already stopped.
pub open spec fn control_of(cancelled: bool, ev: Option<ControlEvent>) -> Control {
    if cancelled {
        Control::Finish
    } else {
        match ev {
            None => Control::Proceed,
            Some(ControlEvent::Stop) => Control::Finish,
            Some(ControlEvent::ForceQuit) => Control::Abort,
        }
    }
}

/// The session after a poll: a stop sets the flag, and nothing clears it.
pub open spec fn polled(v: SessionView, ev: Option<ControlEvent>) -> SessionView {
    SessionView { cancelled: v.cancelled || ev == Some(ControlEvent::Stop), ..v }
}

/// Whether `frame` raises an alert: its IPv4 source is the alert address.
pub open spec fn alerts_on(alert_ip: u32, frame: Seq<u8>) -> bool {
    match ipv4_of(frame) {
        Some(ip) => ip.src == alert_ip,
        None => false,
    }
}

/// The session after a frame of `len` bytes on the wire. An IPv4 packet is
/// recorded in the table; in detailed mode an alert adds one to the count
/// (held at `u64::MAX`). Any other frame changes nothing.
pub open spec fn after_frame(v: SessionView, frame: Seq<u8>, len: u32) -> SessionView {
    match ipv4_of(frame) {
        None => v,
        Some(ip) => SessionView {
            table: record_model(v.table, ip.src, ip.dst, len),
            alerts: if v.mode == Mode::Detailed && ip.src == v.alert_ip && v.alerts < u64::MAX {
                (v.alerts + 1) as u64
            } else {
                v.alerts
            },
            ..v
        },
    }
}

/// What the caller does about a frame.
pub open spec fn outcome_of(mode: Mode, alert_ip: u32, frame: Seq<u8>) -> FrameOutcome {
    FrameOutcome {
        alert: alerts_on(alert_ip, frame),
        trace: if mode == Mode::Detailed {
            trace_of(frame)
        } else {
            None
        },
    }
}

/// The log record that a stopped session leaves: one in detailed mode,
/// none in summary mode or before a stop.
pub open spec fn log_of(v: SessionView) -> Option<Seq<u8>> {
    if v.mode == Mode::Detailed && v.cancelled {
        Some(log_record(v.alert_ip, v.alerts as nat))
    } else {
        None
    }
}

/// One iteration of the capture loop is a poll and, where the poll says
/// `Proceed`, the frame that the pull returned (its bytes and wire length),
/// if any. The session and the number of frames taken after `steps`; the
/// loop ends at the first poll that does not say `Proceed`.
pub open spec fn run(
    v: SessionView,
    steps: Seq<(Option<ControlEvent>, Option<(Seq<u8>, u32)>)>,
) -> (SessionView, nat)
    decreases steps.len(),
{
    if steps.len() == 0 {
        (v, 0)
    } else {
        let ev = steps[0].0;
        let v1 = polled(v, ev);
        if control_of(v.cancelled, ev) != Control::Proceed {
            (v1, 0)
        } else {
            match steps[0].1 {
                None => run(v1, steps.drop_first()),
                Some(fr) => {
                    let r = run(after_frame(v1, fr.0, fr.1), steps.drop_first());
                    (r.0, r.1 + 1)
                },
            }
        }
    }
}

/// Once the stop flag is set, the capture loop ends at its next poll: it
/// takes no further frame, whatever the operator does and whatever the
/// pulls return, and the table stays as it was. A stop seen at a poll sets
/// the flag at once.
pub proof fn lemma_stop_ends_the_loop(
    v: SessionView,
    ev: Option<ControlEvent>,
    steps: Seq<(Option<ControlEvent>, Option<(Seq<u8>, u32)>)>,
)
    ensures
        polled(v, Some(ControlEvent::Stop)).cancelled,
        control_of(v.cancelled, Some(ControlEvent::Stop)) == Control::Finish,
        v.cancelled ==> control_of(v.cancelled, ev) == Control::Finish,
        v.cancelled ==> run(v, steps).1 == 0 && run(v, steps).0.table == v.table,
{
}

/// The session after the frames `frames`, each its bytes and wire length.
pub open spec fn feed(v: SessionView, frames: Seq<(Seq<u8>, u32)>) -> SessionView
    decreases frames.len(),
{
    if frames.len() == 0 {
        v
    } else {
        after_frame(feed(v, frames.drop_last()), frames.last().0, frames.last().1)
    }
}

/// The number of frames in `frames` whose IPv4 source is `alert_ip`.
pub open spec fn alert_frames(frames: Seq<(Seq<u8>, u32)>, alert_ip: u32) -> nat
    decreases frames.len(),
{
    if frames.len() == 0 {
        0
    } else {
        alert_frames(frames.drop_last(), alert_ip) + if alerts_on(alert_ip, frames.last().0) {
            1nat
        } else {
            0nat
        }
    }
}

pub open spec fn capped(n: nat) -> u64 {
    if n > u64::MAX {
        u64::MAX
    } else {
        n as u64
    }
}

/// A detailed session counts exactly the frames whose IPv4 source is the
/// alert address, TCP, UDP or other (held at `u64::MAX`), and when stopped
/// its log record states that count.
pub proof fn lemma_alert_count_is_exact(alert_ip: u32, frames: Seq<(Seq<u8>, u32)>)
    ensures
        feed(initial(Mode::Detailed, alert_ip), frames).alerts == capped(
            alert_frames(frames, alert_ip),
        ),
        log_of(polled(feed(initial(Mode::Detailed, alert_ip), frames), Some(ControlEvent::Stop)))
            == Some(log_record(alert_ip, capped(alert_frames(frames, alert_ip)) as nat)),
    decreases frames.len(),
{
    lemma_feed_keeps_settings(initial(Mode::Detailed, alert_ip), frames);
    if frames.len() > 0 {
        lemma_alert_count_is_exact(alert_ip, frames.drop_last());
    }
}

/// The IPv4 packets among `frames`, each as its source, destination and
/// wire length, in order.
pub open spec fn packets_of(frames: Seq<(Seq<u8>, u32)>) -> Seq<(u32, u32, u32)>
    decreases frames.len(),
{
    if frames.len() == 0 {
        Seq::empty()
    } else {
        match ipv4_of(frames.last().0) {
            Some(ip) => packets_of(frames.drop_last()).push((ip.src, ip.dst, frames.last().1)),
            None => packets_of(frames.drop_last()),
        }
    }
}

/// The table of a session after any frames is the table after the IPv4
/// packets among them, in order; the other frames leave no trace in it.
pub proof fn lemma_session_table_is_replay(v: SessionView, frames: Seq<(Seq<u8>, u32)>)
    ensures
        feed(v, frames).table == replay(v.table, packets_of(frames)),
    decreases frames.len(),
{
    if frames.len() > 0 {
        lemma_session_table_is_replay(v, frames.drop_last());
        let ps = packets_of(frames.drop_last());
        if let Some(ip) = ipv4_of(frames.last().0) {
            let qs = ps.push((ip.src, ip.dst, frames.last().1));
            assert(qs.drop_last() =~= ps);
        }
    }
}

proof fn lemma_feed_keeps_settings(v: SessionView, frames: Seq<(Seq<u8>, u32)>)
    ensures
        feed(v, frames).mode == v.mode,
        feed(v, frames).alert_ip == v.alert_ip,
        feed(v, frames).cancelled == v.cancelled,
    decreases frames.len(),
{
    if frames.len() > 0 {
        lemma_feed_keeps_settings(v, frames.drop_last());
    }
}

/// A frame that does not carry IPv4 (an ARP frame, say), or is too short
/// to hold an Ethernet and an IPv4 header, changes nothing: no counter, no
/// alert, no trace.
pub proof fn lemma_non_ipv4_frame_is_skipped(v: SessionView, frame: Seq<u8>, len: u32)
    requires
        ethertype_of(frame) != Some(ETHERTYPE_IPV4) || frame.len() < 34,
    ensures
        after_frame(v, frame, len) == v,
        outcome_of(v.mode, v.alert_ip, frame) == (FrameOutcome { alert: false, trace: None }),
{
}

/// A capture session.
pub struct Session {
    mode: Mode,
    alert_ip: u32,
    table: StatsTable,
    alerts: u64,
    cancelled: bool,
}

impl Session {
    pub closed spec fn view(&self) -> SessionView {
        SessionView {
            mode: self.mode,
            alert_ip: self.alert_ip,
            table: self.table@,
            alerts: self.alerts,
            cancelled: self.cancelled,
        }
    }

    pub closed spec fn wf(&self) -> bool {
        self.table.wf()
    }

    /// The entries of the table in order of first sighting.
    pub closed spec fn entries(&self) -> Seq<(u32, IpCounters)> {
        self.table.entries()
    }

    /// A session in `mode` that watches for `alert_ip`.
    pub fn new(mode: Mode, alert_ip: u32) -> (r: Session)
        ensures
            r.wf(),
            r@ == initial(mode, alert_ip),
            r.entries().len() == 0,
    {
        Session { mode, alert_ip, table: StatsTable::new(), alerts: 0, cancelled: false }
    }

    pub fn mode(&self) -> (r: Mode)
        ensures
            r == self@.mode,
    {
        self.mode
    }

    pub fn alert_ip(&self) -> (r: u32)
        ensures
            r == self@.alert_ip,
    {
        self.alert_ip
    }

    /// The number of alerts counted so far (detailed mode only).
    pub fn alerts(&self) -> (r: u64)
        ensures
            r == self@.alerts,
    {
        self.alerts
    }

    /// Whether the session has been stopped.
    pub fn is_cancelled(&self) -> (r: bool)
        ensures
            r == self@.cancelled,
    {
        self.cancelled
    }

    /// The counters of `ip`, zero where it has not been seen.
    pub fn counters(&self, ip: u32) -> (r: IpCounters)
        requires
            self.wf(),
        ensures
            r == crate::stats::counters_in(self@.table, ip),
    {
        self.table.get(ip)
    }

    /// The poll point of each iteration: takes what the operator did since
    /// the last poll, if anything, and says whether to go on. Once stopped,
    /// a session answers `Finish` to every poll.
    pub fn poll(&mut self, ev: Option<ControlEvent>) -> (r: Control)
        requires
            old(self).wf(),
        ensures
            final(self).wf(),
            r == control_of(old(self)@.cancelled, ev),
            final(self)@ == polled(old(self)@, ev),
            final(self).entries() == old(self).entries(),
    {
        if self.cancelled {
            return Control::Finish;
        }
        match ev {
            None => Control::Proceed,
            Some(ControlEvent::Stop) => {
                self.cancelled = true;
                Control::Finish
            },
            Some(ControlEvent::ForceQuit) => Control::Abort,
        }
    }

    /// Takes one captured frame of `wire_len` bytes on the wire: records an
    /// IPv4 packet in the table, counts an alert in detailed mode, and says
    /// whether to notify the alert sink and what to trace. Frames that are
    /// not IPv4, or too short to decode, are skipped.
    pub fn on_frame(&mut self, frame: &[u8], wire_len: u32) -> (r: FrameOutcome)
        requires
            old(self).wf(),
        ensures
            final(self).wf(),
            final(self)@ == after_frame(old(self)@, frame@, wire_len),
            r == outcome_of(old(self)@.mode, old(self)@.alert_ip, frame@),
    {
        let tr = match self.mode {
            Mode::Detailed => trace(frame),
            Mode::Summary => None,
        };
        match ipv4_fields(frame) {
            None => FrameOutcome { alert: false, trace: tr },
            Some(ip) => {
                self.table.record(ip.src, ip.dst, wire_len);
                let alert = ip.src == self.alert_ip;
                if alert && self.mode == Mode::Detailed && self.alerts < u64::MAX {
                    self.alerts = self.alerts + 1;
                }
                FrameOutcome { alert, trace: tr }
            },
        }
    }

    /// The log record to persist when the session ends: present only for a
    /// detailed session that was stopped gracefully.
    pub fn log_record(&self) -> (r: Option<Vec<u8>>)
        ensures
            match log_of(self@) {
                Some(t) => r is Some && r->0@ == t,
                None => r is None,
            },
    {
        if self.mode == Mode::Detailed && self.cancelled {
            Some(log_record_text(self.alert_ip, self.alerts))
        } else {
            None
        }
    }

    /// A copy of the table, in order of first sighting, for a redraw.
    pub fn snapshot(&self) -> (r: Vec<(u32, IpCounters)>)
        requires
            self.wf(),
        ensures
            r@ == self.entries(),
    {
        self.table.snapshot()
    }
}

} // verus!
