//! The state behind the live dashboard: recent frames, totals, per-protocol
//! and per-destination counts, and the packet rate of the last seconds.
use vstd::prelude::*;
use crate::tally::{Tally, count_of};
use crate::textfmt::{dec_chars, dec_text, push_char, push_chars, zero_padded};

verus! {

/// Frames kept for the live feed.
pub const MAX_ROWS: usize = 100;
/// Seconds of packet rate kept for the sparkline.
pub const RATE_WINDOW: usize = 20;

/// One frame as the dashboard lists it.
pub struct PacketRow {
    pub timestamp: String,
    pub proto: String,
    pub src: String,
    pub dst: String,
    pub info: String,
    pub size: usize,
    pub payload: Vec<u8>,
}

/// The dashboard's state.
pub struct Dashboard {
    /// Most recent frame first.
    pub packets: Vec<PacketRow>,
    pub total_packets: usize,
    pub total_bytes: usize,
    /// Frames per protocol label.
    pub proto_counts: Tally,
    /// Frames per destination.
    pub ip_stats: Tally,
    /// Frames per second, oldest first.
    pub rates: Vec<usize>,
    pub packets_this_sec: usize,
    pub interface: String,
}

/// The feed after `row` arrives: it goes first, and only the newest 100 stay.
pub open spec fn feed_after(rows: Seq<PacketRow>, row: PacketRow) -> Seq<PacketRow> {
    let all = seq![row] + rows;
    if all.len() > MAX_ROWS { all.take(MAX_ROWS as int) } else { all }
}

/// The rate history after a second with `n` frames: appended, and only the
/// last 20 seconds kept.
pub open spec fn rates_after(rates: Seq<usize>, n: usize) -> Seq<usize> {
    let all = rates.push(n);
    if all.len() > RATE_WINDOW { all.drop_first() } else { all }
}

impl Dashboard {
    /// The counts are consistent: every frame is counted under one protocol,
    /// destinations are counted for at most every frame, the feed and the
    /// rate history stay within their sizes.
    pub open spec fn wf(&self) -> bool {
        &&& self.proto_counts.wf()
        &&& self.ip_stats.wf()
        &&& self.proto_counts.total() == self.total_packets
        &&& self.ip_stats.total() <= self.total_packets
        &&& self.packets@.len() <= MAX_ROWS
        &&& self.rates@.len() <= RATE_WINDOW
    }

    /// An empty dashboard for `interface`, with twenty seconds of zero rate.
    pub fn new(interface: &str) -> (d: Self)
        ensures
            d.wf(),
            d.packets@.len() == 0,
            d.total_packets == 0,
            d.total_bytes == 0,
            d.proto_counts@ == Map::<Seq<char>, nat>::empty(),
            d.ip_stats@ == Map::<Seq<char>, nat>::empty(),
            d.rates@ == Seq::new(RATE_WINDOW as nat, |i: int| 0usize),
            d.packets_this_sec == 0,
            d.interface@ == interface@,
    {
        let mut rates: Vec<usize> = Vec::new();
        let mut i: usize = 0;
        while i < RATE_WINDOW
            invariant
                i <= RATE_WINDOW,
                rates@ == Seq::new(i as nat, |j: int| 0usize),
            decreases RATE_WINDOW - i,
        {
            rates.push(0);
            i = i + 1;
            assert(rates@ =~= Seq::new(i as nat, |j: int| 0usize));
        }
        Dashboard {
            packets: Vec::new(),
            total_packets: 0,
            total_bytes: 0,
            proto_counts: Tally::new(),
            ip_stats: Tally::new(),
            rates,
            packets_this_sec: 0,
            interface: String::from_str(interface),
        }
    }

    /// Records one frame: totals, its protocol, its destination when
    /// `count_destination`, and the row at the head of the feed.
    pub fn record(&mut self, row: PacketRow, count_destination: bool)
        requires
            old(self).wf(),
            old(self).total_packets < usize::MAX,
            old(self).total_bytes + row.size <= usize::MAX,
            old(self).packets_this_sec < usize::MAX,
        ensures
            final(self).wf(),
            final(self).total_packets == old(self).total_packets + 1,
            final(self).total_bytes == old(self).total_bytes + row.size,
            final(self).packets_this_sec == old(self).packets_this_sec + 1,
            final(self).proto_counts@ == old(self).proto_counts@.insert(row.proto@, count_of(old(self).proto_counts@, row.proto@) + 1),
            final(self).ip_stats@ == if count_destination {
                old(self).ip_stats@.insert(row.dst@, count_of(old(self).ip_stats@, row.dst@) + 1)
            } else {
                old(self).ip_stats@
            },
            final(self).packets@ == feed_after(old(self).packets@, row),
            final(self).rates@ == old(self).rates@,
            final(self).interface@ == old(self).interface@,
    {
        self.total_packets = self.total_packets + 1;
        self.total_bytes = self.total_bytes + row.size;
        self.packets_this_sec = self.packets_this_sec + 1;
        self.proto_counts.bump(row.proto.as_str());
        if count_destination {
            self.ip_stats.bump(row.dst.as_str());
        }
        let ghost rows = self.packets@;
        let ghost r = row;
        self.packets.insert(0, row);
        self.packets.truncate(MAX_ROWS);
        assert(rows.insert(0, r) =~= seq![r] + rows);
    }

    /// Closes one second: its frame count joins the rate history, which keeps
    /// its last twenty entries, and the count starts over.
    pub fn tick(&mut self)
        requires
            old(self).wf(),
        ensures
            final(self).wf(),
            final(self).rates@ == rates_after(old(self).rates@, old(self).packets_this_sec),
            final(self).packets_this_sec == 0,
            final(self).packets@ == old(self).packets@,
            final(self).total_packets == old(self).total_packets,
            final(self).total_bytes == old(self).total_bytes,
            final(self).proto_counts@ == old(self).proto_counts@,
            final(self).ip_stats@ == old(self).ip_stats@,
            final(self).interface@ == old(self).interface@,
    {
        let pts = self.packets_this_sec;
        self.rates.push(pts);
        if self.rates.len() > RATE_WINDOW {
            self.rates.remove(0);
            assert(self.rates@ =~= old(self).rates@.push(pts).drop_first());
        }
        self.packets_this_sec = 0;
    }
}

/// `count` as a whole percentage of `of`, rounded down; 0 when `of` is 0.
pub open spec fn percent_of(count: nat, of: nat) -> nat {
    if of == 0 { 0 } else { (count * 100) / of }
}

/// The share of `count` in `of`, in whole percent rounded down (0 of nothing).
pub fn percent(count: usize, of: usize) -> (p: usize)
    requires
        count * 100 <= usize::MAX,
    ensures
        p == percent_of(count as nat, of as nat),
{
    if of == 0 { 0 } else { (count * 100) / of }
}

/// Elapsed seconds as hours, minutes and seconds, `HH:MM:SS`, each field at
/// least two digits wide.
pub open spec fn uptime_text(secs: nat) -> Seq<char> {
    zero_padded(dec_text(secs / 3600), 2) + seq![':'] + zero_padded(dec_text((secs % 3600) / 60), 2) + seq![':']
        + zero_padded(dec_text(secs % 60), 2)
}

proof fn lemma_dec_text_nonempty(n: nat)
    ensures
        dec_text(n).len() >= 1,
    decreases n,
{
    if n >= 10 {
        lemma_dec_text_nonempty(n / 10);
    }
}

/// Appends `n` in decimal, with a leading zero when it has one digit.
fn push_two_digits(s: &mut String, n: u64)
    ensures
        final(s)@ == old(s)@ + zero_padded(dec_text(n as nat), 2),
{
    let v = dec_chars(n);
    proof { lemma_dec_text_nonempty(n as nat); }
    if v.len() < 2 {
        push_char(s, '0');
        assert(Seq::new(1, |i: int| '0') =~= seq!['0']);
    }
    push_chars(s, &v);
    assert(s@ =~= old(s)@ + zero_padded(dec_text(n as nat), 2));
}

/// The time the dashboard has been up, as `HH:MM:SS`.
pub fn uptime(secs: u64) -> (s: String)
    ensures
        s@ == uptime_text(secs as nat),
{
    let mut s = String::new();
    push_two_digits(&mut s, secs / 3600);
    push_char(&mut s, ':');
    push_two_digits(&mut s, (secs % 3600) / 60);
    push_char(&mut s, ':');
    push_two_digits(&mut s, secs % 60);
    assert(s@ =~= uptime_text(secs as nat));
    s
}

/// Every frame recorded is counted under exactly one protocol: the protocol
/// counts add up to the frame total, and no count exceeds it.
pub proof fn lemma_protocol_counts_add_up(d: &Dashboard, label: Seq<char>)
    requires
        d.wf(),
    ensures
        d.proto_counts.total() == d.total_packets,
        count_of(d.proto_counts@, label) <= d.total_packets,
        count_of(d.ip_stats@, label) <= d.total_packets,
{
    d.proto_counts.lemma_count_le_total(label);
    d.ip_stats.lemma_count_le_total(label);
}

} // verus!
