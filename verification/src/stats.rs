//! Capture-file analysis: per-protocol packet counters, SYN counting, and a
//! per-source-address tally, folded over the frames of a stored capture.

use crate::capture::{capture_frames, parse_capture};
use crate::frame::{decode_frame, frame_ok, ipv4_dotted, ipv4_payload_of, proto_of, Ipv4Address,
    NextProto};
use vstd::prelude::*;

verus! {

/// A counter bumped by one, stopping at its maximum rather than wrapping.
pub open spec fn bump(x: u32) -> u32 {
    if x < u32::MAX {
        (x + 1) as u32
    } else {
        x
    }
}

fn bump_u32(x: u32) -> (r: u32)
    ensures
        r == bump(x),
{
    if x < u32::MAX {
        x + 1
    } else {
        x
    }
}

/// The per-source tally holds each address at most once.
pub open spec fn distinct_keys(m: Seq<(String, u32)>) -> bool {
    forall|i: int, j: int| 0 <= i < j < m.len() ==> (#[trigger] m[i]).0@ != (#[trigger] m[j]).0@
}

/// `key` is tallied in `m`.
pub open spec fn has_key(m: Seq<(String, u32)>, key: Seq<char>) -> bool {
    exists|i: int| 0 <= i < m.len() && (#[trigger] m[i]).0@ == key
}

/// The position `key` is tallied at.
pub open spec fn key_index(m: Seq<(String, u32)>, key: Seq<char>) -> int {
    choose|i: int| 0 <= i < m.len() && (#[trigger] m[i]).0@ == key
}

/// The tally after one more frame from `key`: an existing entry's count is
/// bumped in place, a new address is appended with count one, and everything
/// else is unchanged.
pub open spec fn tally_bumped(
    old_m: Seq<(String, u32)>,
    new_m: Seq<(String, u32)>,
    key: Seq<char>,
) -> bool {
    if has_key(old_m, key) {
        let i = key_index(old_m, key);
        &&& new_m.len() == old_m.len()
        &&& forall|j: int| 0 <= j < old_m.len() && j != i ==> new_m[j] == old_m[j]
        &&& new_m[i].0@ == old_m[i].0@
        &&& new_m[i].1 == bump(old_m[i].1)
    } else {
        &&& new_m.len() == old_m.len() + 1
        &&& forall|j: int| 0 <= j < old_m.len() ==> new_m[j] == old_m[j]
        &&& new_m.last().0@ == key
        &&& new_m.last().1 == 1u32
    }
}

/// Traffic statistics for one analyzed capture.
pub struct PacketStats {
    pub total: u32,
    pub tcp: u32,
    pub udp: u32,
    pub icmp: u32,
    pub syn_flags: u32,
    pub src_ips: Vec<(String, u32)>,
}

/// The frame carries a TCP header whose SYN flag is set and ACK flag clear:
/// a connection attempt.
pub open spec fn is_lone_syn(payload: Seq<u8>) -> bool {
    payload.len() >= 20 && payload[13] & 0x02u8 != 0 && payload[13] & 0x10u8 == 0
}

/// How one captured frame advances the statistics: the total always advances;
/// a decodable IPv4 frame also advances its protocol's counter, the SYN
/// counter when it is a lone SYN, and its source address's tally.
pub open spec fn stats_step(old_s: PacketStats, new_s: PacketStats, data: Seq<u8>) -> bool {
    &&& new_s.total == bump(old_s.total)
    &&& if !frame_ok(data) {
        &&& new_s.tcp == old_s.tcp
        &&& new_s.udp == old_s.udp
        &&& new_s.icmp == old_s.icmp
        &&& new_s.syn_flags == old_s.syn_flags
        &&& new_s.src_ips@ == old_s.src_ips@
    } else {
        let ip = data.skip(14);
        let proto = proto_of(ip[9]);
        let payload = ipv4_payload_of(ip);
        let key = ipv4_dotted(Ipv4Address { a: ip[12], b: ip[13], c: ip[14], d: ip[15] });
        &&& new_s.tcp == if proto == NextProto::Tcp {
            bump(old_s.tcp)
        } else {
            old_s.tcp
        }
        &&& new_s.udp == if proto == NextProto::Udp {
            bump(old_s.udp)
        } else {
            old_s.udp
        }
        &&& new_s.icmp == if proto == NextProto::Icmp {
            bump(old_s.icmp)
        } else {
            old_s.icmp
        }
        &&& new_s.syn_flags == if proto == NextProto::Tcp && is_lone_syn(payload) {
            bump(old_s.syn_flags)
        } else {
            old_s.syn_flags
        }
        &&& tally_bumped(old_s.src_ips@, new_s.src_ips@, key)
    }
}

impl PacketStats {
    /// The statistics are internally consistent: each source address is
    /// tallied at most once.
    pub open spec fn wf(&self) -> bool {
        distinct_keys(self.src_ips@)
    }

    /// Fresh statistics: every counter zero, no addresses tallied.
    pub fn new() -> (r: PacketStats)
        ensures
            r.total == 0u32 && r.tcp == 0u32 && r.udp == 0u32 && r.icmp == 0u32
                && r.syn_flags == 0u32,
            r.src_ips@.len() == 0,
            r.wf(),
    {
        PacketStats { total: 0, tcp: 0, udp: 0, icmp: 0, syn_flags: 0, src_ips: Vec::new() }
    }

    /// Advances the tally for one source address.
    fn bump_source(&mut self, key: String)
        requires
            old(self).wf(),
        ensures
            final(self).wf(),
            tally_bumped(old(self).src_ips@, final(self).src_ips@, key@),
            final(self).total == old(self).total,
            final(self).tcp == old(self).tcp,
            final(self).udp == old(self).udp,
            final(self).icmp == old(self).icmp,
            final(self).syn_flags == old(self).syn_flags,
    {
        let n = self.src_ips.len();
        let mut i: usize = 0;
        while i < n
            invariant
                n == self.src_ips@.len(),
                i <= n,
                *self == *old(self),
                distinct_keys(self.src_ips@),
                forall|j: int| 0 <= j < i ==> (#[trigger] self.src_ips@[j]).0@ != key@,
            decreases n - i,
        {
            if self.src_ips[i].0.eq(&key) {
                let name = self.src_ips[i].0.clone();
                let count = self.src_ips[i].1;
                let ghost prev = self.src_ips@;
                self.src_ips[i] = (name, bump_u32(count));
                proof {
                    assert(self.src_ips@ == prev.update(i as int, self.src_ips@[i as int]));
                    assert(has_key(prev, key@));
                    assert(key_index(prev, key@) == i as int) by {
                        let ki = key_index(prev, key@);
                        if ki < i as int {
                            assert(prev[ki].0@ != prev[i as int].0@);
                        } else if ki > i as int {
                            assert(prev[i as int].0@ != prev[ki].0@);
                        }
                    }
                    assert forall|a: int, b: int|
                        0 <= a < b < self.src_ips@.len() implies (#[trigger] self.src_ips@[a]).0@
                        != (#[trigger] self.src_ips@[b]).0@ by {
                        assert(prev[a].0@ != prev[b].0@);
                        assert(self.src_ips@[i as int].0@ == prev[i as int].0@);
                    }
                }
                return ;
            }
            i = i + 1;
        }
        let ghost prev = self.src_ips@;
        self.src_ips.push((key, 1));
        proof {
            assert(!has_key(prev, key@));
            assert forall|a: int, b: int|
                0 <= a < b < self.src_ips@.len() implies (#[trigger] self.src_ips@[a]).0@ != (
            #[trigger] self.src_ips@[b]).0@ by {
                if b < prev.len() {
                    assert(prev[a].0@ != prev[b].0@);
                } else {
                    assert(prev[a].0@ != key@);
                }
            }
        }
    }

    /// Folds one captured frame into the statistics: the total frame count
    /// always advances; a frame that decodes as Ethernet/IPv4 also advances
    /// the counter of its protocol, the SYN counter when it carries a lone
    /// SYN, and its source address's tally.
    pub fn record_frame(&mut self, data: &[u8])
        requires
            old(self).wf(),
        ensures
            final(self).wf(),
            stats_step(*old(self), *final(self), data@),
    {
        self.total = bump_u32(self.total);
        match decode_frame(data) {
            None => {},
            Some(f) => {
                match f.proto {
                    NextProto::Tcp => {
                        self.tcp = bump_u32(self.tcp);
                        if f.payload.len() >= 20 {
                            let flags = f.payload[13];
                            if flags & 0x02 != 0 && flags & 0x10 == 0 {
                                self.syn_flags = bump_u32(self.syn_flags);
                            }
                        }
                    },
                    NextProto::Udp => {
                        self.udp = bump_u32(self.udp);
                    },
                    NextProto::Icmp => {
                        self.icmp = bump_u32(self.icmp);
                    },
                    NextProto::Other => {},
                }
                let key = f.src.to_dotted();
                self.bump_source(key);
            },
        }
    }
}

/// The entry reads like some entry of `all`.
pub open spec fn entry_in(e: (String, u32), all: Seq<(String, u32)>) -> bool {
    exists|j: int| 0 <= j < all.len() && e.0@ == (#[trigger] all[j]).0@ && e.1 == all[j].1
}

/// Every entry of `sub` reads like some entry of `all`.
pub open spec fn entries_from(sub: Seq<(String, u32)>, all: Seq<(String, u32)>) -> bool {
    forall|i: int| 0 <= i < sub.len() ==> entry_in(#[trigger] sub[i], all)
}

impl PacketStats {
    /// The `k` busiest source addresses, busiest first: as many entries as
    /// the tally has, up to `k`, each drawn from the tally, in nonincreasing
    /// count order; every tally entry left unselected counts no more than any
    /// selected one.
    pub fn top_sources(&self, k: usize) -> (r: Vec<(String, u32)>)
        ensures
            r@.len() == if k <= self.src_ips@.len() {
                k as int
            } else {
                self.src_ips@.len() as int
            },
            forall|i: int, j: int| 0 <= i <= j < r@.len() ==> (#[trigger] r@[i]).1 >= (
            #[trigger] r@[j]).1,
            entries_from(r@, self.src_ips@),
            forall|j: int, i: int|
                0 <= j < self.src_ips@.len() && 0 <= i < r@.len() && !entry_in(
                    #[trigger] self.src_ips@[j],
                    r@,
                ) ==> self.src_ips@[j].1 <= (#[trigger] r@[i]).1,
    {
        let mut pool: Vec<(String, u32)> = Vec::new();
        let mut i: usize = 0;
        while i < self.src_ips.len()
            invariant
                i <= self.src_ips@.len(),
                pool@.len() == i,
                forall|j: int|
                    0 <= j < i ==> (#[trigger] pool@[j]).0@ == self.src_ips@[j].0@ && pool@[j].1
                        == self.src_ips@[j].1,
            decreases self.src_ips@.len() - i,
        {
            let name = self.src_ips[i].0.clone();
            let count = self.src_ips[i].1;
            pool.push((name, count));
            i = i + 1;
        }
        proof {
            assert forall|j: int| 0 <= j < pool@.len() implies entry_in(
                #[trigger] pool@[j],
                self.src_ips@,
            ) by {
                assert(0 <= j < self.src_ips@.len() && pool@[j].0@ == self.src_ips@[j].0@
                    && pool@[j].1 == self.src_ips@[j].1);
            }
        }
        proof {
            assert forall|j: int| 0 <= j < self.src_ips@.len() implies entry_in(
                #[trigger] self.src_ips@[j],
                pool@,
            ) by {
                assert(pool@[j].0@ == self.src_ips@[j].0@ && pool@[j].1 == self.src_ips@[j].1);
            }
        }
        let mut out: Vec<(String, u32)> = Vec::new();
        while out.len() < k && pool.len() > 0
            invariant
                entries_from(pool@, self.src_ips@),
                entries_from(out@, self.src_ips@),
                forall|j: int|
                    0 <= j < self.src_ips@.len() ==> entry_in(#[trigger] self.src_ips@[j], out@)
                        || entry_in(self.src_ips@[j], pool@),
                out@.len() + pool@.len() == self.src_ips@.len(),
                out@.len() <= k,
                forall|i2: int, j2: int| 0 <= i2 <= j2 < out@.len() ==> (#[trigger] out@[i2]).1
                    >= (#[trigger] out@[j2]).1,
                forall|i2: int, j2: int|
                    0 <= i2 < out@.len() && 0 <= j2 < pool@.len() ==> (#[trigger] out@[i2]).1 >= (
                    #[trigger] pool@[j2]).1,
            decreases pool@.len(),
        {
            let mut best: usize = 0;
            let mut m: usize = 1;
            while m < pool.len()
                invariant
                    best < m <= pool@.len(),
                    pool@.len() > 0,
                    forall|j2: int|
                        0 <= j2 < m ==> (#[trigger] pool@[j2]).1 <= pool@[best as int].1,
                decreases pool@.len() - m,
            {
                if pool[m].1 > pool[best].1 {
                    best = m;
                }
                m = m + 1;
            }
            let ghost pool0 = pool@;
            let ghost out0 = out@;
            let item = pool.swap_remove(best);
            proof {
                assert(item == pool0[best as int]);
                assert forall|j2: int| 0 <= j2 < pool@.len() implies pool@[j2] == pool0[j2]
                    || pool@[j2] == pool0[pool0.len() - 1] by {
                    if j2 == best as int {
                        assert(pool@[j2] == pool0.update(
                            best as int,
                            pool0.last(),
                        ).drop_last()[j2]);
                    }
                }
                assert forall|j2: int| 0 <= j2 < pool@.len() implies (#[trigger] pool@[j2]).1
                    <= item.1 by {
                    assert(pool@[j2] == pool0[j2] || pool@[j2] == pool0[pool0.len() - 1]);
                }
                assert forall|j2: int| 0 <= j2 < pool@.len() implies entry_in(
                    #[trigger] pool@[j2],
                    self.src_ips@,
                ) by {
                    assert(pool@[j2] == pool0[j2] || pool@[j2] == pool0[pool0.len() - 1]);
                    if pool@[j2] == pool0[j2] {
                        assert(entry_in(pool0[j2], self.src_ips@));
                    } else {
                        assert(entry_in(pool0[pool0.len() - 1], self.src_ips@));
                    }
                }
            }
            out.push(item);
            proof {
                assert forall|j2: int| 0 <= j2 < out@.len() implies entry_in(
                    #[trigger] out@[j2],
                    self.src_ips@,
                ) by {
                    if j2 < out0.len() {
                        assert(entry_in(out0[j2], self.src_ips@));
                    } else {
                        assert(out@[j2] == pool0[best as int]);
                        assert(entry_in(pool0[best as int], self.src_ips@));
                    }
                }
                assert forall|j2: int| 0 <= j2 < self.src_ips@.len() implies entry_in(
                    #[trigger] self.src_ips@[j2],
                    out@,
                ) || entry_in(self.src_ips@[j2], pool@) by {
                    let e = self.src_ips@[j2];
                    if entry_in(e, out0) {
                        let m = choose|m: int|
                            0 <= m < out0.len() && e.0@ == (#[trigger] out0[m]).0@ && e.1
                                == out0[m].1;
                        assert(out@[m].0@ == e.0@ && out@[m].1 == e.1);
                    } else {
                        let m = choose|m: int|
                            0 <= m < pool0.len() && e.0@ == (#[trigger] pool0[m]).0@ && e.1
                                == pool0[m].1;
                        if m == best as int {
                            assert(out@[out0.len() as int].0@ == e.0@ && out@[out0.len() as int].1
                                == e.1);
                        } else if m == pool0.len() - 1 {
                            assert(pool@[best as int] == pool0[pool0.len() - 1]);
                            assert(pool@[best as int].0@ == e.0@ && pool@[best as int].1 == e.1);
                        } else {
                            assert(pool@[m] == pool0[m]);
                            assert(pool@[m].0@ == e.0@ && pool@[m].1 == e.1);
                        }
                    }
                }
            }
        }
        out
    }
}

/// Fresh statistics: every counter zero, nothing tallied.
pub open spec fn stats_zero(s: PacketStats) -> bool {
    s.total == 0u32 && s.tcp == 0u32 && s.udp == 0u32 && s.icmp == 0u32 && s.syn_flags == 0u32
        && s.src_ips@.len() == 0
}

/// `fin` is what folding the frames one by one into `init` produces.
pub open spec fn stats_fold(frames: Seq<Seq<u8>>, init: PacketStats, fin: PacketStats) -> bool
    decreases frames.len(),
{
    if frames.len() == 0 {
        fin == init
    } else {
        exists|mid: PacketStats|
            #[trigger] stats_step(init, mid, frames[0]) && stats_fold(
                frames.drop_first(),
                mid,
                fin,
            )
    }
}

/// A fold extends by one more step at its end.
proof fn lemma_stats_fold_snoc(
    frames: Seq<Seq<u8>>,
    frame: Seq<u8>,
    init: PacketStats,
    mid: PacketStats,
    fin: PacketStats,
)
    requires
        stats_fold(frames, init, mid),
        stats_step(mid, fin, frame),
    ensures
        stats_fold(frames.push(frame), init, fin),
    decreases frames.len(),
{
    if frames.len() == 0 {
        assert(frames.push(frame).drop_first() =~= frames);
        assert(frames.push(frame)[0] == frame);
        assert(stats_step(init, fin, frame) && stats_fold(frames, fin, fin));
    } else {
        let m2 = choose|m2: PacketStats|
            #[trigger] stats_step(init, m2, frames[0]) && stats_fold(
                frames.drop_first(),
                m2,
                mid,
            );
        lemma_stats_fold_snoc(frames.drop_first(), frame, m2, mid, fin);
        assert(frames.push(frame).drop_first() =~= frames.drop_first().push(frame));
        assert(frames.push(frame)[0] == frames[0]);
        assert(stats_step(init, m2, frames.push(frame)[0]) && stats_fold(
            frames.push(frame).drop_first(),
            m2,
            fin,
        ));
    }
}

/// A SYN count this high is reported as a possible port scan or SYN flood.
pub fn high_syn_volume(syn_flags: u32) -> (r: bool)
    ensures
        r == (syn_flags > 100),
{
    syn_flags > 100
}

/// Analyzes a stored capture file: `None` when the data is no capture file,
/// and otherwise exactly the statistics of folding every frame of its
/// well-formed record prefix, in file order, into fresh statistics.
pub fn analyze_pcap(data: &[u8]) -> (r: Option<PacketStats>)
    ensures
        r is Some <==> capture_frames(data@) is Some,
        r is Some ==> r.unwrap().wf(),
        r is Some ==> exists|init: PacketStats|
            #[trigger] stats_zero(init) && stats_fold(
                capture_frames(data@).unwrap(),
                init,
                r.unwrap(),
            ),
{
    let frames = match parse_capture(data) {
        Some(fs) => fs,
        None => {
            return None;
        },
    };
    let mut stats = PacketStats::new();
    let ghost init = stats;
    proof {
        assert(frames.deep_view().subrange(0, 0) =~= Seq::<Seq<u8>>::empty());
    }
    let mut i: usize = 0;
    while i < frames.len()
        invariant
            i <= frames@.len(),
            frames.deep_view() == capture_frames(data@).unwrap(),
            frames.deep_view().len() == frames@.len(),
            stats.wf(),
            stats_zero(init),
            stats_fold(frames.deep_view().subrange(0, i as int), init, stats),
        decreases frames@.len() - i,
    {
        let ghost mid = stats;
        stats.record_frame(frames[i].as_slice());
        proof {
            assert(frames.deep_view()[i as int] == frames@[i as int]@);
            lemma_stats_fold_snoc(
                frames.deep_view().subrange(0, i as int),
                frames.deep_view()[i as int],
                init,
                mid,
                stats,
            );
            assert(frames.deep_view().subrange(0, i + 1) =~= frames.deep_view().subrange(
                0,
                i as int,
            ).push(frames.deep_view()[i as int]));
        }
        i = i + 1;
    }
    proof {
        assert(frames.deep_view().subrange(0, i as int) =~= frames.deep_view());
    }
    Some(stats)
}

} // verus!
