//! The inspection engine: the immutable pairing of a loaded rule sequence
//! with a compiled multi-pattern search automaton. Given one decoded IPv4
//! view it returns at most one alert: the first pattern occurrence, in the
//! automaton's report order, whose owning rule passes all of its filters.

use crate::frame::{ipv4_dotted, tcp_dst_port, tcp_dst_port_of, FrameView, NextProto};
use crate::rules::{check_rule, rule_passes, Alert, IdsRule};
use crate::text::{
    build_preview, lossy_decode, lossy_decode_of, occurs, preview_of, PREVIEW_LEN,
};
use vstd::prelude::*;

verus! {

#[verifier::external_type_specification]
#[verifier::external_body]
pub struct ExAhoCorasick(aho_corasick::AhoCorasick);

/// The pattern strings an automaton was built from, in the order they were
/// handed to the builder; a match's pattern identifier indexes this sequence.
pub uninterp spec fn ac_pattern_seq(ac: aho_corasick::AhoCorasick) -> Seq<Seq<char>>;

/// The pattern identifiers of the non-overlapping matches that a search over
/// `hay` reports, in report order. A fixed automaton reports the same matches
/// for the same text on every search.
pub uninterp spec fn ac_match_ids(ac: aho_corasick::AhoCorasick, hay: Seq<char>) -> Seq<usize>;

/// Whether the automaton builder accepts a pattern list: building fails only
/// on resource limits, deterministically in the patterns alone.
pub uninterp spec fn ac_build_ok(patterns: Seq<Seq<char>>) -> bool;

/// What the automaton's searches guarantee, for every haystack: each reported
/// identifier names a pattern of the automaton and that pattern occurs in the
/// haystack, and if any pattern occurs at all then at least one match is
/// reported.
pub open spec fn ac_wf(ac: aho_corasick::AhoCorasick) -> bool {
    &&& forall|hay: Seq<char>, n: int|
        0 <= n < ac_match_ids(ac, hay).len() ==> (#[trigger] ac_match_ids(ac, hay)[n])
            < ac_pattern_seq(ac).len() && occurs(
            hay,
            ac_pattern_seq(ac)[ac_match_ids(ac, hay)[n] as int],
        )
    &&& forall|hay: Seq<char>, k: int|
        0 <= k < ac_pattern_seq(ac).len() && occurs(hay, #[trigger] ac_pattern_seq(ac)[k]) ==> (
        #[trigger] ac_match_ids(ac, hay)).len() > 0
}

/// Relies on `aho_corasick::AhoCorasick::new` with its default configuration
/// (standard match semantics): building can fail only on resource limits, and
/// a built automaton searches for exactly the given patterns, reporting
/// non-overlapping matches -- sound (a reported identifier's pattern occurs at
/// the reported position) and complete (some match is reported whenever some
/// pattern occurs).
#[verifier::external_body]
fn build_automaton(patterns: &Vec<String>) -> (r: Option<aho_corasick::AhoCorasick>)
    ensures
        r is Some <==> ac_build_ok(patterns.deep_view()),
        r is Some ==> ac_pattern_seq(r.unwrap()) == patterns.deep_view(),
        r is Some ==> ac_wf(r.unwrap()),
{
    aho_corasick::AhoCorasick::new(patterns).ok()
}

/// Relies on `AhoCorasick::find_iter` and `Match::pattern`: the identifiers
/// of the non-overlapping matches in report order. With the default
/// (unanchored, standard-semantics) configuration the search cannot fail.
#[verifier::external_body]
fn find_match_ids(ac: &aho_corasick::AhoCorasick, hay: &str) -> (r: Vec<usize>)
    ensures
        r@ == ac_match_ids(*ac, hay@),
{
    ac.find_iter(hay).map(|m| m.pattern().as_usize()).collect()
}

/// The patterns contributed by a rule sequence, in rule order: one entry per
/// rule that has a pattern.
pub open spec fn patterns_of(rules: Seq<IdsRule>) -> Seq<Seq<char>>
    decreases rules.len(),
{
    if rules.len() == 0 {
        Seq::empty()
    } else {
        let init = patterns_of(rules.drop_last());
        if rules.last().pattern is Some {
            init.push(rules.last().pattern.unwrap()@)
        } else {
            init
        }
    }
}

/// The owning rule index of each contributed pattern, aligned with
/// `patterns_of`: every compiled pattern has exactly one owning rule.
pub open spec fn owners_of(rules: Seq<IdsRule>) -> Seq<usize>
    decreases rules.len(),
{
    if rules.len() == 0 {
        Seq::empty()
    } else {
        let init = owners_of(rules.drop_last());
        if rules.last().pattern is Some {
            init.push((rules.len() - 1) as usize)
        } else {
            init
        }
    }
}

/// The pattern-to-rule bookkeeping is consistent: each pattern's owner is a
/// rule of the sequence, that rule has a pattern, and it is this pattern.
pub proof fn lemma_pattern_map(rules: Seq<IdsRule>)
    requires
        rules.len() <= usize::MAX,
    ensures
        owners_of(rules).len() == patterns_of(rules).len(),
        forall|j: int|
            0 <= j < patterns_of(rules).len() ==> (#[trigger] owners_of(rules)[j]) < rules.len()
                && rules[owners_of(rules)[j] as int].pattern is Some && rules[owners_of(
                rules,
            )[j] as int].pattern.unwrap()@ == patterns_of(rules)[j],
    decreases rules.len(),
{
    if rules.len() > 0 {
        lemma_pattern_map(rules.drop_last());
        assert forall|j: int| 0 <= j < patterns_of(rules).len() implies (#[trigger] owners_of(
            rules,
        )[j]) < rules.len() && rules[owners_of(rules)[j] as int].pattern is Some && rules[owners_of(
            rules,
        )[j] as int].pattern.unwrap()@ == patterns_of(rules)[j] by {
            let prev = rules.drop_last();
            if j < patterns_of(prev).len() {
                assert(owners_of(rules)[j] == owners_of(prev)[j]);
                assert(patterns_of(rules)[j] == patterns_of(prev)[j]);
                assert(prev[owners_of(prev)[j] as int] == rules[owners_of(prev)[j] as int]);
            } else {
                assert(rules.last().pattern is Some);
                assert(j == patterns_of(prev).len());
                assert(owners_of(rules)[j] == (rules.len() - 1) as usize);
                assert(patterns_of(rules)[j] == rules.last().pattern.unwrap()@);
                assert(rules.last() == rules[rules.len() - 1]);
            }
        }
    }
}

/// Every rule that has a pattern contributed it: some compiled pattern is
/// owned by that rule and equals its pattern.
pub proof fn lemma_rule_pattern_listed(rules: Seq<IdsRule>, k: int)
    requires
        rules.len() <= usize::MAX,
        0 <= k < rules.len(),
        rules[k].pattern is Some,
    ensures
        exists|j: int|
            0 <= j < patterns_of(rules).len() && (#[trigger] owners_of(rules)[j]) == k
                && patterns_of(rules)[j] == rules[k].pattern.unwrap()@,
    decreases rules.len(),
{
    lemma_pattern_map(rules);
    let prev = rules.drop_last();
    lemma_pattern_map(prev);
    if k == rules.len() - 1 {
        let j = patterns_of(prev).len() as int;
        assert(rules.last() == rules[k]);
        assert(owners_of(rules) == owners_of(prev).push((rules.len() - 1) as usize));
        assert(patterns_of(rules) == patterns_of(prev).push(rules.last().pattern.unwrap()@));
        assert(owners_of(rules)[j] == k && patterns_of(rules)[j] == rules[k].pattern.unwrap()@);
    } else {
        assert(prev[k] == rules[k]);
        lemma_rule_pattern_listed(prev, k);
        let j = choose|j: int|
            0 <= j < patterns_of(prev).len() && (#[trigger] owners_of(prev)[j]) == k
                && patterns_of(prev)[j] == prev[k].pattern.unwrap()@;
        assert(owners_of(rules)[j] == k && patterns_of(rules)[j] == rules[k].pattern.unwrap()@);
    }
}

/// The owning rule of the first reported occurrence whose rule passes all
/// filters, scanning the reported identifiers in order.
pub open spec fn first_match(
    rules: Seq<IdsRule>,
    owners: Seq<usize>,
    hits: Seq<usize>,
    proto: NextProto,
    dst: Option<u16>,
    src: Seq<char>,
) -> Option<int>
    decreases hits.len(),
{
    if hits.len() == 0 {
        None
    } else {
        let id = hits[0] as int;
        if 0 <= id < owners.len() && owners[id] < rules.len() && rule_passes(
            rules[owners[id] as int],
            proto,
            dst,
            src,
        ) {
            Some(owners[id] as int)
        } else {
            first_match(rules, owners, hits.drop_first(), proto, dst, src)
        }
    }
}

/// The inspection engine: the loaded rules, the automaton compiled from their
/// patterns, and the map from pattern identifier to owning rule index. Built
/// once, never mutated afterward.
pub struct IdsEngine {
    rules: Vec<IdsRule>,
    ac: aho_corasick::AhoCorasick,
    pattern_map: Vec<usize>,
}

impl IdsEngine {
    /// The rule sequence the engine was built from.
    pub closed spec fn spec_rules(&self) -> Seq<IdsRule> {
        self.rules@
    }

    /// The engine's automaton and bookkeeping agree with its rules.
    pub closed spec fn wf(&self) -> bool {
        &&& self.rules@.len() <= usize::MAX
        &&& ac_wf(self.ac)
        &&& ac_pattern_seq(self.ac) == patterns_of(self.rules@)
        &&& self.pattern_map@ == owners_of(self.rules@)
    }

    /// The pattern identifiers a search over `hay` reports, in report order.
    pub closed spec fn spec_hits(&self, hay: Seq<char>) -> Seq<usize> {
        ac_match_ids(self.ac, hay)
    }

    /// The index of the rule an inspection of `f` alerts on, if any.
    pub closed spec fn matched_rule(&self, f: FrameView) -> Option<int> {
        first_match(
            self.rules@,
            self.pattern_map@,
            ac_match_ids(self.ac, lossy_decode_of(f.payload@)),
            f.proto,
            tcp_dst_port_of(f.proto, f.payload@),
            ipv4_dotted(f.src),
        )
    }

    /// Builds an engine from a rule sequence: extracts the pattern of every
    /// rule that has one, remembers each pattern's owning rule, and compiles
    /// the automaton. Returns `None` only if the automaton's builder fails
    /// (it can refuse a pattern set on resource limits).
    pub fn new(rules: Vec<IdsRule>) -> (r: Option<IdsEngine>)
        ensures
            r is Some <==> ac_build_ok(patterns_of(rules@)),
            r is Some ==> r.unwrap().wf() && r.unwrap().spec_rules() == rules@,
    {
        let mut patterns: Vec<String> = Vec::new();
        let mut map: Vec<usize> = Vec::new();
        let mut i: usize = 0;
        while i < rules.len()
            invariant
                i <= rules@.len(),
                patterns.deep_view() == patterns_of(rules@.take(i as int)),
                map@ == owners_of(rules@.take(i as int)),
            decreases rules@.len() - i,
        {
            let ghost prefix = rules@.take(i as int);
            match &rules[i].pattern {
                Some(p) => {
                    patterns.push(p.clone());
                    map.push(i);
                },
                None => {},
            }
            proof {
                let next = rules@.take(i + 1);
                assert(next.drop_last() =~= prefix);
                assert(next.last() == rules@[i as int]);
                if rules@[i as int].pattern is Some {
                    assert(patterns.deep_view() =~= patterns_of(prefix).push(
                        rules@[i as int].pattern.unwrap()@,
                    ));
                    assert(map@ =~= owners_of(prefix).push(i));
                    assert((next.len() - 1) as usize == i);
                }
            }
            i = i + 1;
        }
        proof {
            assert(rules@.take(rules@.len() as int) =~= rules@);
        }
        match build_automaton(&patterns) {
            Some(ac) => Some(IdsEngine { rules, ac, pattern_map: map }),
            None => None,
        }
    }

    /// Every identifier reported for `hay` indexes the engine's compiled
    /// patterns, and the named pattern occurs in `hay`.
    pub proof fn lemma_hits_sound(&self, hay: Seq<char>)
        requires
            self.wf(),
        ensures
            forall|n: int|
                0 <= n < self.spec_hits(hay).len() ==> (#[trigger] self.spec_hits(hay)[n])
                    < patterns_of(self.spec_rules()).len() && occurs(
                    hay,
                    patterns_of(self.spec_rules())[self.spec_hits(hay)[n] as int],
                ),
    {
        assert(self.spec_hits(hay) == ac_match_ids(self.ac, hay));
    }

    /// If some compiled pattern occurs in `hay`, the search reports at least
    /// one match.
    pub proof fn lemma_some_pattern_hits(&self, hay: Seq<char>, j: int)
        requires
            self.wf(),
            0 <= j < patterns_of(self.spec_rules()).len(),
            occurs(hay, patterns_of(self.spec_rules())[j]),
        ensures
            self.spec_hits(hay).len() > 0,
    {
        assert(occurs(hay, ac_pattern_seq(self.ac)[j]));
        assert(ac_match_ids(self.ac, hay).len() > 0);
    }

    /// Inspects one decoded frame view: runs the payload through the
    /// single-pass multi-pattern search and returns the first occurrence, in
    /// report order, whose owning rule passes the protocol, port and
    /// source-address filters, as an alert; `None` if no occurrence survives.
    pub fn inspect(&self, frame: &FrameView) -> (r: Option<Alert>)
        requires
            self.wf(),
        ensures
            inspect_post(*self, *frame, r),
    {
        let src = frame.src.to_dotted();
        let dst = tcp_dst_port(frame);
        let hay = lossy_decode(frame.payload.as_slice());
        let hits = find_match_ids(&self.ac, hay.as_str());
        let ghost ghits = ac_match_ids(self.ac, lossy_decode_of(frame.payload@));
        proof {
            assert(hits@ == ghits);
            lemma_pattern_map(self.rules@);
            self.lemma_hits_sound(hay@);
            assert(ghits.skip(0) =~= ghits);
        }
        let mut n: usize = 0;
        while n < hits.len()
            invariant
                self.wf(),
                n <= hits@.len(),
                hits@ == ghits,
                ghits == ac_match_ids(self.ac, lossy_decode_of(frame.payload@)),
                src@ == ipv4_dotted(frame.src),
                dst == tcp_dst_port_of(frame.proto, frame.payload@),
                hay@ == lossy_decode_of(frame.payload@),
                first_match(
                    self.rules@,
                    self.pattern_map@,
                    ghits.skip(n as int),
                    frame.proto,
                    dst,
                    src@,
                ) == self.matched_rule(*frame),
            decreases hits@.len() - n,
        {
            proof {
                lemma_pattern_map(self.rules@);
                self.lemma_hits_sound(hay@);
                assert(ac_match_ids(self.ac, hay@)[n as int] < patterns_of(self.rules@).len());
            }
            let id = hits[n];
            let k = self.pattern_map[id];
            let rule = &self.rules[k];
            let ghost rest = ghits.skip(n as int);
            proof {
                assert(rest[0] == ghits[n as int]);
            }
            if check_rule(rule, frame.proto, dst, &src) {
                proof {
                    assert(first_match(
                        self.rules@,
                        self.pattern_map@,
                        rest,
                        frame.proto,
                        dst,
                        src@,
                    ) == Some(k as int));
                }
                let alert = Alert {
                    rule_name: rule.name.clone(),
                    source_ip: src,
                    payload_preview: build_preview(hay.as_str()),
                };
                return Some(alert);
            }
            proof {
                assert(rest.drop_first() =~= ghits.skip(n + 1));
            }
            n = n + 1;
        }
        proof {
            assert(ghits.skip(n as int).len() == 0);
        }
        None
    }
}

/// What one inspection returns: `None` exactly when no reported occurrence
/// survives filtering, and otherwise an alert carrying the matched rule's
/// name, the frame's source address in dotted form, and the bounded,
/// newline-normalized payload preview.
pub open spec fn inspect_post(e: IdsEngine, f: FrameView, r: Option<Alert>) -> bool {
    let m = e.matched_rule(f);
    match r {
        None => m is None,
        Some(a) => {
            &&& m is Some
            &&& 0 <= m.unwrap() < e.spec_rules().len()
            &&& a.rule_name@ == e.spec_rules()[m.unwrap()].name@
            &&& a.source_ip@ == ipv4_dotted(f.src)
            &&& a.payload_preview@ == preview_of(
                lossy_decode_of(f.payload@),
                PREVIEW_LEN as int,
            )
        },
    }
}

/// The filters a frame's decoded fields are held to.
pub open spec fn frame_passes(rule: IdsRule, f: FrameView) -> bool {
    rule_passes(rule, f.proto, tcp_dst_port_of(f.proto, f.payload@), ipv4_dotted(f.src))
}

/// Helper: whatever `first_match` selects is a rule whose pattern occurs in
/// the haystack and whose filters pass.
proof fn lemma_first_match_some(
    rules: Seq<IdsRule>,
    owners: Seq<usize>,
    hits: Seq<usize>,
    proto: NextProto,
    dst: Option<u16>,
    src: Seq<char>,
    hay: Seq<char>,
    patterns: Seq<Seq<char>>,
)
    requires
        owners.len() == patterns.len(),
        forall|j: int|
            0 <= j < owners.len() ==> (#[trigger] owners[j]) < rules.len() && rules[owners[j] as int].pattern is Some
                && rules[owners[j] as int].pattern.unwrap()@ == patterns[j],
        forall|n: int|
            0 <= n < hits.len() ==> (#[trigger] hits[n]) < patterns.len() && occurs(
                hay,
                patterns[hits[n] as int],
            ),
        first_match(rules, owners, hits, proto, dst, src) is Some,
    ensures
        ({
            let k = first_match(rules, owners, hits, proto, dst, src).unwrap();
            &&& 0 <= k < rules.len()
            &&& rules[k].pattern is Some
            &&& occurs(hay, rules[k].pattern.unwrap()@)
            &&& rule_passes(rules[k], proto, dst, src)
        }),
    decreases hits.len(),
{
    let id = hits[0] as int;
    if 0 <= id < owners.len() && owners[id] < rules.len() && rule_passes(
        rules[owners[id] as int],
        proto,
        dst,
        src,
    ) {
    } else {
        assert(hits.drop_first().len() == hits.len() - 1);
        assert(forall|n: int|
            0 <= n < hits.drop_first().len() ==> hits.drop_first()[n] == hits[n + 1]);
        lemma_first_match_some(rules, owners, hits.drop_first(), proto, dst, src, hay, patterns);
    }
}

/// Helper: if no reported occurrence's rule passes the filters, nothing is
/// selected.
proof fn lemma_first_match_none(
    rules: Seq<IdsRule>,
    owners: Seq<usize>,
    hits: Seq<usize>,
    proto: NextProto,
    dst: Option<u16>,
    src: Seq<char>,
)
    requires
        forall|n: int|
            0 <= n < hits.len() ==> (#[trigger] hits[n]) < owners.len(),
        forall|n: int|
            0 <= n < hits.len() ==> owners[#[trigger] hits[n] as int] < rules.len() && !rule_passes(
                rules[owners[hits[n] as int] as int],
                proto,
                dst,
                src,
            ),
    ensures
        first_match(rules, owners, hits, proto, dst, src) is None,
    decreases hits.len(),
{
    if hits.len() > 0 {
        assert(forall|n: int|
            0 <= n < hits.drop_first().len() ==> hits.drop_first()[n] == hits[n + 1]);
        lemma_first_match_none(rules, owners, hits.drop_first(), proto, dst, src);
    }
}

/// Law: a rule with no pattern never produces an alert -- every alert is
/// attributable to a rule that has a pattern, that pattern occurs in the
/// decoded payload, the rule's filters pass, and the alert carries that
/// rule's name.
pub proof fn lemma_alert_needs_pattern(e: IdsEngine, f: FrameView, r: Option<Alert>)
    requires
        e.wf(),
        inspect_post(e, f, r),
        r is Some,
    ensures
        exists|k: int|
            0 <= k < e.spec_rules().len() && (#[trigger] e.spec_rules()[k]).pattern is Some
                && occurs(lossy_decode_of(f.payload@), e.spec_rules()[k].pattern.unwrap()@)
                && frame_passes(e.spec_rules()[k], f) && r.unwrap().rule_name@
                == e.spec_rules()[k].name@,
{
    let rules = e.spec_rules();
    let hay = lossy_decode_of(f.payload@);
    let hits = e.spec_hits(hay);
    lemma_pattern_map(rules);
    e.lemma_hits_sound(hay);
    lemma_first_match_some(
        rules,
        owners_of(rules),
        hits,
        f.proto,
        tcp_dst_port_of(f.proto, f.payload@),
        ipv4_dotted(f.src),
        hay,
        patterns_of(rules),
    );
    let k = e.matched_rule(f).unwrap();
    assert(0 <= k < rules.len() && rules[k].pattern is Some && occurs(
        hay,
        rules[k].pattern.unwrap()@,
    ) && frame_passes(rules[k], f) && r.unwrap().rule_name@ == rules[k].name@);
}

/// Law: if rule `k`'s pattern occurs in the decoded payload, the frame passes
/// `k`'s filters, and no other rule's pattern occurs, then inspection raises
/// an alert that names rule `k` and carries the frame's source address and
/// the normalized payload preview.
pub proof fn lemma_unique_pattern_alerts(e: IdsEngine, f: FrameView, r: Option<Alert>, k: int)
    requires
        e.wf(),
        inspect_post(e, f, r),
        0 <= k < e.spec_rules().len(),
        e.spec_rules()[k].pattern is Some,
        occurs(lossy_decode_of(f.payload@), e.spec_rules()[k].pattern.unwrap()@),
        frame_passes(e.spec_rules()[k], f),
        forall|j: int|
            0 <= j < e.spec_rules().len() && j != k && (#[trigger] e.spec_rules()[j]).pattern is Some
                ==> !occurs(lossy_decode_of(f.payload@), e.spec_rules()[j].pattern.unwrap()@),
    ensures
        r is Some,
        r.unwrap().rule_name@ == e.spec_rules()[k].name@,
        r.unwrap().source_ip@ == ipv4_dotted(f.src),
        r.unwrap().payload_preview@ == preview_of(lossy_decode_of(f.payload@), PREVIEW_LEN as int),
{
    let rules = e.spec_rules();
    let hay = lossy_decode_of(f.payload@);
    let hits = e.spec_hits(hay);
    let owners = owners_of(rules);
    lemma_pattern_map(rules);
    e.lemma_hits_sound(hay);
    lemma_rule_pattern_listed(rules, k);
    let j = choose|j: int|
        0 <= j < patterns_of(rules).len() && (#[trigger] owners_of(rules)[j]) == k && patterns_of(
            rules,
        )[j] == rules[k].pattern.unwrap()@;
    e.lemma_some_pattern_hits(hay, j);
    let id = hits[0] as int;
    let owner = owners[id] as int;
    assert(rules[owner].pattern is Some && rules[owner].pattern.unwrap()@ == patterns_of(
        rules,
    )[id]);
    assert(occurs(hay, patterns_of(rules)[id]));
    assert(owner == k);
    assert(first_match(rules, owners, hits, f.proto, tcp_dst_port_of(f.proto, f.payload@),
        ipv4_dotted(f.src)) == Some(k));
    assert(r is Some);
}

/// Law: if rule `k` requires a destination port the frame does not carry, and
/// no other rule's pattern occurs in the decoded payload, inspection returns
/// nothing -- the port filter alone rejects the match.
pub proof fn lemma_port_filter_rejects(e: IdsEngine, f: FrameView, r: Option<Alert>, k: int)
    requires
        e.wf(),
        inspect_post(e, f, r),
        0 <= k < e.spec_rules().len(),
        e.spec_rules()[k].dst_port is Some,
        tcp_dst_port_of(f.proto, f.payload@) != Some(e.spec_rules()[k].dst_port.unwrap()),
        forall|j: int|
            0 <= j < e.spec_rules().len() && j != k && (#[trigger] e.spec_rules()[j]).pattern is Some
                ==> !occurs(lossy_decode_of(f.payload@), e.spec_rules()[j].pattern.unwrap()@),
    ensures
        r is None,
{
    let rules = e.spec_rules();
    let hay = lossy_decode_of(f.payload@);
    let hits = e.spec_hits(hay);
    let owners = owners_of(rules);
    lemma_pattern_map(rules);
    e.lemma_hits_sound(hay);
    assert forall|n: int| 0 <= n < hits.len() implies owners[#[trigger] hits[n] as int]
        < rules.len() && !rule_passes(
        rules[owners[hits[n] as int] as int],
        f.proto,
        tcp_dst_port_of(f.proto, f.payload@),
        ipv4_dotted(f.src),
    ) by {
        let id = hits[n] as int;
        let owner = owners[id] as int;
        assert(rules[owner].pattern is Some && rules[owner].pattern.unwrap()@ == patterns_of(
            rules,
        )[id]);
        assert(occurs(hay, patterns_of(rules)[id]));
        assert(owner == k);
    }
    lemma_first_match_none(
        rules,
        owners,
        hits,
        f.proto,
        tcp_dst_port_of(f.proto, f.payload@),
        ipv4_dotted(f.src),
    );
}

/// Law: with no compiled patterns at all (for example from an empty rule
/// file) inspection returns nothing for every frame.
pub proof fn lemma_no_patterns_no_alert(e: IdsEngine, f: FrameView, r: Option<Alert>)
    requires
        e.wf(),
        inspect_post(e, f, r),
        patterns_of(e.spec_rules()).len() == 0,
    ensures
        r is None,
{
    let hay = lossy_decode_of(f.payload@);
    let hits = e.spec_hits(hay);
    e.lemma_hits_sound(hay);
    assert(hits.len() == 0);
}

/// Law: inspection is a function of the engine and the frame view alone -- two
/// inspections of the same frame agree on whether they alert and on every
/// field of the alert.
pub proof fn lemma_inspect_deterministic(
    e: IdsEngine,
    f: FrameView,
    r1: Option<Alert>,
    r2: Option<Alert>,
)
    requires
        inspect_post(e, f, r1),
        inspect_post(e, f, r2),
    ensures
        r1 is Some <==> r2 is Some,
        r1 is Some ==> r1.unwrap().rule_name@ == r2.unwrap().rule_name@
            && r1.unwrap().source_ip@ == r2.unwrap().source_ip@
            && r1.unwrap().payload_preview@ == r2.unwrap().payload_preview@,
{
}

} // verus!
