//! Connector scanner: diffs the kernel's current connector/CRTC pairing
//! against the previously observed pairing and emits connection events.
//!
//! Connectors without an assigned CRTC are ignored.  Feeding the same
//! kernel state twice yields no events the second time.

use vstd::prelude::*;

verus! {

/// One connector currently bound to a CRTC.
#[derive(Clone, Copy, Debug, PartialEq, Eq, Structural)]
pub struct ConnectorPair {
    pub connector: u32,
    pub crtc: u32,
}

/// Kernel-reported state of one connector at scan time.
#[derive(Clone, Copy, Debug, PartialEq, Eq, Structural)]
pub struct ConnectorProbe {
    pub connector: u32,
    pub connected: bool,
    pub crtc: Option<u32>,
}

/// A change of pairing relative to the previous scan.
#[derive(Clone, Copy, Debug, PartialEq, Eq, Structural)]
pub enum ScanEvent {
    Connected { connector: u32, crtc: u32 },
    Disconnected { connector: u32, crtc: u32 },
}

/// The connector/CRTC pairs a probe list contributes: connected connectors
/// with an assigned CRTC, in probe order.
pub open spec fn probe_pairs(s: Seq<ConnectorProbe>) -> Seq<ConnectorPair>
    decreases s.len(),
{
    if s.len() == 0 {
        Seq::empty()
    } else {
        probe_pairs(s.drop_last()) + if s.last().connected && s.last().crtc is Some {
            seq![ConnectorPair { connector: s.last().connector, crtc: s.last().crtc->0 }]
        } else {
            Seq::empty()
        }
    }
}

/// Disconnection events: one per old pair that no longer holds.
pub open spec fn disconnect_events(olds: Seq<ConnectorPair>, news: Seq<ConnectorPair>) -> Seq<
    ScanEvent,
>
    decreases olds.len(),
{
    if olds.len() == 0 {
        Seq::empty()
    } else {
        disconnect_events(olds.drop_last(), news) + if news.contains(olds.last()) {
            Seq::empty()
        } else {
            seq![ScanEvent::Disconnected { connector: olds.last().connector, crtc: olds.last().crtc }]
        }
    }
}

/// Connection events: one per new pair that did not hold before.
pub open spec fn connect_events(news: Seq<ConnectorPair>, olds: Seq<ConnectorPair>) -> Seq<
    ScanEvent,
>
    decreases news.len(),
{
    if news.len() == 0 {
        Seq::empty()
    } else {
        connect_events(news.drop_last(), olds) + if olds.contains(news.last()) {
            Seq::empty()
        } else {
            seq![ScanEvent::Connected { connector: news.last().connector, crtc: news.last().crtc }]
        }
    }
}

/// All events of one scan, disconnections first.
pub open spec fn scan_events(olds: Seq<ConnectorPair>, news: Seq<ConnectorPair>) -> Seq<ScanEvent> {
    disconnect_events(olds, news) + connect_events(news, olds)
}

/// No two pairs name the same connector.
pub open spec fn unique_connectors(s: Seq<ConnectorPair>) -> bool {
    forall|i: int, j: int|
        0 <= i < s.len() && 0 <= j < s.len() && i != j ==> s[i].connector != s[j].connector
}

/// No two pairs name the same CRTC.
pub open spec fn unique_crtcs(s: Seq<ConnectorPair>) -> bool {
    forall|i: int, j: int|
        0 <= i < s.len() && 0 <= j < s.len() && i != j ==> s[i].crtc != s[j].crtc
}

/// No two probes name the same connector.
pub open spec fn unique_probe_connectors(s: Seq<ConnectorProbe>) -> bool {
    forall|i: int, j: int|
        0 <= i < s.len() && 0 <= j < s.len() && i != j ==> s[i].connector != s[j].connector
}

/// No CRTC is assigned to two connected connectors: a CRTC drives one
/// connector at a time.
pub open spec fn unique_probe_crtcs(s: Seq<ConnectorProbe>) -> bool {
    forall|i: int, j: int|
        0 <= i < s.len() && 0 <= j < s.len() && i != j && s[i].connected && s[j].connected
            && s[i].crtc is Some && s[j].crtc is Some ==> s[i].crtc != s[j].crtc
}

/// Every pair derived from a probe list comes from some probe.
proof fn lemma_probe_pairs_source(s: Seq<ConnectorProbe>, p: ConnectorPair)
    requires
        probe_pairs(s).contains(p),
    ensures
        exists|j: int|
            0 <= j < s.len() && (#[trigger] s[j]).connector == p.connector && s[j].connected
                && s[j].crtc == Some(p.crtc),
    decreases s.len(),
{
    if s.len() > 0 {
        if probe_pairs(s.drop_last()).contains(p) {
            lemma_probe_pairs_source(s.drop_last(), p);
            let j = choose|j: int|
                0 <= j < s.drop_last().len() && (#[trigger] s.drop_last()[j]).connector
                    == p.connector && s.drop_last()[j].connected && s.drop_last()[j].crtc == Some(
                    p.crtc,
                );
            assert(s[j].connector == p.connector && s[j].connected && s[j].crtc == Some(p.crtc));
        } else {
            assert(s[s.len() - 1].connector == p.connector);
        }
    }
}

/// Distinct probes derive distinct pairs.
proof fn lemma_probe_pairs_unique(s: Seq<ConnectorProbe>)
    requires
        unique_probe_connectors(s),
        unique_probe_crtcs(s),
    ensures
        unique_connectors(probe_pairs(s)),
        unique_crtcs(probe_pairs(s)),
    decreases s.len(),
{
    if s.len() > 0 {
        lemma_probe_pairs_unique(s.drop_last());
        let prefix = probe_pairs(s.drop_last());
        let whole = probe_pairs(s);
        assert forall|i: int, j: int|
            0 <= i < whole.len() && 0 <= j < whole.len() && i != j implies whole[i].connector
            != whole[j].connector && whole[i].crtc != whole[j].crtc by {
            if i >= prefix.len() || j >= prefix.len() {
                let k = if i >= prefix.len() {
                    j
                } else {
                    i
                };
                if k < prefix.len() {
                    assert(prefix.contains(prefix[k]));
                    lemma_probe_pairs_source(s.drop_last(), prefix[k]);
                }
            }
        }
    }
}

/// Old pairs that all still hold produce no disconnection events.
proof fn lemma_no_stale(olds: Seq<ConnectorPair>, news: Seq<ConnectorPair>)
    requires
        forall|i: int| 0 <= i < olds.len() ==> news.contains(#[trigger] olds[i]),
    ensures
        disconnect_events(olds, news).len() == 0,
    decreases olds.len(),
{
    if olds.len() > 0 {
        assert(olds.contains(olds.last()));
        lemma_no_stale(olds.drop_last(), news);
    }
}

/// New pairs that all held before produce no connection events.
proof fn lemma_no_fresh(news: Seq<ConnectorPair>, olds: Seq<ConnectorPair>)
    requires
        forall|i: int| 0 <= i < news.len() ==> olds.contains(#[trigger] news[i]),
    ensures
        connect_events(news, olds).len() == 0,
    decreases news.len(),
{
    if news.len() > 0 {
        assert(news.contains(news.last()));
        lemma_no_fresh(news.drop_last(), olds);
    }
}

/// A scan whose derived pairing equals the pairing already on record emits
/// nothing: feeding an identical scan result twice produces zero additional
/// events the second time.
pub proof fn lemma_identical_scan_no_events(pairs: Seq<ConnectorPair>)
    ensures
        scan_events(pairs, pairs).len() == 0,
{
    assert forall|i: int| 0 <= i < pairs.len() implies pairs.contains(#[trigger] pairs[i]) by {}
    lemma_no_stale(pairs, pairs);
    lemma_no_fresh(pairs, pairs);
}

/// The previously observed connector/CRTC pairing of one device.
pub struct ConnectorScanner {
    pairs: Vec<ConnectorPair>,
}

impl ConnectorScanner {
    /// The pairing currently on record.
    pub closed spec fn pairs(&self) -> Seq<ConnectorPair> {
        self.pairs@
    }

    /// The record never lists a connector or a CRTC twice.
    pub closed spec fn wf(&self) -> bool {
        unique_connectors(self.pairs@) && unique_crtcs(self.pairs@)
    }

    /// What well-formedness means for the record.
    pub proof fn lemma_wf_unique(&self)
        requires
            self.wf(),
        ensures
            unique_connectors(self.pairs()),
            unique_crtcs(self.pairs()),
    {
    }

    pub fn new() -> (r: ConnectorScanner)
        ensures
            r.wf(),
            r.pairs() == Seq::<ConnectorPair>::empty(),
    {
        ConnectorScanner { pairs: Vec::new() }
    }

    /// A read-only copy of the pairs on record.
    pub fn current_pairs(&self) -> (r: Vec<ConnectorPair>)
        ensures
            r@ == self.pairs(),
    {
        let mut out: Vec<ConnectorPair> = Vec::new();
        let mut i: usize = 0;
        while i < self.pairs.len()
            invariant
                i <= self.pairs.len(),
                out@ == self.pairs@.subrange(0, i as int),
            decreases self.pairs.len() - i,
        {
            out.push(self.pairs[i]);
            assert(self.pairs@.subrange(0, i + 1 as int).drop_last() =~= self.pairs@.subrange(
                0,
                i as int,
            ));
            assert(out@ =~= self.pairs@.subrange(0, i + 1 as int));
            i = i + 1;
        }
        assert(out@ =~= self.pairs@);
        out
    }

    /// Diff a fresh kernel probe against the record: the record becomes the
    /// probe's pairing and the differences come back as events,
    /// disconnections first.
    pub fn scan(&mut self, probes: &Vec<ConnectorProbe>) -> (events: Vec<ScanEvent>)
        requires
            old(self).wf(),
            unique_probe_connectors(probes@),
            unique_probe_crtcs(probes@),
        ensures
            final(self).wf(),
            final(self).pairs() == probe_pairs(probes@),
            events@ == scan_events(old(self).pairs(), probe_pairs(probes@)),
    {
        let mut new_pairs: Vec<ConnectorPair> = Vec::new();
        let mut i: usize = 0;
        while i < probes.len()
            invariant
                i <= probes.len(),
                new_pairs@ == probe_pairs(probes@.subrange(0, i as int)),
            decreases probes.len() - i,
        {
            let p = probes[i];
            if p.connected {
                if let Some(crtc) = p.crtc {
                    new_pairs.push(ConnectorPair { connector: p.connector, crtc });
                }
            }
            assert(probes@.subrange(0, i + 1 as int).drop_last() =~= probes@.subrange(0, i as int));
            assert(probes@.subrange(0, i + 1 as int).last() == probes@[i as int]);
            assert(new_pairs@ =~= probe_pairs(probes@.subrange(0, i + 1 as int)));
            i = i + 1;
        }
        assert(probes@.subrange(0, probes.len() as int) =~= probes@);

        let mut events: Vec<ScanEvent> = Vec::new();
        let mut j: usize = 0;
        while j < self.pairs.len()
            invariant
                j <= self.pairs.len(),
                new_pairs@ == probe_pairs(probes@),
                events@ == disconnect_events(self.pairs@.subrange(0, j as int), new_pairs@),
                self.pairs@ == old(self).pairs(),
            decreases self.pairs.len() - j,
        {
            let p = self.pairs[j];
            if !contains_pair(&new_pairs, p) {
                events.push(ScanEvent::Disconnected { connector: p.connector, crtc: p.crtc });
            }
            assert(self.pairs@.subrange(0, j + 1 as int).drop_last() =~= self.pairs@.subrange(
                0,
                j as int,
            ));
            assert(self.pairs@.subrange(0, j + 1 as int).last() == self.pairs@[j as int]);
            assert(events@ =~= disconnect_events(
                self.pairs@.subrange(0, j + 1 as int),
                new_pairs@,
            ));
            j = j + 1;
        }
        assert(self.pairs@.subrange(0, self.pairs.len() as int) =~= self.pairs@);

        let mut k: usize = 0;
        while k < new_pairs.len()
            invariant
                k <= new_pairs.len(),
                new_pairs@ == probe_pairs(probes@),
                self.pairs@ == old(self).pairs(),
                events@ == disconnect_events(old(self).pairs(), new_pairs@) + connect_events(
                    new_pairs@.subrange(0, k as int),
                    old(self).pairs(),
                ),
            decreases new_pairs.len() - k,
        {
            let p = new_pairs[k];
            if !contains_pair(&self.pairs, p) {
                events.push(ScanEvent::Connected { connector: p.connector, crtc: p.crtc });
            }
            assert(new_pairs@.subrange(0, k + 1 as int).drop_last() =~= new_pairs@.subrange(
                0,
                k as int,
            ));
            assert(new_pairs@.subrange(0, k + 1 as int).last() == new_pairs@[k as int]);
            assert(events@ =~= disconnect_events(old(self).pairs(), new_pairs@) + connect_events(
                new_pairs@.subrange(0, k + 1 as int),
                old(self).pairs(),
            ));
            k = k + 1;
        }
        assert(new_pairs@.subrange(0, new_pairs.len() as int) =~= new_pairs@);

        proof {
            lemma_probe_pairs_unique(probes@);
        }
        self.pairs = new_pairs;
        events
    }
}

/// Whether a pair list holds the given pair.
pub fn contains_pair(v: &Vec<ConnectorPair>, p: ConnectorPair) -> (r: bool)
    ensures
        r == v@.contains(p),
{
    let mut i: usize = 0;
    while i < v.len()
        invariant
            i <= v.len(),
            forall|m: int| 0 <= m < i ==> v@[m] != p,
        decreases v.len() - i,
    {
        if v[i] == p {
            assert(v@.contains(p));
            return true;
        }
        i = i + 1;
    }
    assert(!v@.contains(p));
    false
}

} // verus!
