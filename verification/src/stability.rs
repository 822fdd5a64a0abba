//! Sticky, evidence-based failover for the OpenAI group: it only chooses the exit
//! for new connections and fails closed to `REJECT` when nothing is healthy.
use vstd::prelude::*;
use std::collections::VecDeque;
use vstd::string::*;
use crate::sorted::{sorted_insert, strictly_sorted, views};
use crate::text::{chars_lt, eq_str, lemma_chars_lt_irrefl, lemma_chars_lt_trans, owned, str_less};

verus! {

/// Samples older than this many seconds are forgotten.
pub const WINDOW: u64 = 900;
/// A node that failed twice in a row is not used again for this many seconds.
pub const COOLDOWN: u64 = 300;
/// Most samples kept per node.
pub const MAX_SAMPLES: usize = 90;
/// Name of the fail-closed outbound.
pub const REJECT: &'static str = "REJECT";

/// One piece of health evidence about a node.
#[derive(Debug, Clone, Copy, PartialEq, Eq, Structural)]
pub enum Evidence {
    /// A reachability probe, successful or not.
    Probe(bool),
    /// A real model stream that completed.
    ModelComplete,
    /// A real model stream that broke off.
    ModelInterrupted,
}

pub open spec fn evidence_ok(e: Evidence) -> bool {
    match e {
        Evidence::Probe(ok) => ok,
        Evidence::ModelComplete => true,
        Evidence::ModelInterrupted => false,
    }
}

pub open spec fn evidence_is_model(e: Evidence) -> bool {
    !(e is Probe)
}

/// Health record of one node. A sample is `(time, ok, from a model stream)`.
#[derive(Debug, Clone)]
pub struct NodeHealth {
    pub samples: VecDeque<(u64, bool, bool)>,
    pub consecutive_failures: u32,
    pub recovery_passes: u32,
    pub cooldown_until: u64,
    pub last_probe: u64,
    pub model_completed: u64,
    pub model_interrupted: u64,
}

pub open spec fn sat_sub(a: u64, b: u64) -> u64 {
    if a >= b {
        (a - b) as u64
    } else {
        0
    }
}

/// Number of leading samples older than the window at `time`.
pub open spec fn leading_stale(s: Seq<(u64, bool, bool)>, time: u64) -> nat
    decreases s.len(),
{
    if s.len() > 0 && sat_sub(time, s[0].0) > WINDOW {
        1 + leading_stale(s.drop_first(), time)
    } else {
        0
    }
}

/// The samples kept after pruning at `time`: stale ones dropped from the front,
/// then only the newest `MAX_SAMPLES`.
pub open spec fn pruned(s: Seq<(u64, bool, bool)>, time: u64) -> Seq<(u64, bool, bool)> {
    let r = s.skip(leading_stale(s, time) as int);
    if r.len() > MAX_SAMPLES {
        r.skip(r.len() - MAX_SAMPLES)
    } else {
        r
    }
}

/// One of the last `n` samples is a failed model stream.
pub open spec fn recent_model_failure(s: Seq<(u64, bool, bool)>, n: int) -> bool {
    exists|i: int| 0 <= i < s.len() && s.len() - n <= i && #[trigger] s[i].2 && !s[i].1
}

/// Index of the newest sample that is not from a model stream, or -1.
pub open spec fn last_probe_sample(s: Seq<(u64, bool, bool)>) -> int
    decreases s.len(),
{
    if s.len() == 0 {
        -1
    } else if !s.last().2 {
        s.len() - 1
    } else {
        last_probe_sample(s.drop_last())
    }
}

/// Sum of sample weights (model streams weigh 3, probes 1), all or only successes.
pub open spec fn weight(s: Seq<(u64, bool, bool)>, only_ok: bool) -> nat
    decreases s.len(),
{
    if s.len() == 0 {
        0
    } else {
        weight(s.drop_last(), only_ok) + if only_ok && !s.last().1 {
            0nat
        } else if s.last().2 {
            3nat
        } else {
            1nat
        }
    }
}

/// How one piece of evidence at `time` changes a health record `o` into `n`.
pub open spec fn record_step(o: NodeHealth, n: NodeHealth, time: u64, event: Evidence) -> bool {
    &&& n.samples@ == pruned(o.samples@, time).push(
        (time, evidence_ok(event), evidence_is_model(event)),
    )
    &&& n.last_probe == (if event is Probe {
        time
    } else {
        o.last_probe
    })
    &&& n.model_completed == o.model_completed + (if event == Evidence::ModelComplete {
        1int
    } else {
        0int
    })
    &&& n.model_interrupted == o.model_interrupted + (if event == Evidence::ModelInterrupted {
        1int
    } else {
        0int
    })
    &&& evidence_ok(event) ==> {
        // Probe successes cannot erase a streak of real model-stream failures.
        &&& n.consecutive_failures == (if evidence_is_model(event) || !recent_model_failure(
            n.samples@,
            6,
        ) {
            0
        } else {
            o.consecutive_failures
        })
        &&& n.recovery_passes == (if time >= o.cooldown_until {
            o.recovery_passes + 1
        } else {
            o.recovery_passes as int
        })
        &&& n.cooldown_until == o.cooldown_until
    }
    &&& !evidence_ok(event) ==> {
        &&& n.consecutive_failures == o.consecutive_failures + 1
        &&& n.recovery_passes == 0
        &&& n.cooldown_until == (if o.consecutive_failures + 1 >= 2 {
            time + COOLDOWN
        } else {
            o.cooldown_until as int
        })
    }
}

/// A fresh record: no samples and all counters zero.
pub open spec fn is_fresh(h: NodeHealth) -> bool {
    &&& h.samples@.len() == 0
    &&& h.consecutive_failures == 0
    &&& h.recovery_passes == 0
    &&& h.cooldown_until == 0
    &&& h.last_probe == 0
    &&& h.model_completed == 0
    &&& h.model_interrupted == 0
}

impl NodeHealth {
    /// The counter that `event` at `time` increments has room to grow, and a
    /// cooldown it starts ends within a timestamp.
    pub open spec fn can_record(&self, time: u64, event: Evidence) -> bool {
        &&& event == Evidence::ModelComplete ==> self.model_completed < u64::MAX
        &&& event == Evidence::ModelInterrupted ==> self.model_interrupted < u64::MAX
        &&& evidence_ok(event) && time >= self.cooldown_until ==> self.recovery_passes < u32::MAX
        &&& !evidence_ok(event) ==> self.consecutive_failures < u32::MAX
        &&& !evidence_ok(event) && self.consecutive_failures + 1 >= 2 ==> time <= u64::MAX - COOLDOWN
    }

    /// Equal samples and counters.
    pub open spec fn same_as(&self, other: NodeHealth) -> bool {
        &&& self.samples@ == other.samples@
        &&& self.consecutive_failures == other.consecutive_failures
        &&& self.recovery_passes == other.recovery_passes
        &&& self.cooldown_until == other.cooldown_until
        &&& self.last_probe == other.last_probe
        &&& self.model_completed == other.model_completed
        &&& self.model_interrupted == other.model_interrupted
    }

    /// The record stays small enough for exact score arithmetic.
    pub open spec fn wf(&self) -> bool {
        self.samples.len() <= MAX_SAMPLES + 1
    }

    /// Success ratio numerator and denominator; an empty record scores 0/1.
    pub open spec fn spec_score(&self) -> (nat, nat) {
        let t = weight(self.samples@, false);
        if t == 0 {
            (0, 1)
        } else {
            (weight(self.samples@, true), t)
        }
    }

    /// The node may carry new connections at `time`: a recent successful probe,
    /// no active cooldown, and after any cooldown three recovery passes.
    pub open spec fn spec_usable(&self, time: u64) -> bool {
        let i = last_probe_sample(self.samples@);
        &&& self.last_probe > 0
        &&& sat_sub(time, self.last_probe) <= 150
        &&& self.cooldown_until <= time
        &&& (self.cooldown_until == 0 || self.recovery_passes >= 3)
        &&& i >= 0
        &&& self.samples@[i].1
    }
}

pub fn saturating_sub(a: u64, b: u64) -> (r: u64)
    ensures
        r == sat_sub(a, b),
{
    if a >= b {
        a - b
    } else {
        0
    }
}

impl Default for NodeHealth {
    fn default() -> (r: Self)
        ensures
            is_fresh(r),
    {
        NodeHealth {
            samples: VecDeque::new(),
            consecutive_failures: 0,
            recovery_passes: 0,
            cooldown_until: 0,
            last_probe: 0,
            model_completed: 0,
            model_interrupted: 0,
        }
    }
}

proof fn lemma_leading_stale(s: Seq<(u64, bool, bool)>, time: u64, k: int)
    requires
        0 <= k <= s.len(),
        forall|i: int| 0 <= i < k ==> sat_sub(time, #[trigger] s[i].0) > WINDOW,
        k == s.len() || sat_sub(time, s[k].0) <= WINDOW,
    ensures
        leading_stale(s, time) == k,
    decreases k,
{
    if k > 0 {
        lemma_leading_stale(s.drop_first(), time, k - 1);
    }
}

proof fn lemma_weight_bound(s: Seq<(u64, bool, bool)>, only_ok: bool)
    ensures
        weight(s, only_ok) <= 3 * s.len(),
        weight(s, true) <= weight(s, false),
        s.len() > 0 ==> weight(s, false) > 0,
    decreases s.len(),
{
    if s.len() > 0 {
        lemma_weight_bound(s.drop_last(), only_ok);
        lemma_weight_bound(s.drop_last(), true);
        lemma_weight_bound(s.drop_last(), false);
    }
}

impl NodeHealth {
    /// Forgets samples outside the window, keeping at most `MAX_SAMPLES`.
    pub fn prune(&mut self, time: u64)
        ensures
            final(self).samples@ == pruned(old(self).samples@, time),
            final(self).consecutive_failures == old(self).consecutive_failures,
            final(self).recovery_passes == old(self).recovery_passes,
            final(self).cooldown_until == old(self).cooldown_until,
            final(self).last_probe == old(self).last_probe,
            final(self).model_completed == old(self).model_completed,
            final(self).model_interrupted == old(self).model_interrupted,
            final(self).samples@.len() <= MAX_SAMPLES,
    {
        let ghost s0 = self.samples@;
        let ghost mut k: int = 0;
        while self.samples.len() > 0 && saturating_sub(time, self.samples[0].0) > WINDOW
            invariant
                0 <= k <= s0.len(),
                self.samples@ == s0.skip(k),
                forall|i: int| 0 <= i < k ==> sat_sub(time, #[trigger] s0[i].0) > WINDOW,
                self.consecutive_failures == old(self).consecutive_failures,
                self.recovery_passes == old(self).recovery_passes,
                self.cooldown_until == old(self).cooldown_until,
                self.last_probe == old(self).last_probe,
                self.model_completed == old(self).model_completed,
                self.model_interrupted == old(self).model_interrupted,
            decreases self.samples@.len(),
        {
            assert(s0[k] == self.samples@[0]);
            self.samples.pop_front();
            proof {
                assert(self.samples@ =~= s0.skip(k + 1));
                k = k + 1;
            }
        }
        proof {
            if k < s0.len() {
                assert(s0[k] == self.samples@[0]);
            }
            lemma_leading_stale(s0, time, k);
        }
        let ghost r = s0.skip(k);
        let ghost mut m: int = 0;
        while self.samples.len() > MAX_SAMPLES
            invariant
                0 <= m <= r.len(),
                self.samples@ == r.skip(m),
                r.len() > MAX_SAMPLES ==> m <= r.len() - MAX_SAMPLES,
                r.len() <= MAX_SAMPLES ==> m == 0,
                self.consecutive_failures == old(self).consecutive_failures,
                self.recovery_passes == old(self).recovery_passes,
                self.cooldown_until == old(self).cooldown_until,
                self.last_probe == old(self).last_probe,
                self.model_completed == old(self).model_completed,
                self.model_interrupted == old(self).model_interrupted,
            decreases self.samples@.len(),
        {
            self.samples.pop_front();
            proof {
                assert(self.samples@ =~= r.skip(m + 1));
                m = m + 1;
            }
        }
        proof {
            if r.len() <= MAX_SAMPLES {
                assert(r.skip(0) =~= r);
            }
        }
    }

    /// Adds one piece of evidence observed at `time`.
    pub fn record(&mut self, time: u64, event: Evidence)
        requires
            old(self).can_record(time, event),
        ensures
            record_step(*old(self), *final(self), time, event),
            final(self).wf(),
    {
        self.prune(time);
        let (ok, model) = match event {
            Evidence::Probe(ok) => {
                self.last_probe = time;
                (ok, false)
            },
            Evidence::ModelComplete => {
                self.model_completed = self.model_completed + 1;
                (true, true)
            },
            Evidence::ModelInterrupted => {
                self.model_interrupted = self.model_interrupted + 1;
                (false, true)
            },
        };
        self.samples.push_back((time, ok, model));
        if ok {
            // Probe successes cannot erase a streak of real model-stream failures.
            if model || !self.recent_model_failure_in_last(6) {
                self.consecutive_failures = 0;
            }
            if time >= self.cooldown_until {
                self.recovery_passes = self.recovery_passes + 1;
            }
        } else {
            self.consecutive_failures = self.consecutive_failures + 1;
            self.recovery_passes = 0;
            if self.consecutive_failures >= 2 {
                self.cooldown_until = time + COOLDOWN;
            }
        }
    }

    fn recent_model_failure_in_last(&self, n: usize) -> (r: bool)
        ensures
            r == recent_model_failure(self.samples@, n as int),
    {
        let len = self.samples.len();
        let start = if len > n {
            len - n
        } else {
            0
        };
        let mut i = start;
        while i < len
            invariant
                start <= i <= len,
                len == self.samples.len(),
                start == (if len > n {
                    len - n
                } else {
                    0
                }),
                forall|k: int| start <= k < i ==> !(#[trigger] self.samples@[k].2 && !self.samples@[k].1),
            decreases len - i,
        {
            if self.samples[i].2 && !self.samples[i].1 {
                return true;
            }
            i = i + 1;
        }
        false
    }

    /// Whether the node may be selected at `time`.
    pub fn usable(&self, time: u64) -> (r: bool)
        ensures
            r == self.spec_usable(time),
    {
        if !(self.last_probe > 0 && (if time >= self.last_probe {
            time - self.last_probe
        } else {
            0
        }) <= 150 && self.cooldown_until <= time && (self.cooldown_until == 0
            || self.recovery_passes >= 3)) {
            return false;
        }
        let mut i = self.samples.len();
        assert(self.samples@.take(i as int) =~= self.samples@);
        while i > 0 && self.samples[i - 1].2
            invariant
                i <= self.samples.len(),
                last_probe_sample(self.samples@) == last_probe_sample(self.samples@.take(i as int)),
            decreases i,
        {
            proof {
                let t = self.samples@.take(i as int);
                assert(t.drop_last() =~= self.samples@.take(i - 1));
            }
            i = i - 1;
        }
        proof {
            if i > 0 {
                let t = self.samples@.take(i as int);
                assert(last_probe_sample(t) == i - 1);
            } else {
                assert(self.samples@.take(0) =~= Seq::<(u64, bool, bool)>::empty());
            }
        }
        i > 0 && self.samples[i - 1].1
    }

    /// An equal copy.
    pub fn duplicate(&self) -> (r: NodeHealth)
        ensures
            r.same_as(*self),
    {
        let mut samples: VecDeque<(u64, bool, bool)> = VecDeque::new();
        let mut i: usize = 0;
        while i < self.samples.len()
            invariant
                i <= self.samples.len(),
                samples@ == self.samples@.take(i as int),
            decreases self.samples.len() - i,
        {
            samples.push_back(self.samples[i]);
            i = i + 1;
            assert(samples@ =~= self.samples@.take(i as int));
        }
        assert(samples@ =~= self.samples@);
        NodeHealth {
            samples,
            consecutive_failures: self.consecutive_failures,
            recovery_passes: self.recovery_passes,
            cooldown_until: self.cooldown_until,
            last_probe: self.last_probe,
            model_completed: self.model_completed,
            model_interrupted: self.model_interrupted,
        }
    }

    /// Success ratio as `(good, total)` weights, for exact comparison.
    pub fn score_parts(&self) -> (r: (u64, u64))
        requires
            self.wf(),
        ensures
            r.0 as nat == self.spec_score().0,
            r.1 as nat == self.spec_score().1,
    {
        let mut good: u64 = 0;
        let mut total: u64 = 0;
        let mut i: usize = 0;
        proof {
            lemma_weight_bound(self.samples@, true);
            lemma_weight_bound(self.samples@, false);
        }
        while i < self.samples.len()
            invariant
                i <= self.samples.len(),
                self.samples.len() <= MAX_SAMPLES + 1,
                good == weight(self.samples@.take(i as int), true),
                total == weight(self.samples@.take(i as int), false),
                total <= 3 * i,
                good <= 3 * i,
            decreases self.samples.len() - i,
        {
            let (_, ok, model) = self.samples[i];
            let w: u64 = if model {
                3
            } else {
                1
            };
            proof {
                let t = self.samples@.take(i + 1);
                assert(t.drop_last() =~= self.samples@.take(i as int));
            }
            if ok {
                good = good + w;
            }
            total = total + w;
            i = i + 1;
        }
        assert(self.samples@.take(i as int) =~= self.samples@);
        if total == 0 {
            (0, 1)
        } else {
            (good, total)
        }
    }
}


/// Health records by node name; a name occurs at most once.
#[derive(Debug, Clone)]
pub struct NodeTable {
    pub entries: Vec<(String, NodeHealth)>,
}

/// Index of the first entry at or after `from` named `name`, or -1.
pub open spec fn entry_index(entries: Seq<(String, NodeHealth)>, name: Seq<char>, from: int) -> int
    decreases entries.len() - from,
{
    if from < 0 || from >= entries.len() {
        -1
    } else if entries[from].0@ == name {
        from
    } else {
        entry_index(entries, name, from + 1)
    }
}

pub open spec fn lookup(entries: Seq<(String, NodeHealth)>, name: Seq<char>) -> Option<NodeHealth> {
    let i = entry_index(entries, name, 0);
    if i >= 0 {
        Some(entries[i].1)
    } else {
        None
    }
}

pub(crate) proof fn lemma_entry_index(entries: Seq<(String, NodeHealth)>, name: Seq<char>, from: int, r: int)
    requires
        0 <= from <= r <= entries.len(),
        forall|k: int| from <= k < r ==> (#[trigger] entries[k]).0@ != name,
        r == entries.len() || entries[r].0@ == name,
    ensures
        entry_index(entries, name, from) == (if r == entries.len() { -1 } else { r }),
    decreases r - from,
{
    if from < r {
        lemma_entry_index(entries, name, from + 1, r);
    }
}

pub(crate) proof fn lemma_entry_index_first(entries: Seq<(String, NodeHealth)>, name: Seq<char>, from: int, m: int)
    requires
        0 <= from <= m < entries.len(),
        entry_index(entries, name, from) < 0 || m < entry_index(entries, name, from),
    ensures
        entries[m].0@ != name,
    decreases m - from,
{
    if from < m {
        lemma_entry_index_first(entries, name, from + 1, m);
    }
}

pub(crate) proof fn lemma_entry_index_found(entries: Seq<(String, NodeHealth)>, name: Seq<char>, from: int)
    requires
        0 <= from,
        entry_index(entries, name, from) >= 0,
    ensures
        from <= entry_index(entries, name, from) < entries.len(),
        entries[entry_index(entries, name, from)].0@ == name,
    decreases entries.len() - from,
{
    if from < entries.len() && entries[from].0@ != name {
        lemma_entry_index_found(entries, name, from + 1);
    }
}

/// Changing or appending the entry at `changed`, under another name than `k`,
/// leaves the lookup of `k` as it was.
pub(crate) proof fn lemma_lookup_unchanged(
    before: Seq<(String, NodeHealth)>,
    after: Seq<(String, NodeHealth)>,
    k: Seq<char>,
    changed: int,
)
    requires
        before.len() <= after.len() <= before.len() + 1,
        0 <= changed < after.len(),
        changed <= before.len(),
        after.len() == before.len() + 1 ==> changed == before.len(),
        forall|m: int| 0 <= m < before.len() && m != changed ==> after[m] == before[m],
        after[changed].0@ != k,
        changed < before.len() ==> before[changed].0@ != k,
    ensures
        lookup(after, k) == lookup(before, k),
{
    let j = entry_index(before, k, 0);
    if j >= 0 {
        lemma_entry_index_found(before, k, 0);
        assert forall|m: int| 0 <= m < j implies (#[trigger] after[m]).0@ != k by {
            lemma_entry_index_first(before, k, 0, m);
            if m != changed {
                assert(after[m] == before[m]);
            }
        }
        assert(after[j] == before[j]);
        lemma_entry_index(after, k, 0, j);
    } else {
        assert forall|m: int| 0 <= m < after.len() implies (#[trigger] after[m]).0@ != k by {
            if m != changed {
                lemma_entry_index_first(before, k, 0, m);
                assert(after[m] == before[m]);
            }
        }
        lemma_entry_index(after, k, 0, after.len() as int);
    }
}

impl NodeTable {
    pub open spec fn wf(&self) -> bool {
        forall|i: int| 0 <= i < self.entries@.len() ==> (#[trigger] self.entries@[i]).1.wf()
    }

    pub open spec fn spec_get(&self, name: Seq<char>) -> Option<NodeHealth> {
        lookup(self.entries@, name)
    }

    pub fn new() -> (r: Self)
        ensures
            r.wf(),
            forall|k: Seq<char>| #[trigger] r.spec_get(k) is None,
    {
        NodeTable { entries: Vec::new() }
    }

    fn position(&self, name: &str) -> (r: Option<usize>)
        ensures
            match r {
                Some(i) => i < self.entries.len() && entry_index(self.entries@, name@, 0) == i,
                None => entry_index(self.entries@, name@, 0) == -1,
            },
    {
        let mut i: usize = 0;
        while i < self.entries.len()
            invariant
                i <= self.entries.len(),
                forall|k: int| 0 <= k < i ==> (#[trigger] self.entries@[k]).0@ != name@,
            decreases self.entries.len() - i,
        {
            if eq_str(self.entries[i].0.as_str(), name) {
                proof {
                    lemma_entry_index(self.entries@, name@, 0, i as int);
                }
                return Some(i);
            }
            i = i + 1;
        }
        proof {
            lemma_entry_index(self.entries@, name@, 0, i as int);
        }
        None
    }

    pub fn get(&self, name: &str) -> (r: Option<&NodeHealth>)
        ensures
            match self.spec_get(name@) {
                Some(h) => r is Some && *r->0 == h,
                None => r is None,
            },
    {
        match self.position(name) {
            Some(i) => Some(&self.entries[i].1),
            None => None,
        }
    }

    /// Stores the record of `name`, replacing any earlier one.
    pub fn insert(&mut self, name: String, health: NodeHealth)
        requires
            old(self).wf(),
            health.wf(),
        ensures
            final(self).wf(),
            final(self).spec_get(name@) == Some(health),
            forall|k: Seq<char>| k != name@ ==> #[trigger] final(self).spec_get(k) == old(self).spec_get(k),
    {
        match self.position(name.as_str()) {
            Some(i) => {
                let ghost before = self.entries@;
                self.entries.set(i, (name, health));
                proof {
                    let after = self.entries@;
                    lemma_entry_index_found(before, name@, 0);
                    assert forall|m: int| 0 <= m < i implies (#[trigger] after[m]).0@ != name@ by {
                        lemma_entry_index_first(before, name@, 0, m);
                    }
                    lemma_entry_index(after, name@, 0, i as int);
                    assert forall|k: Seq<char>| k != name@ implies #[trigger] lookup(after, k) == lookup(before, k) by {
                        lemma_lookup_unchanged(before, after, k, i as int);
                    }
                }
            },
            None => {
                let ghost before = self.entries@;
                self.entries.push((name, health));
                proof {
                    let after = self.entries@;
                    assert forall|m: int| 0 <= m < before.len() implies (#[trigger] after[m]).0@ != name@ by {
                        lemma_entry_index_first(before, name@, 0, m);
                    }
                    lemma_entry_index(after, name@, 0, before.len() as int);
                    assert forall|k: Seq<char>| k != name@ implies #[trigger] lookup(after, k) == lookup(before, k) by {
                        lemma_lookup_unchanged(before, after, k, before.len() as int);
                    }
                }
            },
        }
    }

    /// Adds evidence to the record of `name`, starting a fresh record if needed.
    pub fn record(&mut self, name: &str, time: u64, event: Evidence)
        requires
            old(self).wf(),
            old(self).spec_get(name@) matches Some(h) ==> h.can_record(time, event),
        ensures
            final(self).wf(),
            forall|k: Seq<char>| k != name@ ==> #[trigger] final(self).spec_get(k) == old(self).spec_get(k),
            final(self).spec_get(name@) matches Some(h) && match old(self).spec_get(name@) {
                Some(o) => record_step(o, h, time, event),
                None => exists|f: NodeHealth| is_fresh(f) && record_step(f, h, time, event),
            },
    {
        let mut health = match self.get(name) {
            Some(h) => h.duplicate(),
            None => NodeHealth::default(),
        };
        let ghost before = health;
        health.record(time, event);
        self.insert(owned(name), health);
    }
}

/// Names a node that may be used: recorded and usable at `time`.
pub open spec fn eligible(nodes: NodeTable, name: Seq<char>, time: u64) -> bool {
    nodes.spec_get(name) matches Some(h) && h.spec_usable(time)
}

/// `x` is a strictly better candidate than `y`: a higher success ratio, or an
/// equal ratio and an earlier name.
pub open spec fn beats(nodes: NodeTable, x: Seq<char>, y: Seq<char>) -> bool {
    let px = nodes.spec_get(x).unwrap().spec_score();
    let py = nodes.spec_get(y).unwrap().spec_score();
    px.0 * py.1 > py.0 * px.1 || (px.0 * py.1 == py.0 * px.1 && chars_lt(x, y))
}

/// The current node stays while it is allowed, not failing twice in a row and not
/// cooling down.
pub open spec fn sticky(nodes: NodeTable, current: Seq<char>, allowed: Seq<String>, time: u64) -> bool {
    &&& exists|i: int| 0 <= i < allowed.len() && (#[trigger] allowed[i])@ == current
    &&& nodes.spec_get(current) matches Some(h)
    &&& h.consecutive_failures < 2
    &&& h.cooldown_until <= time
}

/// The choice made: keep a sticky current node; otherwise the best eligible
/// allowed node; otherwise fail closed.
pub open spec fn chosen(nodes: NodeTable, current: Seq<char>, allowed: Seq<String>, time: u64, r: Seq<char>) -> bool {
    if sticky(nodes, current, allowed, time) {
        r == current
    } else if exists|i: int| 0 <= i < allowed.len() && eligible(nodes, (#[trigger] allowed[i])@, time) {
        &&& exists|i: int| 0 <= i < allowed.len() && (#[trigger] allowed[i])@ == r
        &&& eligible(nodes, r, time)
        &&& forall|i: int| 0 <= i < allowed.len() && eligible(nodes, (#[trigger] allowed[i])@, time)
            ==> !beats(nodes, allowed[i]@, r)
    } else {
        r == REJECT@
    }
}


proof fn lemma_frac_gt_gt(a1: nat, a2: nat, b1: nat, b2: nat, c1: nat, c2: nat)
    by (nonlinear_arith)
    requires
        a2 > 0,
        b2 > 0,
        c2 > 0,
        a1 * b2 > b1 * a2,
        b1 * c2 > c1 * b2,
    ensures
        a1 * c2 > c1 * a2,
{
    assert(a1 * b2 * c2 > b1 * a2 * c2);
    assert(b1 * c2 * a2 > c1 * b2 * a2);
}

proof fn lemma_frac_gt_eq(a1: nat, a2: nat, b1: nat, b2: nat, c1: nat, c2: nat)
    by (nonlinear_arith)
    requires
        a2 > 0,
        b2 > 0,
        c2 > 0,
        a1 * b2 > b1 * a2,
        b1 * c2 == c1 * b2,
    ensures
        a1 * c2 > c1 * a2,
{
    assert(a1 * b2 * c2 > b1 * a2 * c2);
    assert(b1 * c2 * a2 == c1 * b2 * a2);
}

proof fn lemma_frac_eq_gt(a1: nat, a2: nat, b1: nat, b2: nat, c1: nat, c2: nat)
    by (nonlinear_arith)
    requires
        a2 > 0,
        b2 > 0,
        c2 > 0,
        a1 * b2 == b1 * a2,
        b1 * c2 > c1 * b2,
    ensures
        a1 * c2 > c1 * a2,
{
    assert(a1 * b2 * c2 == b1 * a2 * c2);
    assert(b1 * c2 * a2 > c1 * b2 * a2);
}

proof fn lemma_frac_eq_eq(a1: nat, a2: nat, b1: nat, b2: nat, c1: nat, c2: nat)
    by (nonlinear_arith)
    requires
        a2 > 0,
        b2 > 0,
        c2 > 0,
        a1 * b2 == b1 * a2,
        b1 * c2 == c1 * b2,
    ensures
        a1 * c2 == c1 * a2,
{
    assert(a1 * b2 * c2 == b1 * a2 * c2);
    assert(b1 * c2 * a2 == c1 * b2 * a2);
}

/// Candidates are strictly ordered: no candidate beats itself, and beating is
/// transitive.
pub proof fn lemma_beats_order(nodes: NodeTable, x: Seq<char>, y: Seq<char>, z: Seq<char>)
    ensures
        !beats(nodes, x, x),
        beats(nodes, x, y) && beats(nodes, y, z) ==> beats(nodes, x, z),
{
    lemma_chars_lt_irrefl(x);
    let px = nodes.spec_get(x).unwrap().spec_score();
    let py = nodes.spec_get(y).unwrap().spec_score();
    let pz = nodes.spec_get(z).unwrap().spec_score();
    if beats(nodes, x, y) && beats(nodes, y, z) {
        if px.0 * py.1 > py.0 * px.1 {
            if py.0 * pz.1 > pz.0 * py.1 {
                lemma_frac_gt_gt(px.0, px.1, py.0, py.1, pz.0, pz.1);
            } else {
                lemma_frac_gt_eq(px.0, px.1, py.0, py.1, pz.0, pz.1);
            }
        } else {
            if py.0 * pz.1 > pz.0 * py.1 {
                lemma_frac_eq_gt(px.0, px.1, py.0, py.1, pz.0, pz.1);
            } else {
                lemma_frac_eq_eq(px.0, px.1, py.0, py.1, pz.0, pz.1);
                lemma_chars_lt_trans(x, y, z);
            }
        }
    }
}

proof fn lemma_score_bounds(h: NodeHealth)
    requires
        h.wf(),
    ensures
        h.spec_score().1 >= 1,
        h.spec_score().1 <= 3 * (MAX_SAMPLES + 1),
        h.spec_score().0 <= h.spec_score().1,
{
    lemma_weight_bound(h.samples@, true);
    lemma_weight_bound(h.samples@, false);
}

/// Picks the exit for new connections.
pub fn choose_exit(nodes: &NodeTable, current: &str, allowed: &[String], time: u64) -> (r: String)
    requires
        nodes.wf(),
    ensures
        chosen(*nodes, current@, allowed@, time, r@),
{
    let mut listed = false;
    let mut i: usize = 0;
    while i < allowed.len()
        invariant
            i <= allowed.len(),
            !listed ==> forall|k: int| 0 <= k < i ==> (#[trigger] allowed@[k])@ != current@,
            listed ==> exists|k: int| 0 <= k < allowed@.len() && (#[trigger] allowed@[k])@ == current@,
        decreases allowed.len() - i,
    {
        if eq_str(allowed[i].as_str(), current) {
            listed = true;
            assert(allowed@[i as int]@ == current@);
        }
        i = i + 1;
    }
    if listed {
        match nodes.get(current) {
            Some(h) => {
                if h.consecutive_failures < 2 && h.cooldown_until <= time {
                    return owned(current);
                }
            },
            None => {},
        }
    }
    assert(!sticky(*nodes, current@, allowed@, time));
    let mut best: Option<usize> = None;
    let mut bg: u64 = 0;
    let mut bt: u64 = 1;
    let mut i: usize = 0;
    while i < allowed.len()
        invariant
            i <= allowed.len(),
            nodes.wf(),
            !sticky(*nodes, current@, allowed@, time),
            bt >= 1,
            bt <= 3 * (MAX_SAMPLES + 1),
            bg <= bt,
            best is None ==> forall|k: int| 0 <= k < i ==> !eligible(*nodes, (#[trigger] allowed@[k])@, time),
            best matches Some(b) ==> {
                &&& b < i
                &&& eligible(*nodes, allowed@[b as int]@, time)
                &&& nodes.spec_get(allowed@[b as int]@).unwrap().spec_score() == (bg as nat, bt as nat)
                &&& forall|k: int| 0 <= k < i && eligible(*nodes, (#[trigger] allowed@[k])@, time)
                    ==> !beats(*nodes, allowed@[k]@, allowed@[b as int]@)
            },
        decreases allowed.len() - i,
    {
        let name = allowed[i].as_str();
        match nodes.get(name) {
            Some(h) => {
                if h.usable(time) {
                    proof {
                        let j = entry_index(nodes.entries@, name@, 0);
                        lemma_entry_index_found(nodes.entries@, name@, 0);
                        lemma_score_bounds(nodes.entries@[j].1);
                    }
                    let (g, t) = h.score_parts();
                    assert(g * bt <= 273 * 273) by (nonlinear_arith)
                        requires
                            g <= t,
                            t <= 273,
                            bt <= 273,
                    ;
                    assert(bg * t <= 273 * 273) by (nonlinear_arith)
                        requires
                            bg <= bt,
                            t <= 273,
                            bt <= 273,
                    ;
                    let better = match best {
                        None => true,
                        Some(b) => g * bt > bg * t || (g * bt == bg * t && str_less(
                            name,
                            allowed[b].as_str(),
                        )),
                    };
                    proof {
                        lemma_beats_order(*nodes, name@, name@, name@);
                        if let Some(b) = best {
                            let bn = allowed@[b as int]@;
                            assert(better == beats(*nodes, name@, bn));
                            if better {
                                assert forall|k: int|
                                    0 <= k < i && eligible(*nodes, (#[trigger] allowed@[k])@, time)
                                    implies !beats(*nodes, allowed@[k]@, name@) by {
                                    lemma_beats_order(*nodes, allowed@[k]@, name@, bn);
                                }
                            }
                        }
                    }
                    if better {
                        best = Some(i);
                        bg = g;
                        bt = t;
                    }
                }
            },
            None => {},
        }
        i = i + 1;
    }
    match best {
        Some(b) => allowed[b].clone(),
        None => owned(REJECT),
    }
}


/// `after` is `before` with the stale samples of every node forgotten: the same
/// names in the same order, and every counter as it was.
pub open spec fn pruned_table(before: NodeTable, after: NodeTable, time: u64) -> bool {
    &&& after.entries@.len() == before.entries@.len()
    &&& forall|i: int|
        #![trigger after.entries@[i]]
        0 <= i < before.entries@.len() ==> {
            let (n0, h0) = before.entries@[i];
            let (n1, h1) = after.entries@[i];
            &&& n1@ == n0@
            &&& h1.samples@ == pruned(h0.samples@, time)
            &&& h1.consecutive_failures == h0.consecutive_failures
            &&& h1.recovery_passes == h0.recovery_passes
            &&& h1.cooldown_until == h0.cooldown_until
            &&& h1.last_probe == h0.last_probe
            &&& h1.model_completed == h0.model_completed
            &&& h1.model_interrupted == h0.model_interrupted
        }
}

/// Counters of `h` can grow `n` more times and cooldowns started at `time` fit in
/// a timestamp.
pub open spec fn has_room(h: NodeHealth, n: nat, time: u64) -> bool {
    &&& h.consecutive_failures + n < u32::MAX
    &&& h.recovery_passes + n < u32::MAX
    &&& h.model_completed + n < u64::MAX
    &&& h.model_interrupted + n < u64::MAX
    &&& time <= u64::MAX - COOLDOWN
}

pub open spec fn table_has_room(t: NodeTable, n: nat, time: u64) -> bool {
    &&& time <= u64::MAX - COOLDOWN
    &&& n < u32::MAX
    &&& forall|k: Seq<char>| #[trigger] t.spec_get(k) matches Some(h) ==> has_room(h, n, time)
}

/// One more piece of evidence uses up at most one unit of room.
pub proof fn lemma_record_room(o: NodeHealth, n: NodeHealth, time: u64, event: Evidence, m: nat)
    requires
        record_step(o, n, time, event),
        has_room(o, m + 1, time),
    ensures
        has_room(n, m, time),
{
}

proof fn lemma_fresh_room(f: NodeHealth, m: nat, time: u64)
    requires
        is_fresh(f),
        m + 1 < u32::MAX,
        time <= u64::MAX - COOLDOWN,
    ensures
        has_room(f, m + 1, time),
{
}

impl NodeTable {
    /// Records evidence about `name` where the table has room for `m + 1` more.
    pub(crate) fn record_with_room(&mut self, name: &str, time: u64, event: Evidence, Ghost(m): Ghost<nat>)
        requires
            old(self).wf(),
            table_has_room(*old(self), m + 1, time),
        ensures
            final(self).wf(),
            table_has_room(*final(self), m, time),
            forall|k: Seq<char>| k != name@ ==> #[trigger] final(self).spec_get(k) == old(self).spec_get(k),
            final(self).spec_get(name@) matches Some(h) && match old(self).spec_get(name@) {
                Some(o) => record_step(o, h, time, event),
                None => exists|f: NodeHealth| is_fresh(f) && record_step(f, h, time, event),
            },
    {
        proof {
            if self.spec_get(name@) is Some {
                assert(has_room(self.spec_get(name@)->0, m + 1, time));
            }
        }
        self.record(name, time, event);
        proof {
            assert forall|k: Seq<char>| #[trigger] self.spec_get(k) is Some implies has_room(self.spec_get(k)->0, m, time) by {
                if k != name@ {
                    assert(has_room(old(self).spec_get(k)->0, m + 1, time));
                } else {
                    let h = self.spec_get(k)->0;
                    match old(self).spec_get(name@) {
                        Some(o) => {
                            assert(has_room(o, m + 1, time));
                            lemma_record_room(o, h, time, event, m);
                        },
                        None => {
                            let f = choose|f: NodeHealth| is_fresh(f) && record_step(f, h, time, event);
                            lemma_fresh_room(f, m, time);
                            lemma_record_room(f, h, time, event, m);
                        },
                    }
                }
            }
        }
    }

    /// Forgets stale samples of every node.
    pub fn prune_all(&mut self, time: u64)
        requires
            old(self).wf(),
        ensures
            final(self).wf(),
            pruned_table(*old(self), *final(self), time),
    {
        let ghost before = self.entries@;
        let mut i: usize = 0;
        while i < self.entries.len()
            invariant
                i <= self.entries.len(),
                self.entries@.len() == before.len(),
                forall|j: int| 0 <= j < self.entries@.len() ==> (#[trigger] self.entries@[j]).1.wf(),
                forall|j: int| i <= j < before.len() ==> #[trigger] self.entries@[j] == before[j],
                forall|j: int|
                    #![trigger self.entries@[j]]
                    0 <= j < i ==> {
                        let (n0, h0) = before[j];
                        let (n1, h1) = self.entries@[j];
                        &&& n1@ == n0@
                        &&& h1.samples@ == pruned(h0.samples@, time)
                        &&& h1.consecutive_failures == h0.consecutive_failures
                        &&& h1.recovery_passes == h0.recovery_passes
                        &&& h1.cooldown_until == h0.cooldown_until
                        &&& h1.last_probe == h0.last_probe
                        &&& h1.model_completed == h0.model_completed
                        &&& h1.model_interrupted == h0.model_interrupted
                    },
            decreases before.len() - i,
        {
            let mut h = self.entries[i].1.duplicate();
            h.prune(time);
            let name = owned(self.entries[i].0.as_str());
            self.entries.set(i, (name, h));
            i = i + 1;
        }
    }

    /// The names of the table, ascending and each once.
    pub fn sorted_names(&self) -> (r: Vec<String>)
        ensures
            strictly_sorted(views(r@)),
            forall|k: Seq<char>| views(r@).contains(k) <==> (#[trigger] self.spec_get(k)) is Some,
    {
        let mut names: Vec<String> = Vec::new();
        let mut i: usize = 0;
        proof {
            assert(views(names@).to_set() =~= Set::<Seq<char>>::empty());
        }
        while i < self.entries.len()
            invariant
                i <= self.entries.len(),
                strictly_sorted(views(names@)),
                views(names@).to_set() == Set::new(|k: Seq<char>| exists|j: int| 0 <= j < i && (#[trigger] self.entries@[j]).0@ == k),
            decreases self.entries.len() - i,
        {
            sorted_insert(&mut names, self.entries[i].0.as_str());
            i = i + 1;
            proof {
                assert(views(names@).to_set() =~= Set::new(|k: Seq<char>| exists|j: int| 0 <= j < i && (#[trigger] self.entries@[j]).0@ == k)) by {
                    assert forall|k: Seq<char>| (exists|j: int| 0 <= j < i && (#[trigger] self.entries@[j]).0@ == k) implies views(names@).to_set().contains(k) by {
                        let j = choose|j: int| 0 <= j < i && (#[trigger] self.entries@[j]).0@ == k;
                        if j < i - 1 {
                            assert(exists|jj: int| 0 <= jj < i - 1 && (#[trigger] self.entries@[jj]).0@ == k);
                        }
                    }
                }
            }
        }
        proof {
            assert forall|k: Seq<char>| views(names@).contains(k) <==> (#[trigger] self.spec_get(k)) is Some by {
                assert(views(names@).contains(k) <==> views(names@).to_set().contains(k));
                if views(names@).to_set().contains(k) {
                    let j = choose|j: int| 0 <= j < self.entries.len() && (#[trigger] self.entries@[j]).0@ == k;
                    if entry_index(self.entries@, k, 0) < 0 {
                        lemma_entry_index_first(self.entries@, k, 0, j);
                    }
                }
                if self.spec_get(k) is Some {
                    lemma_entry_index_found(self.entries@, k, 0);
                    let j = entry_index(self.entries@, k, 0);
                    assert(self.entries@[j].0@ == k);
                    assert(views(names@).to_set().contains(k));
                }
            }
        }
        names
    }
}

} // verus!
