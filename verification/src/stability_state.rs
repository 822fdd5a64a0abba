//! The state behind the failover loop: which profile and exit it watches, which
//! observations still count, and what the interface is shown.
use vstd::prelude::*;
use vstd::string::*;
use crate::sorted::{strictly_sorted, views};
use crate::stability::{
    Evidence, NodeHealth, NodeTable, REJECT, chosen, choose_exit, is_fresh, record_step, sat_sub,
    pruned_table, saturating_sub, table_has_room,
};
use crate::data::{DataNode, get_field, index};
use crate::error::AppError;
use crate::text::{chars_of, eq_str, owned};
use crate::version::{is_digit, numeral_range, numeral_value};

verus! {

/// What the interface shows about one node. `score` is the success ratio as
/// `(good, total)` weights, present once the node has samples.
#[derive(Debug, Clone)]
pub struct NodeSnapshot {
    pub name: String,
    pub probe_ok: bool,
    pub score: Option<(u64, u64)>,
    pub samples: usize,
    pub cooldown_seconds: u64,
    pub recovery_passes: u32,
    pub model_completed: u64,
    pub model_interrupted: u64,
}

/// What the interface shows about the failover loop. Ids are UUID values.
#[derive(Debug, Clone)]
pub struct StabilitySnapshot {
    pub enabled: bool,
    pub running: bool,
    pub eligible: bool,
    pub profile_id: Option<u128>,
    pub revision_id: Option<u128>,
    pub current: Option<String>,
    pub last_switch: Option<u64>,
    pub message: String,
    pub nodes: Vec<NodeSnapshot>,
}

/// A model request being watched: it counts for `node` only if nothing changed
/// in between (same epoch).
#[derive(Debug, Clone)]
pub struct Observation {
    pub node: String,
    pub epoch: u64,
}

/// The failover state. `epoch` advances whenever earlier observations stop
/// counting.
#[derive(Debug)]
pub struct HealthState {
    pub profile: Option<u128>,
    pub revision: Option<u128>,
    pub current: Option<String>,
    pub epoch: u64,
    pub nodes: NodeTable,
    pub snapshot: StabilitySnapshot,
}

pub open spec fn next_epoch(e: u64) -> u64 {
    if e == u64::MAX {
        0
    } else {
        (e + 1) as u64
    }
}

fn advance(e: u64) -> (r: u64)
    ensures
        r == next_epoch(e),
{
    if e == u64::MAX {
        0
    } else {
        e + 1
    }
}

pub open spec fn text_is(s: Option<String>, t: Seq<char>) -> bool {
    s matches Some(x) && x@ == t
}

fn same_text(s: &Option<String>, t: &str) -> (r: bool)
    ensures
        r == text_is(*s, t@),
{
    match s {
        Some(x) => eq_str(x.as_str(), t),
        None => false,
    }
}

pub open spec fn waiting_message() -> Seq<char> {
    "请先生成 OpenAI 灾备并启用稳定策略"@
}

pub open spec fn applied_message() -> Seq<char> {
    "策略已应用，等待下一轮稳定性检查"@
}

pub open spec fn running_message() -> Seq<char> {
    "基础连通性与真实模型流分开统计；保持健康节点，不主动清空连接"@
}

pub open spec fn unavailable_message() -> Seq<char> {
    "稳定性检查暂不可用，保留当前节点；没有关闭连接"@
}

pub open spec fn switched_message() -> Seq<char> {
    "原节点持续失败，已为后续新连接切换出口；原有连接未被主动关闭"@
}

pub open spec fn is_initial(s: HealthState) -> bool {
    &&& s.profile is None
    &&& s.revision is None
    &&& s.current is None
    &&& s.epoch == 0
    &&& s.nodes.wf()
    &&& forall|k: Seq<char>| #[trigger] s.nodes.spec_get(k) is None
    &&& !s.snapshot.enabled && !s.snapshot.running && !s.snapshot.eligible
    &&& s.snapshot.profile_id is None && s.snapshot.revision_id is None
    &&& s.snapshot.current is None && s.snapshot.last_switch is None
    &&& s.snapshot.message@.len() == 0 && s.snapshot.nodes@.len() == 0
}

/// The snapshot of one node at `time`.
pub open spec fn node_view(n: NodeSnapshot, name: Seq<char>, h: NodeHealth, time: u64) -> bool {
    &&& n.name@ == name
    &&& n.probe_ok == h.spec_usable(time)
    &&& (if h.samples@.len() == 0 {
        n.score is None
    } else {
        n.score matches Some(p) && p.0 == h.spec_score().0 && p.1 == h.spec_score().1
    })
    &&& n.samples == h.samples@.len()
    &&& n.cooldown_seconds == sat_sub(h.cooldown_until, time)
    &&& n.recovery_passes == h.recovery_passes
    &&& n.model_completed == h.model_completed
    &&& n.model_interrupted == h.model_interrupted
}

/// An observation still counts in state `s`: same epoch, same exit, loop running.
pub open spec fn counts(s: HealthState, o: Observation) -> bool {
    s.epoch == o.epoch && text_is(s.current, o.node@) && s.snapshot.running
}

/// Anything that advances the epoch (a switch, a new exit, a changed policy or
/// profile) makes every observation taken before it stop counting.
pub proof fn observations_expire_when_the_epoch_advances(
    before: HealthState,
    after: HealthState,
    o: Observation,
)
    requires
        o.epoch == before.epoch,
        after.epoch == next_epoch(before.epoch),
    ensures
        !counts(after, o),
{
}

/// `n` is `o` at the start of a round for `active` and `revision`: another
/// profile or revision starts from no evidence, and the loop shows as waiting.
pub open spec fn round_begun(
    o: HealthState,
    n: HealthState,
    active: Option<u128>,
    revision: Option<u128>,
    eligible: bool,
    enabled: bool,
) -> bool {
    &&& n.profile == active
    &&& n.revision == revision
    &&& if o.profile != active || o.revision != revision {
        &&& forall|k: Seq<char>| #[trigger] n.nodes.spec_get(k) is None
        &&& n.current is None
        &&& n.epoch == next_epoch(o.epoch)
    } else {
        &&& n.nodes == o.nodes
        &&& n.current == o.current
        &&& n.epoch == o.epoch
    }
    &&& n.snapshot.profile_id == active
    &&& n.snapshot.revision_id == revision
    &&& n.snapshot.eligible == eligible
    &&& n.snapshot.enabled == enabled
    &&& !n.snapshot.running
    &&& n.snapshot.message@ == waiting_message()
    &&& n.snapshot.current == o.snapshot.current
    &&& n.snapshot.last_switch == o.snapshot.last_switch
}

/// `n` is `o` once checks run on the exit `current`; a new exit makes earlier
/// observations stop counting.
pub open spec fn checks_begun(o: HealthState, n: HealthState, current: Seq<char>) -> bool {
    &&& text_is(n.current, current)
    &&& n.epoch == (if text_is(o.current, current) {
        o.epoch
    } else {
        next_epoch(o.epoch)
    })
    &&& n.snapshot.running
    &&& n.snapshot.message@ == running_message()
    &&& n.nodes == o.nodes
    &&& n.profile == o.profile
    &&& n.revision == o.revision
}

/// `after` is `before` with one probe result of each check recorded: names that
/// no check mentions keep their records, and a name checked once has that
/// result recorded on its record (or on a fresh one).
pub open spec fn probes_recorded(before: NodeTable, after: NodeTable, checks: Seq<(String, bool)>, time: u64) -> bool {
    &&& forall|k: Seq<char>|
        (forall|i: int| 0 <= i < checks.len() ==> (#[trigger] checks[i]).0@ != k)
        ==> #[trigger] after.spec_get(k) == before.spec_get(k)
    &&& forall|i: int|
        #![trigger checks[i]]
        0 <= i < checks.len() && (forall|j: int| 0 <= j < checks.len() && j != i ==> (#[trigger] checks[j]).0@ != checks[i].0@)
        ==> (after.spec_get(checks[i].0@) matches Some(h) && match before.spec_get(checks[i].0@) {
            Some(o) => record_step(o, h, time, Evidence::Probe(checks[i].1)),
            None => exists|f: NodeHealth| is_fresh(f) && record_step(f, h, time, Evidence::Probe(checks[i].1)),
        })
}

/// What is known when the probes of a round come back.
#[derive(Debug, Clone, Copy, PartialEq, Eq, Structural)]
pub struct RoundFacts {
    /// The loop was asked to stop.
    pub stopped: bool,
    /// The core still runs.
    pub core_running: bool,
    /// The active profile is the one the round started with.
    pub same_profile: bool,
    /// Its revision is the one the round started with.
    pub same_revision: bool,
    /// Its stability policy is still on.
    pub stability_enabled: bool,
    /// The core still reports the group as a selector on the round's exit.
    pub same_exit: bool,
}

/// The probe results of a round still describe the state they were taken in.
pub open spec fn round_counts(f: RoundFacts) -> bool {
    !f.stopped && f.core_running && f.same_profile && f.same_revision && f.stability_enabled && f.same_exit
}

impl HealthState {
    pub fn new() -> (r: Self)
        ensures
            is_initial(r),
    {
        HealthState {
            profile: None,
            revision: None,
            current: None,
            epoch: 0,
            nodes: NodeTable::new(),
            snapshot: StabilitySnapshot {
                enabled: false,
                running: false,
                eligible: false,
                profile_id: None,
                revision_id: None,
                current: None,
                last_switch: None,
                message: String::new(),
                nodes: Vec::new(),
            },
        }
    }

    /// Earlier observations stop counting and the loop is shown as not running.
    pub fn invalidate_observations(&mut self)
        ensures
            final(self).epoch == next_epoch(old(self).epoch),
            !final(self).snapshot.running,
            final(self).current == old(self).current,
            final(self).nodes == old(self).nodes,
            final(self).profile == old(self).profile,
            final(self).revision == old(self).revision,
    {
        self.epoch = advance(self.epoch);
        self.snapshot.running = false;
    }

    /// A changed policy: observations stop counting until the next check.
    pub fn update_policy_status(
        &mut self,
        active: Option<u128>,
        revision: Option<u128>,
        eligible: bool,
        enabled: bool,
    )
        ensures
            final(self).epoch == next_epoch(old(self).epoch),
            !final(self).snapshot.running,
            final(self).snapshot.profile_id == active,
            final(self).snapshot.revision_id == revision,
            final(self).snapshot.eligible == eligible,
            final(self).snapshot.enabled == enabled,
            final(self).snapshot.message@ == applied_message(),
            final(self).snapshot.current == old(self).snapshot.current,
            final(self).snapshot.last_switch == old(self).snapshot.last_switch,
            final(self).current == old(self).current,
            final(self).nodes == old(self).nodes,
            final(self).profile == old(self).profile,
            final(self).revision == old(self).revision,
    {
        self.epoch = advance(self.epoch);
        self.snapshot.running = false;
        self.snapshot.profile_id = active;
        self.snapshot.revision_id = revision;
        self.snapshot.eligible = eligible;
        self.snapshot.enabled = enabled;
        self.snapshot.message = owned("策略已应用，等待下一轮稳定性检查");
    }

    /// Start of a check round for the active profile and revision. Another
    /// profile or revision starts from no evidence.
    pub fn begin_round(
        &mut self,
        active: Option<u128>,
        revision: Option<u128>,
        eligible: bool,
        enabled: bool,
    )
        requires
            old(self).nodes.wf(),
        ensures
            final(self).nodes.wf(),
            round_begun(*old(self), *final(self), active, revision, eligible, enabled),
    {
        if self.profile != active || self.revision != revision {
            self.nodes = NodeTable::new();
            self.current = None;
            self.epoch = advance(self.epoch);
            self.profile = active;
            self.revision = revision;
        }
        self.snapshot.profile_id = active;
        self.snapshot.revision_id = revision;
        self.snapshot.eligible = eligible;
        self.snapshot.enabled = enabled;
        self.snapshot.running = false;
        self.snapshot.message = owned("请先生成 OpenAI 灾备并启用稳定策略");
    }

    /// The core reports `current` as the group's exit; checks are running.
    pub fn begin_checks(&mut self, current: &str)
        ensures
            checks_begun(*old(self), *final(self), current@),
    {
        if !same_text(&self.current, current) {
            self.epoch = advance(self.epoch);
            self.current = Some(owned(current));
        }
        self.snapshot.running = true;
        self.snapshot.message = owned("基础连通性与真实模型流分开统计；保持健康节点，不主动清空连接");
    }

    /// A round that failed keeps the current exit and closes no connection.
    pub fn round_failed(&mut self)
        ensures
            !final(self).snapshot.running,
            final(self).snapshot.message@ == unavailable_message(),
            final(self).epoch == old(self).epoch,
            final(self).current == old(self).current,
            final(self).nodes == old(self).nodes,
    {
        self.snapshot.running = false;
        self.snapshot.message = owned("稳定性检查暂不可用，保留当前节点；没有关闭连接");
    }

    /// Records the probe results of a round and picks the exit for new connections.
    pub fn record_probes(&mut self, checks: &Vec<(String, bool)>, current: &str, allowed: &[String], time: u64) -> (r: String)
        requires
            old(self).nodes.wf(),
            table_has_room(old(self).nodes, checks@.len(), time),
        ensures
            final(self).nodes.wf(),
            forall|k: Seq<char>|
                (forall|i: int| 0 <= i < checks@.len() ==> (#[trigger] checks@[i]).0@ != k)
                ==> #[trigger] final(self).nodes.spec_get(k) == old(self).nodes.spec_get(k),
            forall|i: int|
                #![trigger checks@[i]]
                0 <= i < checks@.len() && (forall|j: int| 0 <= j < checks@.len() && j != i ==> (#[trigger] checks@[j]).0@ != checks@[i].0@)
                ==> (final(self).nodes.spec_get(checks@[i].0@) matches Some(h) && match old(self).nodes.spec_get(checks@[i].0@) {
                    Some(o) => record_step(o, h, time, Evidence::Probe(checks@[i].1)),
                    None => exists|f: NodeHealth| is_fresh(f) && record_step(f, h, time, Evidence::Probe(checks@[i].1)),
                }),
            probes_recorded(old(self).nodes, final(self).nodes, checks@, time),
            chosen(final(self).nodes, current@, allowed@, time, r@),
            final(self).epoch == old(self).epoch,
            final(self).current == old(self).current,
            final(self).profile == old(self).profile,
            final(self).revision == old(self).revision,
            final(self).snapshot == old(self).snapshot,
    {
        let ghost before = self.nodes;
        let mut i: usize = 0;
        while i < checks.len()
            invariant
                i <= checks.len(),
                self.nodes.wf(),
                table_has_room(self.nodes, (checks@.len() - i) as nat, time),
                self.epoch == old(self).epoch,
                self.current == old(self).current,
                self.profile == old(self).profile,
                self.revision == old(self).revision,
                self.snapshot == old(self).snapshot,
                forall|k: Seq<char>|
                    (forall|j: int| 0 <= j < i ==> (#[trigger] checks@[j]).0@ != k)
                    ==> #[trigger] self.nodes.spec_get(k) == before.spec_get(k),
                forall|j: int|
                    #![trigger checks@[j]]
                    0 <= j < i && (forall|m: int| 0 <= m < checks@.len() && m != j ==> (#[trigger] checks@[m]).0@ != checks@[j].0@)
                    ==> (self.nodes.spec_get(checks@[j].0@) matches Some(h) && match before.spec_get(checks@[j].0@) {
                        Some(o) => record_step(o, h, time, Evidence::Probe(checks@[j].1)),
                        None => exists|f: NodeHealth| is_fresh(f) && record_step(f, h, time, Evidence::Probe(checks@[j].1)),
                    }),
            decreases checks.len() - i,
        {
            let ghost mid = self.nodes;
            let (name, ok) = (&checks[i].0, checks[i].1);
            self.nodes.record_with_room(name.as_str(), time, Evidence::Probe(ok), Ghost((checks@.len() - i - 1) as nat));
            proof {
                assert forall|j: int|
                    #![trigger checks@[j]]
                    0 <= j < i + 1 && (forall|m: int| 0 <= m < checks@.len() && m != j ==> (#[trigger] checks@[m]).0@ != checks@[j].0@)
                    implies (self.nodes.spec_get(checks@[j].0@) matches Some(h) && match before.spec_get(checks@[j].0@) {
                        Some(o) => record_step(o, h, time, Evidence::Probe(checks@[j].1)),
                        None => exists|f: NodeHealth| is_fresh(f) && record_step(f, h, time, Evidence::Probe(checks@[j].1)),
                    }) by {
                    if j < i {
                        assert(checks@[i as int].0@ != checks@[j].0@);
                    } else {
                        assert forall|m: int| 0 <= m < i implies (#[trigger] checks@[m]).0@ != checks@[j].0@ by {
                            assert(m != j);
                        }
                        assert(mid.spec_get(checks@[j].0@) == before.spec_get(checks@[j].0@));
                    }
                }
            }
            i = i + 1;
        }
        choose_exit(&self.nodes, current, allowed, time)
    }

    /// The exit was switched at `time`; observations of the old exit stop counting.
    pub fn switched(&mut self, candidate: String, time: u64)
        ensures
            final(self).epoch == next_epoch(old(self).epoch),
            final(self).current == Some(candidate),
            final(self).snapshot.last_switch == Some(time),
            final(self).snapshot.message@ == switched_message(),
            final(self).snapshot.running == old(self).snapshot.running,
            final(self).nodes == old(self).nodes,
    {
        self.epoch = advance(self.epoch);
        self.current = Some(candidate);
        self.snapshot.last_switch = Some(time);
        self.snapshot.message = owned("原节点持续失败，已为后续新连接切换出口；原有连接未被主动关闭");
    }

    /// The end of a check round on the exit `current`. A round whose results no
    /// longer describe the state is dropped and earlier observations stop counting;
    /// otherwise its results are recorded and the exit for new connections is
    /// chosen. The result is the exit to switch to, `None` to keep `current`.
    pub fn conclude_round(
        &mut self,
        facts: RoundFacts,
        checks: &Vec<(String, bool)>,
        current: &str,
        allowed: &[String],
        time: u64,
    ) -> (r: Option<String>)
        requires
            old(self).nodes.wf(),
            table_has_room(old(self).nodes, checks@.len(), time),
        ensures
            final(self).nodes.wf(),
            final(self).current == old(self).current,
            final(self).profile == old(self).profile,
            final(self).revision == old(self).revision,
            !round_counts(facts) ==> {
                &&& r is None
                &&& final(self).epoch == next_epoch(old(self).epoch)
                &&& !final(self).snapshot.running
                &&& final(self).nodes == old(self).nodes
            },
            round_counts(facts) ==> {
                &&& probes_recorded(old(self).nodes, final(self).nodes, checks@, time)
                &&& final(self).epoch == old(self).epoch
                &&& final(self).snapshot == old(self).snapshot
                &&& exists|c: Seq<char>| #[trigger] chosen(final(self).nodes, current@, allowed@, time, c) && match r {
                    None => c == current@,
                    Some(x) => x@ == c && c != current@,
                }
            },
    {
        if !(!facts.stopped && facts.core_running && facts.same_profile && facts.same_revision
            && facts.stability_enabled && facts.same_exit) {
            self.invalidate_observations();
            return None;
        }
        let candidate = self.record_probes(checks, current, allowed, time);
        if eq_str(candidate.as_str(), current) {
            None
        } else {
            Some(candidate)
        }
    }

    /// Starts watching a model request: only while checks run and the exit is a
    /// real node.
    pub fn observe(&self) -> (r: Option<Observation>)
        ensures
            match r {
                Some(o) => self.snapshot.running && text_is(self.current, o.node@) && o.node@
                    != REJECT@ && o.epoch == self.epoch,
                None => !self.snapshot.running || self.current is None || text_is(
                    self.current,
                    REJECT@,
                ),
            },
    {
        if !self.snapshot.running {
            return None;
        }
        match &self.current {
            Some(node) => {
                if eq_str(node.as_str(), REJECT) {
                    None
                } else {
                    Some(Observation { node: owned(node.as_str()), epoch: self.epoch })
                }
            },
            None => None,
        }
    }

    /// Ends a watched request. Its evidence counts only if the exit, the epoch
    /// and the running loop are still those it started under.
    pub fn finish(&mut self, observation: &Observation, event: Evidence, time: u64)
        requires
            old(self).nodes.wf(),
            old(self).nodes.spec_get(observation.node@) matches Some(h) ==> h.can_record(time, event),
        ensures
            final(self).nodes.wf(),
            final(self).epoch == old(self).epoch,
            final(self).current == old(self).current,
            final(self).snapshot == old(self).snapshot,
            if counts(*old(self), *observation) {
                &&& forall|k: Seq<char>| k != observation.node@ ==> #[trigger] final(self).nodes.spec_get(k) == old(self).nodes.spec_get(k)
                &&& final(self).nodes.spec_get(observation.node@) matches Some(h) && match old(self).nodes.spec_get(observation.node@) {
                    Some(o) => record_step(o, h, time, event),
                    None => exists|f: NodeHealth| is_fresh(f) && record_step(f, h, time, event),
                }
            } else {
                final(self).nodes == old(self).nodes
            },
    {
        if self.epoch == observation.epoch && same_text(&self.current, observation.node.as_str())
            && self.snapshot.running {
            self.nodes.record(observation.node.as_str(), time, event);
        }
    }

    /// The interface view at `time`, after forgetting stale samples: the state's
    /// summary and every node in name order.
    pub fn snapshot_at(&mut self, time: u64) -> (r: StabilitySnapshot)
        requires
            old(self).nodes.wf(),
        ensures
            final(self).nodes.wf(),
            pruned_table(old(self).nodes, final(self).nodes, time),
            final(self).profile == old(self).profile,
            final(self).revision == old(self).revision,
            final(self).epoch == old(self).epoch,
            final(self).current == old(self).current,
            final(self).snapshot == old(self).snapshot,
            r.enabled == old(self).snapshot.enabled,
            r.running == old(self).snapshot.running,
            r.eligible == old(self).snapshot.eligible,
            r.profile_id == old(self).snapshot.profile_id,
            r.revision_id == old(self).snapshot.revision_id,
            r.last_switch == old(self).snapshot.last_switch,
            r.message@ == old(self).snapshot.message@,
            match old(self).current {
                Some(c) => r.current matches Some(x) && x@ == c@,
                None => r.current is None,
            },
            strictly_sorted(r.nodes@.map_values(|n: NodeSnapshot| n.name@)),
            forall|k: Seq<char>| r.nodes@.map_values(|n: NodeSnapshot| n.name@).contains(k) <==> (#[trigger] final(self).nodes.spec_get(k)) is Some,
            forall|i: int| 0 <= i < r.nodes@.len() ==> node_view(#[trigger] r.nodes@[i], r.nodes@[i].name@, final(self).nodes.spec_get(r.nodes@[i].name@)->0, time),
    {
        self.nodes.prune_all(time);
        let names = self.nodes.sorted_names();
        let mut nodes: Vec<NodeSnapshot> = Vec::new();
        let mut i: usize = 0;
        while i < names.len()
            invariant
                i <= names.len(),
                self.nodes.wf(),
                strictly_sorted(views(names@)),
                forall|k: Seq<char>| views(names@).contains(k) <==> (#[trigger] self.nodes.spec_get(k)) is Some,
                nodes@.len() == i,
                forall|j: int| 0 <= j < i ==> (#[trigger] nodes@[j]).name@ == names@[j]@,
                forall|j: int| 0 <= j < i ==> node_view(#[trigger] nodes@[j], nodes@[j].name@, self.nodes.spec_get(nodes@[j].name@)->0, time),
            decreases names.len() - i,
        {
            let name = names[i].as_str();
            assert(views(names@)[i as int] == names@[i as int]@);
            let h = match self.nodes.get(name) {
                Some(h) => h,
                None => {
                    assert(views(names@).contains(name@));
                    assert(false);
                    return StabilitySnapshot {
                        enabled: false,
                        running: false,
                        eligible: false,
                        profile_id: None,
                        revision_id: None,
                        current: None,
                        last_switch: None,
                        message: String::new(),
                        nodes: Vec::new(),
                    };
                },
            };
            proof {
                crate::stability::lemma_entry_index_found(self.nodes.entries@, name@, 0);
            }
            let score = if h.samples.len() == 0 {
                None
            } else {
                Some(h.score_parts())
            };
            nodes.push(NodeSnapshot {
                name: owned(name),
                probe_ok: h.usable(time),
                score,
                samples: h.samples.len(),
                cooldown_seconds: saturating_sub(h.cooldown_until, time),
                recovery_passes: h.recovery_passes,
                model_completed: h.model_completed,
                model_interrupted: h.model_interrupted,
            });
            i = i + 1;
        }
        proof {
            assert(nodes@.map_values(|n: NodeSnapshot| n.name@) =~= views(names@));
        }
        let current = match &self.current {
            Some(c) => Some(owned(c.as_str())),
            None => None,
        };
        StabilitySnapshot {
            enabled: self.snapshot.enabled,
            running: self.snapshot.running,
            eligible: self.snapshot.eligible,
            profile_id: self.snapshot.profile_id,
            revision_id: self.snapshot.revision_id,
            current,
            last_switch: self.snapshot.last_switch,
            message: owned(self.snapshot.message.as_str()),
            nodes,
        }
    }
}


/// The proxy group whose exit the loop manages.
pub const GROUP: &'static str = "🤖 OpenAI 自动灾备";

pub open spec fn all_digits(p: Seq<char>) -> bool {
    forall|i: int| 0 <= i < p.len() ==> is_digit(#[trigger] p[i])
}

/// `str::parse::<u64>`: an optional `+`, then one or more ASCII digits whose
/// value fits in `u64`.
pub open spec fn parsed_u64(s: Seq<char>) -> Option<u64> {
    let d = if s.len() > 0 && s[0] == '+' {
        s.drop_first()
    } else {
        s
    };
    if d.len() > 0 && all_digits(d) && numeral_value(d) <= u64::MAX {
        Some(numeral_value(d) as u64)
    } else {
        None
    }
}

pub fn parse_u64(s: &str) -> (r: Option<u64>)
    ensures
        r == parsed_u64(s@),
{
    let cs = chars_of(s);
    let start: usize = if cs.len() > 0 && cs[0] == '+' {
        1
    } else {
        0
    };
    let ghost d = cs@.subrange(start as int, cs.len() as int);
    proof {
        if s@.len() > 0 && s@[0] == '+' {
            assert(s@.drop_first() =~= d);
        } else {
            assert(s@ =~= d);
        }
    }
    if start >= cs.len() {
        return None;
    }
    let mut i = start;
    while i < cs.len()
        invariant
            start <= i <= cs.len(),
            d == cs@.subrange(start as int, cs.len() as int),
            parsed_u64(s@) == (if d.len() > 0 && all_digits(d) && numeral_value(d) <= u64::MAX {
                Some(numeral_value(d) as u64)
            } else {
                None
            }),
            forall|k: int| start <= k < i ==> is_digit(#[trigger] cs@[k]),
        decreases cs.len() - i,
    {
        if !('0' <= cs[i] && cs[i] <= '9') {
            assert(!is_digit(d[i - start]));
            assert(!all_digits(d));
            return None;
        }
        i = i + 1;
    }
    assert(all_digits(d)) by {
        assert forall|k: int| 0 <= k < d.len() implies is_digit(#[trigger] d[k]) by {
            assert(d[k] == cs@[start + k]);
        }
    }
    numeral_range(&cs, start, cs.len())
}

/// The source port a connection reports, as a number or as decimal text.
pub open spec fn source_port(meta: DataNode) -> Option<u64> {
    match index(meta, "sourcePort"@) {
        DataNode::UInt(n) => Some(n),
        DataNode::Text(t) => parsed_u64(t@),
        _ => None,
    }
}

pub open spec fn lists(items: Seq<DataNode>, name: Seq<char>) -> bool {
    exists|i: int| 0 <= i < items.len() && (#[trigger] items[i] matches DataNode::Text(t) && t@ == name)
}

/// A core connection is the watched request, up to its source address: same
/// source port and host, routed through the managed group and the observed node.
pub open spec fn connection_matches(conn: DataNode, port: u16, host: Seq<char>, node: Seq<char>) -> bool {
    let meta = index(conn, "metadata"@);
    &&& source_port(meta) == Some(port as u64)
    &&& (index(meta, "host"@) matches DataNode::Text(h) && h@ == host)
    &&& (index(conn, "chains"@) matches DataNode::Sequence(items) && lists(items@, GROUP@) && lists(
        items@,
        node,
    ))
}

pub open spec fn connection_list(data: DataNode) -> Seq<DataNode> {
    match index(data, "connections"@) {
        DataNode::Sequence(items) => items@,
        _ => Seq::empty(),
    }
}

/// Indices of the first `n` connections that match, in order.
pub open spec fn matching_up_to(list: Seq<DataNode>, port: u16, host: Seq<char>, node: Seq<char>, n: int) -> Seq<usize>
    decreases n,
{
    if n <= 0 {
        Seq::empty()
    } else {
        matching_up_to(list, port, host, node, n - 1) + if connection_matches(list[n - 1], port, host, node) {
            seq![(n - 1) as usize]
        } else {
            Seq::empty()
        }
    }
}

fn names(items: &Vec<DataNode>, name: &str) -> (r: bool)
    ensures
        r == lists(items@, name@),
{
    let mut i: usize = 0;
    while i < items.len()
        invariant
            i <= items.len(),
            forall|k: int| 0 <= k < i ==> !(#[trigger] items@[k] matches DataNode::Text(t) && t@ == name@),
        decreases items.len() - i,
    {
        match &items[i] {
            DataNode::Text(t) => {
                if eq_str(t.as_str(), name) {
                    return true;
                }
            },
            _ => {},
        }
        i = i + 1;
    }
    false
}

fn port_matches(meta: Option<&DataNode>, port: u16) -> (r: bool)
    ensures
        r == (source_port(match meta {
            Some(m) => *m,
            None => DataNode::Other,
        }) == Some(port as u64)),
{
    let found = match meta {
        Some(m) => match get_field(m, "sourcePort") {
            Some(DataNode::UInt(n)) => Some(*n),
            Some(DataNode::Text(t)) => parse_u64(t.as_str()),
            _ => None,
        },
        None => None,
    };
    match found {
        Some(n) => n == port as u64,
        None => false,
    }
}

fn host_matches(meta: Option<&DataNode>, host: &str) -> (r: bool)
    ensures
        r == (index(match meta {
            Some(m) => *m,
            None => DataNode::Other,
        }, "host"@) matches DataNode::Text(h) && h@ == host@),
{
    match meta {
        Some(m) => match get_field(m, "host") {
            Some(DataNode::Text(h)) => eq_str(h.as_str(), host),
            _ => false,
        },
        None => false,
    }
}

fn matches_one(conn: &DataNode, port: u16, host: &str, node: &str) -> (r: bool)
    ensures
        r == connection_matches(*conn, port, host@, node@),
{
    let meta = get_field(conn, "metadata");
    if !port_matches(meta, port) || !host_matches(meta, host) {
        return false;
    }
    match get_field(conn, "chains") {
        Some(DataNode::Sequence(items)) => names(items, GROUP) && names(items, node),
        _ => false,
    }
}



/// The matching indices are exactly the matching connections among the first `n`.
proof fn lemma_matching_up_to(list: Seq<DataNode>, port: u16, host: Seq<char>, node: Seq<char>, n: int)
    requires
        0 <= n <= list.len(),
        n <= usize::MAX,
    ensures
        forall|j: int| 0 <= j < matching_up_to(list, port, host, node, n).len() ==> 0 <= #[trigger] matching_up_to(list, port, host, node, n)[j] < n
            && connection_matches(list[matching_up_to(list, port, host, node, n)[j] as int], port, host, node),
        forall|i: int| 0 <= i < n && connection_matches(list[i], port, host, node)
            ==> exists|j: int| 0 <= j < matching_up_to(list, port, host, node, n).len() && #[trigger] matching_up_to(list, port, host, node, n)[j] == i,
    decreases n,
{
    if n > 0 {
        lemma_matching_up_to(list, port, host, node, n - 1);
        let prev = matching_up_to(list, port, host, node, n - 1);
        let cur = matching_up_to(list, port, host, node, n);
        if connection_matches(list[n - 1], port, host, node) {
            assert(cur =~= prev + seq![(n - 1) as usize]);
        } else {
            assert(cur =~= prev);
        }
        assert forall|j: int| 0 <= j < cur.len() implies 0 <= #[trigger] cur[j] < n
            && connection_matches(list[cur[j] as int], port, host, node) by {
            if j < prev.len() {
                assert(cur[j] == prev[j]);
            }
        }
        assert forall|i: int| 0 <= i < n && connection_matches(list[i], port, host, node)
            implies exists|j: int| 0 <= j < cur.len() && #[trigger] cur[j] == i by {
            if i < n - 1 {
                let j = choose|j: int| 0 <= j < prev.len() && #[trigger] prev[j] == i;
                assert(cur[j] == prev[j]);
            } else {
                assert(cur[prev.len() as int] == (n - 1) as usize);
                assert(cur[prev.len() as int] == i);
            }
        }
    }
}

/// An IP address as plain values: the 32 or 128 bits of the address.
#[derive(Debug, Clone, Copy, PartialEq, Eq, Structural)]
pub enum IpValue {
    V4(u32),
    V6(u128),
}

/// The address a watched request was sent from.
#[derive(Debug, Clone, Copy, PartialEq, Eq, Structural)]
pub struct SourceAddr {
    pub ip: IpValue,
    pub port: u16,
}

/// A loopback address: `127.0.0.0/8`, or `::1`.
pub open spec fn is_loopback(ip: IpValue) -> bool {
    match ip {
        IpValue::V4(a) => a / 16777216 == 127,
        IpValue::V6(a) => a == 1,
    }
}

pub fn loopback(ip: IpValue) -> (r: bool)
    ensures
        r == is_loopback(ip),
{
    match ip {
        IpValue::V4(a) => a / 16777216 == 127,
        IpValue::V6(a) => a == 1,
    }
}

/// The address a connection's `sourceIP` text denotes, by position; positions
/// beyond the list have none.
pub open spec fn ip_at(ips: Seq<Option<IpValue>>, i: int) -> Option<IpValue> {
    if 0 <= i < ips.len() {
        ips[i]
    } else {
        None
    }
}

/// Connection `i` of the list is the watched request sent from `source`.
pub open spec fn connection_from(
    list: Seq<DataNode>,
    ips: Seq<Option<IpValue>>,
    i: int,
    source: SourceAddr,
    host: Seq<char>,
    node: Seq<char>,
) -> bool {
    &&& 0 <= i < list.len()
    &&& connection_matches(list[i], source.port, host, node)
    &&& ip_at(ips, i) == Some(source.ip)
}

impl Observation {
    /// Whether the core's connection list (decoded JSON) holds this watched
    /// request: only a request sent from a loopback address counts, and a
    /// connection matches when its source port and host are the request's, its
    /// chains pass through the managed group and the observed node, and its
    /// `sourceIP` is the request's address. `source_ips` holds, by position, the
    /// address each connection's `sourceIP` text denotes (`None` where it names
    /// none).
    pub fn matches_connection(
        &self,
        data: &DataNode,
        source: SourceAddr,
        host: &str,
        source_ips: &Vec<Option<IpValue>>,
    ) -> (r: bool)
        ensures
            r == (is_loopback(source.ip) && exists|i: int| #[trigger] connection_from(
                connection_list(*data),
                source_ips@,
                i,
                source,
                host@,
                self.node@,
            )),
            !is_loopback(source.ip) ==> !r,
    {
        if !loopback(source.ip) {
            return false;
        }
        let candidates = self.matching_connections(data, source.port, host);
        let ghost list = connection_list(*data);
        let ghost n = list.len() as int;
        proof {
            lemma_matching_up_to(list, source.port, host@, self.node@, n);
        }
        let mut k: usize = 0;
        while k < candidates.len()
            invariant
                k <= candidates.len(),
                list == connection_list(*data),
                n == list.len(),
                is_loopback(source.ip),
                candidates@ == matching_up_to(list, source.port, host@, self.node@, n),
                forall|j: int| 0 <= j < candidates@.len() ==> 0 <= #[trigger] candidates@[j] < n
                    && connection_matches(list[candidates@[j] as int], source.port, host@, self.node@),
                forall|i: int| 0 <= i < n && connection_matches(list[i], source.port, host@, self.node@)
                    ==> exists|j: int| 0 <= j < candidates@.len() && #[trigger] candidates@[j] == i,
                forall|j: int| 0 <= j < k ==> ip_at(source_ips@, #[trigger] candidates@[j] as int) != Some(source.ip),
            decreases candidates.len() - k,
        {
            let i = candidates[k];
            if i < source_ips.len() {
                let same = match source_ips[i] {
                    Some(ip) => ip == source.ip,
                    None => false,
                };
                if same {
                    assert(candidates@[k as int] == i);
                    assert(connection_from(list, source_ips@, i as int, source, host@, self.node@));
                    return true;
                }
            }
            k = k + 1;
        }
        proof {
            assert forall|i: int| !connection_from(list, source_ips@, i, source, host@, self.node@) by {
                if 0 <= i < n && connection_matches(list[i], source.port, host@, self.node@) {
                    let j = choose|j: int| 0 <= j < candidates@.len() && #[trigger] candidates@[j] == i;
                    assert(ip_at(source_ips@, candidates@[j] as int) != Some(source.ip));
                }
            }
        }
        false
    }

    /// The connections in the core's list (decoded JSON) that are this watched
    /// request, up to the source address, which the caller compares.
    pub fn matching_connections(&self, data: &DataNode, port: u16, host: &str) -> (r: Vec<usize>)
        ensures
            r@ == matching_up_to(connection_list(*data), port, host@, self.node@, connection_list(*data).len() as int),
            connection_list(*data).len() <= usize::MAX,
    {
        let mut out: Vec<usize> = Vec::new();
        match get_field(data, "connections") {
            Some(DataNode::Sequence(items)) => {
                let mut i: usize = 0;
                assert(items@.len() == items.len());
                while i < items.len()
                    invariant
                        i <= items.len(),
                        connection_list(*data) == items@,
                        out@ == matching_up_to(items@, port, host@, self.node@, i as int),
                    decreases items.len() - i,
                {
                    if matches_one(&items[i], port, host, self.node.as_str()) {
                        out.push(i);
                    }
                    i = i + 1;
                }
            },
            _ => {},
        }
        out
    }
}


/// The managed group in the core's proxy list (decoded JSON).
pub open spec fn group_of(proxies: DataNode) -> DataNode {
    index(index(proxies, "proxies"@), GROUP@)
}

pub open spec fn is_selector(group: DataNode) -> bool {
    index(group, "type"@) matches DataNode::Text(t) && t@ == "Selector"@
}

/// The group's current exit, `REJECT` when it names none.
pub open spec fn group_current(group: DataNode) -> Seq<char> {
    match index(group, "now"@) {
        DataNode::Text(t) => t@,
        _ => REJECT@,
    }
}

fn selector_group<'a>(proxies: &'a DataNode) -> (r: Option<&'a DataNode>)
    ensures
        match r {
            Some(g) => *g == group_of(*proxies) && is_selector(*g),
            None => !is_selector(group_of(*proxies)),
        },
{
    let group = match get_field(proxies, "proxies") {
        Some(list) => match get_field(list, GROUP) {
            Some(g) => g,
            None => {
                return None;
            },
        },
        None => {
            return None;
        },
    };
    match get_field(group, "type") {
        Some(DataNode::Text(t)) => {
            if eq_str(t.as_str(), "Selector") {
                Some(group)
            } else {
                None
            }
        },
        _ => None,
    }
}

pub open spec fn not_loaded_message() -> Seq<char> {
    "核心尚未加载稳定策略"@
}

/// The exit the core currently uses for the managed group; an error when the
/// group is not a loaded selector.
pub fn current_exit(proxies: &DataNode) -> (r: Result<String, AppError>)
    ensures
        is_selector(group_of(*proxies)) ==> (r matches Ok(c) && c@ == group_current(group_of(*proxies))),
        !is_selector(group_of(*proxies)) ==> (r matches Err(AppError::Conflict(m)) && m@ == not_loaded_message()),
{
    match selector_group(proxies) {
        Some(group) => match get_field(group, "now") {
            Some(DataNode::Text(t)) => Ok(owned(t.as_str())),
            _ => Ok(owned(REJECT)),
        },
        None => Err(AppError::Conflict(owned("核心尚未加载稳定策略"))),
    }
}

/// The exit did not move while a round ran: the group is still a selector on
/// `current`.
pub fn still_selected(proxies: &DataNode, current: &str) -> (r: bool)
    ensures
        r == (is_selector(group_of(*proxies)) && (index(group_of(*proxies), "now"@) matches DataNode::Text(t) && t@ == current@)),
{
    match selector_group(proxies) {
        Some(group) => match get_field(group, "now") {
            Some(DataNode::Text(t)) => eq_str(t.as_str(), current),
            _ => false,
        },
        None => false,
    }
}

pub open spec fn group_members(proxies: DataNode) -> Seq<DataNode> {
    match index(group_of(proxies), "all"@) {
        DataNode::Sequence(items) => items@,
        _ => Seq::empty(),
    }
}

/// The selected nodes that the group offers, in order, at most ten.
pub open spec fn allowed_prefix(selected: Seq<String>, members: Seq<DataNode>, n: int) -> Seq<Seq<char>>
    decreases n,
{
    if n <= 0 {
        Seq::empty()
    } else {
        let before = allowed_prefix(selected, members, n - 1);
        if before.len() < 10 && lists(members, selected[n - 1]@) {
            before.push(selected[n - 1]@)
        } else {
            before
        }
    }
}

/// The nodes a round may probe and choose: the policy's selected nodes that the
/// group offers, in the policy's order, at most ten.
pub fn allowed_nodes(selected: &Vec<String>, proxies: &DataNode) -> (r: Vec<String>)
    ensures
        views_of(r@) == allowed_prefix(selected@, group_members(*proxies), selected@.len() as int),
{
    let empty: Vec<DataNode> = Vec::new();
    let members = match get_field(proxies, "proxies") {
        Some(list) => match get_field(list, GROUP) {
            Some(group) => match get_field(group, "all") {
                Some(DataNode::Sequence(items)) => items,
                _ => &empty,
            },
            None => &empty,
        },
        None => &empty,
    };
    assert(members@ == group_members(*proxies));
    let mut out: Vec<String> = Vec::new();
    let mut i: usize = 0;
    while i < selected.len()
        invariant
            i <= selected.len(),
            members@ == group_members(*proxies),
            views_of(out@) == allowed_prefix(selected@, members@, i as int),
        decreases selected.len() - i,
    {
        if out.len() < 10 && names(members, selected[i].as_str()) {
            let ghost prev = out@;
            out.push(owned(selected[i].as_str()));
            assert(views_of(out@) =~= views_of(prev).push(selected@[i as int]@));
        }
        i = i + 1;
    }
    out
}

pub open spec fn views_of(v: Seq<String>) -> Seq<Seq<char>> {
    v.map_values(|x: String| x@)
}

/// A probe passed: the core measured a positive delay.
pub fn probe_passed(result: &Option<DataNode>) -> (r: bool)
    ensures
        r == (*result matches Some(v) && (index(v, "delay"@) matches DataNode::UInt(n) && n > 0)),
{
    match result {
        Some(v) => match get_field(v, "delay") {
            Some(DataNode::UInt(n)) => *n > 0,
            _ => false,
        },
        None => false,
    }
}

/// The flags shown for a policy: eligible with at least two selected nodes,
/// enabled when stability is switched on too.
pub fn policy_flags(policy_enabled: bool, stability_enabled: bool, selected: usize) -> (r: (bool, bool))
    ensures
        r.0 == (policy_enabled && selected >= 2),
        r.1 == (policy_enabled && stability_enabled),
{
    (policy_enabled && selected >= 2, policy_enabled && stability_enabled)
}

/// The checks before switching stability on or off: confirmed, for the active
/// profile and revision, and a policy with at least two nodes.
pub fn check_stability_toggle(
    confirmed: bool,
    profile_is_active: bool,
    revision_is_active: bool,
    policy_enabled: bool,
    selected: usize,
) -> (r: Result<(), AppError>)
    ensures
        !confirmed ==> (r matches Err(AppError::InvalidInput(m)) && m@ == "更新稳定灾备需要确认"@),
        confirmed && !profile_is_active ==> (r matches Err(AppError::Conflict(m)) && m@ == "活动配置已变化，请刷新"@),
        confirmed && profile_is_active && !revision_is_active ==> (r matches Err(AppError::Conflict(m)) && m@ == "配置版本已变化，请刷新"@),
        confirmed && profile_is_active && revision_is_active && !(policy_enabled && selected >= 2)
            ==> (r matches Err(AppError::InvalidInput(m)) && m@ == "请先在代理页生成 OpenAI 灾备"@),
        confirmed && profile_is_active && revision_is_active && policy_enabled && selected >= 2 ==> r is Ok,
{
    if !confirmed {
        return Err(AppError::InvalidInput(owned("更新稳定灾备需要确认")));
    }
    if !profile_is_active {
        return Err(AppError::Conflict(owned("活动配置已变化，请刷新")));
    }
    if !revision_is_active {
        return Err(AppError::Conflict(owned("配置版本已变化，请刷新")));
    }
    if !policy_enabled || selected < 2 {
        return Err(AppError::InvalidInput(owned("请先在代理页生成 OpenAI 灾备")));
    }
    Ok(())
}


/// What the policy says when a check round starts.
#[derive(Debug, Clone, Copy, PartialEq, Eq, Structural)]
pub struct PolicyFacts {
    pub active: Option<u128>,
    pub revision: Option<u128>,
    pub policy_enabled: bool,
    pub stability_enabled: bool,
    /// Number of nodes the policy selected.
    pub selected_count: usize,
    /// The core runs.
    pub core_running: bool,
}

/// What happened since the last step of a check round.
#[derive(Debug)]
pub enum TickEvent {
    /// The round starts.
    Start(PolicyFacts),
    /// The core's proxy list (decoded JSON) and the nodes the policy selected.
    Proxies(DataNode, Vec<String>),
    /// The probes came back, with what is then known of the state, at `time`.
    Probed(RoundFacts, Vec<(String, bool)>, u64),
    /// The core selected the candidate at `time`.
    Selected(u64),
}

/// What the loop does next. No step ever closes a connection, reloads the
/// core's configuration or replays a model request.
#[derive(Debug, Clone, PartialEq, Eq)]
pub enum TickAction {
    /// The round is over.
    Done,
    /// Ask the core for its proxy list.
    FetchProxies,
    /// Probe these nodes.
    Probe(Vec<String>),
    /// Select this exit for the managed group.
    Select(String),
}

/// What a round knows between its steps: the exit it checks, the nodes it may
/// choose, and the exit it asked the core to select.
#[derive(Debug, Clone)]
pub struct TickRound {
    pub current: Option<String>,
    pub allowed: Vec<String>,
    pub candidate: Option<String>,
}

pub open spec fn fresh_round(r: TickRound) -> bool {
    r.current is None && r.allowed@.len() == 0 && r.candidate is None
}

impl TickRound {
    pub fn new() -> (r: Self)
        ensures
            fresh_round(r),
    {
        TickRound { current: None, allowed: Vec::new(), candidate: None }
    }
}

/// The result of one step of a check round, from state `o` and round `ro` to
/// state `n` and round `rn`.
pub open spec fn tick_stepped(
    o: HealthState,
    n: HealthState,
    ro: TickRound,
    rn: TickRound,
    event: TickEvent,
    r: Result<TickAction, AppError>,
) -> bool {
    match event {
        TickEvent::Start(p) => {
            let go = p.policy_enabled && p.stability_enabled && p.core_running;
            &&& round_begun(o, n, p.active, p.revision, p.policy_enabled && p.selected_count >= 2,
                p.policy_enabled && p.stability_enabled)
            &&& fresh_round(rn)
            &&& r == (if go {
                Ok::<TickAction, AppError>(TickAction::FetchProxies)
            } else {
                Ok::<TickAction, AppError>(TickAction::Done)
            })
        },
        TickEvent::Proxies(proxies, selected) => if is_selector(group_of(proxies)) {
            let c = group_current(group_of(proxies));
            &&& checks_begun(o, n, c)
            &&& (rn.current matches Some(x) && x@ == c)
            &&& views_of(rn.allowed@) == allowed_prefix(selected@, group_members(proxies), selected@.len() as int)
            &&& rn.candidate is None
            &&& (r matches Ok(TickAction::Probe(a)) && views_of(a@) == views_of(rn.allowed@))
        } else {
            &&& n == o
            &&& rn == ro
            &&& (r matches Err(AppError::Conflict(m)) && m@ == not_loaded_message())
        },
        TickEvent::Probed(facts, checks, time) => match ro.current {
            None => n == o && rn == ro && r == Ok::<TickAction, AppError>(TickAction::Done),
            Some(cur) => {
                &&& rn.current == ro.current
                &&& rn.allowed == ro.allowed
                &&& n.current == o.current
                &&& n.profile == o.profile
                &&& n.revision == o.revision
                &&& !round_counts(facts) ==> {
                    &&& n.epoch == next_epoch(o.epoch)
                    &&& !n.snapshot.running
                    &&& n.nodes == o.nodes
                    &&& rn.candidate is None
                    &&& r == Ok::<TickAction, AppError>(TickAction::Done)
                }
                &&& round_counts(facts) ==> {
                    &&& probes_recorded(o.nodes, n.nodes, checks@, time)
                    &&& n.epoch == o.epoch
                    &&& n.snapshot == o.snapshot
                    &&& exists|c: Seq<char>| #[trigger] chosen(n.nodes, cur@, ro.allowed@, time, c) && if c == cur@ {
                        rn.candidate is None && r == Ok::<TickAction, AppError>(TickAction::Done)
                    } else {
                        &&& (rn.candidate matches Some(x) && x@ == c)
                        &&& (r matches Ok(TickAction::Select(y)) && y@ == c)
                    }
                }
            },
        },
        TickEvent::Selected(time) => match ro.candidate {
            None => n == o && rn == ro && r == Ok::<TickAction, AppError>(TickAction::Done),
            Some(c) => {
                &&& n.epoch == next_epoch(o.epoch)
                &&& (n.current matches Some(x) && x@ == c@)
                &&& n.snapshot.last_switch == Some(time)
                &&& n.snapshot.message@ == switched_message()
                &&& n.nodes == o.nodes
                &&& (rn.current matches Some(x) && x@ == c@)
                &&& rn.candidate is None
                &&& r == Ok::<TickAction, AppError>(TickAction::Done)
            },
        },
    }
}

impl HealthState {
    /// One step of a check round: the decision that follows `event`. Only the
    /// step after the probes can ask for a selection, only of an exit other than
    /// the one checked and only of the one `choose_exit` picks; the step after the
    /// selection records it and ends the round, so a round selects at most once.
    /// A policy that is not enabled with stability on ends the round at once.
    pub fn tick_step(&mut self, round: &mut TickRound, event: &TickEvent) -> (r: Result<TickAction, AppError>)
        requires
            old(self).nodes.wf(),
            *event matches TickEvent::Probed(_, checks, time) ==> table_has_room(old(self).nodes, checks@.len(), time),
        ensures
            final(self).nodes.wf(),
            tick_stepped(*old(self), *final(self), *old(round), *final(round), *event, r),
    {
        match event {
            TickEvent::Start(p) => {
                let (eligible, enabled) = policy_flags(p.policy_enabled, p.stability_enabled, p.selected_count);
                self.begin_round(p.active, p.revision, eligible, enabled);
                *round = TickRound::new();
                if enabled && p.core_running {
                    Ok(TickAction::FetchProxies)
                } else {
                    Ok(TickAction::Done)
                }
            },
            TickEvent::Proxies(proxies, selected) => {
                let current = match current_exit(proxies) {
                    Ok(c) => c,
                    Err(e) => return Err(e),
                };
                let allowed = allowed_nodes(selected, proxies);
                self.begin_checks(current.as_str());
                let probe = copy_names(&allowed);
                assert(views_of(probe@) =~= views_of(allowed@));
                *round = TickRound { current: Some(current), allowed, candidate: None };
                Ok(TickAction::Probe(probe))
            },
            TickEvent::Probed(facts, checks, time) => {
                let current = match &round.current {
                    Some(c) => owned(c.as_str()),
                    None => return Ok(TickAction::Done),
                };
                let choice = self.conclude_round(*facts, checks, current.as_str(), round.allowed.as_slice(), *time);
                match choice {
                    Some(c) => {
                        let selected = owned(c.as_str());
                        round.candidate = Some(c);
                        Ok(TickAction::Select(selected))
                    },
                    None => {
                        round.candidate = None;
                        Ok(TickAction::Done)
                    },
                }
            },
            TickEvent::Selected(time) => {
                let c = match &round.candidate {
                    Some(c) => owned(c.as_str()),
                    None => return Ok(TickAction::Done),
                };
                self.switched(owned(c.as_str()), *time);
                round.current = Some(c);
                round.candidate = None;
                Ok(TickAction::Done)
            },
        }
    }
}

fn copy_names(names: &Vec<String>) -> (r: Vec<String>)
    ensures
        r@.len() == names@.len(),
        forall|i: int| 0 <= i < names@.len() ==> (#[trigger] r@[i])@ == names@[i]@,
{
    let mut out: Vec<String> = Vec::new();
    let mut i: usize = 0;
    while i < names.len()
        invariant
            i <= names.len(),
            out@.len() == i,
            forall|k: int| 0 <= k < i ==> (#[trigger] out@[k])@ == names@[k]@,
        decreases names.len() - i,
    {
        out.push(owned(names[i].as_str()));
        i = i + 1;
    }
    out
}

} // verus!
