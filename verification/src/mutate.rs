//! Turning one request to add, remove or clear into the device calls it
//! stands for, and keeping account of how they went.

use vstd::prelude::*;
use crate::model::{CommandState, MappingEntry, Protocol, ProtocolSelector, Target};

verus! {

/// What happens to the remaining calls of a plan when one fails.
#[derive(Clone, Copy, Debug, PartialEq, Eq, Structural)]
pub enum Policy {
    /// The first failure ends the plan; later calls are never made.
    FailFast,
    /// Every call is made; failures are collected and reported together.
    ContinueAndCollect,
}

/// The concrete protocols a selector stands for, in the order in which
/// they are served: for `Both`, UDP comes first.
pub open spec fn selector_protocols(selector: ProtocolSelector) -> Seq<Protocol> {
    match selector {
        ProtocolSelector::Tcp => seq![Protocol::Tcp],
        ProtocolSelector::Udp => seq![Protocol::Udp],
        ProtocolSelector::Both => seq![Protocol::Udp, Protocol::Tcp],
    }
}

/// One target per protocol of the selector, all on the same external port.
pub open spec fn selector_targets(selector: ProtocolSelector, external_port: u16) -> Seq<Target> {
    Seq::new(
        selector_protocols(selector).len(),
        |i: int| Target { protocol: selector_protocols(selector)[i], external_port },
    )
}

/// The target of every row of a snapshot, in table order.
pub open spec fn snapshot_targets(entries: Seq<MappingEntry>) -> Seq<Target> {
    Seq::new(entries.len(), |i: int| entries[i].spec_target())
}

/// Resolves a selector into the protocols to call the device with.
pub fn resolve(selector: ProtocolSelector) -> (protocols: Vec<Protocol>)
    ensures
        protocols@ == selector_protocols(selector),
{
    let mut protocols: Vec<Protocol> = Vec::new();
    match selector {
        ProtocolSelector::Tcp => {
            protocols.push(Protocol::Tcp);
        },
        ProtocolSelector::Udp => {
            protocols.push(Protocol::Udp);
        },
        ProtocolSelector::Both => {
            protocols.push(Protocol::Udp);
            protocols.push(Protocol::Tcp);
        },
    }
    assert(protocols@ =~= selector_protocols(selector));
    protocols
}

/// The calls that adding or removing one external port stands for.
pub fn plan_for_port(selector: ProtocolSelector, external_port: u16) -> (plan: Vec<Target>)
    ensures
        plan@ == selector_targets(selector, external_port),
{
    let protocols = resolve(selector);
    let mut plan: Vec<Target> = Vec::new();
    let mut i: usize = 0;
    while i < protocols.len()
        invariant
            i <= protocols.len(),
            protocols@ == selector_protocols(selector),
            plan@.len() == i,
            forall|j: int|
                0 <= j < i ==> plan@[j] == (Target {
                    protocol: selector_protocols(selector)[j],
                    external_port,
                }),
        decreases protocols.len() - i,
    {
        plan.push(Target { protocol: protocols[i], external_port });
        i += 1;
    }
    assert(plan@ =~= selector_targets(selector, external_port));
    plan
}

/// The calls that clearing a snapshot stands for: one removal per row, by
/// that row's own protocol and external port.
pub fn plan_for_snapshot(entries: &Vec<MappingEntry>) -> (plan: Vec<Target>)
    ensures
        plan@ == snapshot_targets(entries@),
{
    let mut plan: Vec<Target> = Vec::new();
    let mut i: usize = 0;
    while i < entries.len()
        invariant
            i <= entries.len(),
            plan@.len() == i,
            forall|j: int| 0 <= j < i ==> plan@[j] == entries@[j].spec_target(),
        decreases entries.len() - i,
    {
        plan.push(entries[i].target());
        i += 1;
    }
    assert(plan@ =~= snapshot_targets(entries@));
    plan
}

/// The mathematical state of a plan under way.
pub struct Progress {
    pub plan: Seq<Target>,
    pub policy: Policy,
    /// How many calls of the plan have been made and answered.
    pub attempted: nat,
    /// The targets whose call failed, in the order of the plan.
    pub failures: Seq<Target>,
    /// Set when a failure ended a fail-fast plan.
    pub halted: bool,
}

/// A plan of which no call has been made yet.
pub open spec fn progress_start(plan: Seq<Target>, policy: Policy) -> Progress {
    Progress { plan, policy, attempted: 0, failures: Seq::empty(), halted: false }
}

/// The call to make next, if any is left to make.
pub open spec fn progress_pending(p: Progress) -> Option<Target> {
    if !p.halted && p.attempted < p.plan.len() {
        Some(p.plan[p.attempted as int])
    } else {
        None
    }
}

/// The state after the pending call succeeded (`ok`) or failed.  With no
/// call pending, nothing changes.
pub open spec fn progress_record(p: Progress, ok: bool) -> Progress {
    if progress_pending(p).is_none() {
        p
    } else if ok {
        Progress { attempted: p.attempted + 1, ..p }
    } else {
        Progress {
            attempted: p.attempted + 1,
            failures: p.failures.push(p.plan[p.attempted as int]),
            halted: p.policy == Policy::FailFast,
            ..p
        }
    }
}

/// The state after a series of answers, oldest first.
pub open spec fn progress_run(p: Progress, outcomes: Seq<bool>) -> Progress
    decreases outcomes.len(),
{
    if outcomes.len() == 0 {
        p
    } else {
        progress_record(progress_run(p, outcomes.drop_last()), outcomes.last())
    }
}

/// How the plan stands: `Failed` once halted, `GatewayAcquired` while
/// calls remain, else `Completed` or, with failures collected,
/// `CompletedWithErrors`.
pub open spec fn progress_state(p: Progress) -> CommandState {
    if p.halted {
        CommandState::Failed
    } else if p.attempted < p.plan.len() {
        CommandState::GatewayAcquired
    } else if p.failures.len() == 0 {
        CommandState::Completed
    } else {
        CommandState::CompletedWithErrors
    }
}

/// The targets of `plan` whose answer among `outcomes` was a failure, in
/// plan order.  Only the first `outcomes.len()` targets have an answer.
pub open spec fn failed_targets(plan: Seq<Target>, outcomes: Seq<bool>) -> Seq<Target>
    recommends
        outcomes.len() <= plan.len(),
    decreases outcomes.len(),
{
    if outcomes.len() == 0 {
        Seq::empty()
    } else if outcomes.last() {
        failed_targets(plan, outcomes.drop_last())
    } else {
        failed_targets(plan, outcomes.drop_last()).push(plan[outcomes.len() - 1])
    }
}

/// Walks a plan of device calls and records each answer.
pub struct MutationExecutor {
    plan: Vec<Target>,
    policy: Policy,
    attempted: usize,
    failures: Vec<Target>,
    halted: bool,
}

impl View for MutationExecutor {
    type V = Progress;

    closed spec fn view(&self) -> Progress {
        Progress {
            plan: self.plan@,
            policy: self.policy,
            attempted: self.attempted as nat,
            failures: self.failures@,
            halted: self.halted,
        }
    }
}

impl MutationExecutor {
    /// No more calls are answered than the plan holds, and no more
    /// failures collected than calls answered.
    pub closed spec fn wf(&self) -> bool {
        &&& self.attempted <= self.plan@.len()
        &&& self.failures@.len() <= self.attempted
    }

    /// What `wf` says, over the view.
    pub proof fn lemma_wf_bounds(&self)
        requires
            self.wf(),
        ensures
            self@.attempted <= self@.plan.len(),
            self@.failures.len() <= self@.attempted,
    {
    }

    /// A plan of which no call has been made yet.
    pub fn new(plan: Vec<Target>, policy: Policy) -> (r: Self)
        ensures
            r.wf(),
            r@ == progress_start(plan@, policy),
    {
        MutationExecutor { plan, policy, attempted: 0, failures: Vec::new(), halted: false }
    }

    /// The call to make next; `None` when the plan is finished or halted.
    pub fn pending(&self) -> (r: Option<Target>)
        ensures
            r == progress_pending(self@),
    {
        if !self.halted && self.attempted < self.plan.len() {
            Some(self.plan[self.attempted])
        } else {
            None
        }
    }

    /// Records the device's answer to the pending call.
    pub fn record(&mut self, ok: bool)
        requires
            old(self).wf(),
        ensures
            final(self).wf(),
            final(self)@ == progress_record(old(self)@, ok),
    {
        if !self.halted && self.attempted < self.plan.len() {
            if !ok {
                let target = self.plan[self.attempted];
                self.failures.push(target);
                match self.policy {
                    Policy::FailFast => {
                        self.halted = true;
                    },
                    Policy::ContinueAndCollect => {},
                }
            }
            self.attempted = self.attempted + 1;
        }
    }

    /// How the plan stands after the answers recorded so far.
    pub fn state(&self) -> (r: CommandState)
        ensures
            r == progress_state(self@),
    {
        if self.halted {
            CommandState::Failed
        } else if self.attempted < self.plan.len() {
            CommandState::GatewayAcquired
        } else if self.failures.len() == 0 {
            CommandState::Completed
        } else {
            CommandState::CompletedWithErrors
        }
    }

    /// Whether a failure has ended the plan before its last call.
    pub fn halted(&self) -> (r: bool)
        ensures
            r == self@.halted,
    {
        self.halted
    }

    /// How many calls of the plan were made.
    pub fn attempted(&self) -> (n: usize)
        ensures
            n == self@.attempted,
    {
        self.attempted
    }

    /// The targets whose call failed, in plan order.
    pub fn failures(&self) -> (r: &Vec<Target>)
        ensures
            r@ == self@.failures,
    {
        &self.failures
    }
}

/// For `Both`, the UDP call is pending first.  The TCP call becomes
/// pending only once the UDP call has succeeded; when the UDP call fails
/// the plan is `Failed` and the TCP call is never made.
pub proof fn lemma_both_serves_udp_before_tcp(external_port: u16)
    ensures
        ({
            let start = progress_start(
                selector_targets(ProtocolSelector::Both, external_port),
                Policy::FailFast,
            );
            let udp = Target { protocol: Protocol::Udp, external_port };
            let tcp = Target { protocol: Protocol::Tcp, external_port };
            &&& progress_pending(start) == Some(udp)
            &&& progress_pending(progress_record(start, true)) == Some(tcp)
            &&& progress_pending(progress_record(start, false)).is_none()
            &&& progress_state(progress_record(start, false)) == CommandState::Failed
            &&& progress_state(progress_record(progress_record(start, true), true))
                == CommandState::Completed
            &&& progress_state(progress_record(progress_record(start, true), false))
                == CommandState::Failed
        }),
{
}

/// A single-protocol selector stands for exactly one call, with that
/// protocol; its failure is the command's failure.
pub proof fn lemma_single_protocol_is_one_call(selector: ProtocolSelector, external_port: u16)
    requires
        selector != ProtocolSelector::Both,
    ensures
        ({
            let start = progress_start(selector_targets(selector, external_port), Policy::FailFast);
            let protocol = if selector == ProtocolSelector::Tcp {
                Protocol::Tcp
            } else {
                Protocol::Udp
            };
            &&& progress_pending(start) == Some(Target { protocol, external_port })
            &&& progress_state(progress_record(start, true)) == CommandState::Completed
            &&& progress_state(progress_record(start, false)) == CommandState::Failed
            &&& progress_pending(progress_record(start, true)).is_none()
            &&& progress_pending(progress_record(start, false)).is_none()
        }),
{
}

/// Under `ContinueAndCollect`, after the first `outcomes.len()` calls were
/// answered, exactly that many were made, whatever the answers; the
/// failures collected are the targets whose call failed, in plan order.
pub proof fn lemma_collect_prefix(plan: Seq<Target>, outcomes: Seq<bool>)
    requires
        outcomes.len() <= plan.len(),
    ensures
        progress_run(progress_start(plan, Policy::ContinueAndCollect), outcomes) == (Progress {
            plan,
            policy: Policy::ContinueAndCollect,
            attempted: outcomes.len(),
            failures: failed_targets(plan, outcomes),
            halted: false,
        }),
    decreases outcomes.len(),
{
    if outcomes.len() > 0 {
        lemma_collect_prefix(plan, outcomes.drop_last());
    }
}

/// No failure is collected exactly when every answer was a success.
pub proof fn lemma_no_failure_iff_all_ok(plan: Seq<Target>, outcomes: Seq<bool>)
    requires
        outcomes.len() <= plan.len(),
    ensures
        failed_targets(plan, outcomes).len() == 0 <==> (forall|i: int|
            0 <= i < outcomes.len() ==> outcomes[i]),
        forall|i: int|
            0 <= i < outcomes.len() && !outcomes[i] ==> failed_targets(plan, outcomes).contains(
                #[trigger] plan[i],
            ),
    decreases outcomes.len(),
{
    if outcomes.len() > 0 {
        let shorter = outcomes.drop_last();
        lemma_no_failure_iff_all_ok(plan, shorter);
        let n = outcomes.len() - 1;
        if outcomes.last() {
            assert forall|i: int| 0 <= i < outcomes.len() implies (outcomes[i] <==> (i == n
                || shorter[i])) by {}
        } else {
            assert(!outcomes[n]);
            let collected = failed_targets(plan, outcomes);
            assert(collected.last() == plan[n]);
            assert forall|i: int| 0 <= i < outcomes.len() && !outcomes[i] implies collected.contains(
                #[trigger] plan[i],
            ) by {
                if i < n {
                    assert(!shorter[i]);
                    let j = choose|j: int|
                        0 <= j < failed_targets(plan, shorter).len() && failed_targets(
                            plan,
                            shorter,
                        )[j] == plan[i];
                    assert(collected[j] == plan[i]);
                } else {
                    assert(collected[collected.len() - 1] == plan[i]);
                }
            }
        }
    }
}

/// Clearing a table attempts the removal of every row, in table order,
/// even after a removal has failed.  It ends `Completed` when every
/// removal succeeded and `CompletedWithErrors` otherwise, with every
/// failed target collected.
pub proof fn lemma_clear_attempts_every_entry(entries: Seq<MappingEntry>, outcomes: Seq<bool>)
    requires
        outcomes.len() == entries.len(),
    ensures
        ({
            let plan = snapshot_targets(entries);
            let start = progress_start(plan, Policy::ContinueAndCollect);
            let end = progress_run(start, outcomes);
            &&& forall|k: int|
                0 <= k < entries.len() ==> progress_pending(
                    #[trigger] progress_run(start, outcomes.take(k)),
                ) == Some(entries[k].spec_target())
            &&& end.attempted == entries.len()
            &&& progress_pending(end).is_none()
            &&& end.failures == failed_targets(plan, outcomes)
            &&& progress_state(end) == if forall|i: int| 0 <= i < outcomes.len() ==> outcomes[i] {
                CommandState::Completed
            } else {
                CommandState::CompletedWithErrors
            }
            &&& forall|i: int|
                0 <= i < outcomes.len() && !outcomes[i] ==> end.failures.contains(
                    #[trigger] plan[i],
                )
        }),
{
    let plan = snapshot_targets(entries);
    let start = progress_start(plan, Policy::ContinueAndCollect);
    lemma_collect_prefix(plan, outcomes);
    lemma_no_failure_iff_all_ok(plan, outcomes);
    assert forall|k: int| 0 <= k < entries.len() implies progress_pending(
        #[trigger] progress_run(start, outcomes.take(k)),
    ) == Some(entries[k].spec_target()) by {
        lemma_collect_prefix(plan, outcomes.take(k));
    }
}

} // verus!
