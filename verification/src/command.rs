//! One command from discovery to its end: which remote call comes next, and
//! what each answer means for the command.
//!
//! The command never talks to the device.  Its owner performs the action
//! that `next_action` names and hands the answer to `handle`, until the
//! action is `Stop`.

use vstd::prelude::*;
use crate::enumerate::{
    is_read_error, scan_next_index, scan_start, scan_step, EntryReply, MappingEnumerator, Scan,
    ScanStatus, INDEX_LIMIT,
};
use crate::model::{CommandState, ErrorKind, Ipv4, MappingEntry, Protocol, ProtocolSelector, Target};
use crate::mutate::{
    plan_for_port, plan_for_snapshot, progress_pending, progress_record, progress_start,
    selector_targets, snapshot_targets, MutationExecutor, Policy, Progress,
};

verus! {

/// A validated request.
#[derive(Clone, Debug, PartialEq, Eq)]
pub enum Intent {
    /// List the table, after the external address if `print_ip` is set.
    View { print_ip: bool },
    Add {
        selector: ProtocolSelector,
        external_port: u16,
        internal_host: Ipv4,
        internal_port: u16,
        lease_seconds: u32,
        description: String,
    },
    Remove { selector: ProtocolSelector, external_port: u16 },
    /// Remove every mapping the table holds.
    RemoveAll,
}

/// The one remote call to perform next.
#[derive(Clone, Debug, PartialEq, Eq)]
pub enum Action {
    Discover { timeout_seconds: u64 },
    QueryExternalIp,
    ReadEntry { index: u32 },
    AddMapping {
        protocol: Protocol,
        external_port: u16,
        internal_host: Ipv4,
        internal_port: u16,
        lease_seconds: u32,
        description: String,
    },
    RemoveMapping { target: Target },
    /// The command is over; see its state.
    Stop,
}

/// The answer to the action performed last.
#[derive(Clone, Debug, PartialEq, Eq)]
pub enum Event {
    GatewayFound,
    DiscoveryFailed,
    /// The gateway's address on the outside.
    ExternalIpKnown(Ipv4),
    ExternalIpFailed,
    Table(EntryReply),
    MutationSucceeded,
    MutationFailed,
}

/// Which answer the command is waiting for.
#[derive(Clone, Copy, Debug, PartialEq, Eq, Structural)]
pub enum Stage {
    Start,
    AwaitingExternalIp,
    Reading,
    Mutating,
    Done,
}

/// The mathematical state of a command.
pub struct CommandView {
    pub intent: Intent,
    pub timeout_seconds: u64,
    pub stage: Stage,
    /// The gateway's external address, once it was asked for and told.
    pub external_ip: Option<Ipv4>,
    pub scan: Scan,
    pub progress: Progress,
    pub error: Option<ErrorKind>,
}

/// The device calls that an add or a remove stands for, fixed when the
/// command is made.  Clearing gets its plan from the snapshot, later.
pub open spec fn intent_plan(intent: Intent) -> Seq<Target> {
    match intent {
        Intent::Add { selector, external_port, .. } => selector_targets(selector, external_port),
        Intent::Remove { selector, external_port } => selector_targets(selector, external_port),
        _ => Seq::empty(),
    }
}

/// A command that has not looked for a gateway yet.
pub open spec fn command_start(intent: Intent, timeout_seconds: u64) -> CommandView {
    CommandView {
        intent,
        timeout_seconds,
        stage: Stage::Start,
        external_ip: None,
        scan: scan_start(),
        progress: progress_start(intent_plan(intent), Policy::FailFast),
        error: None,
    }
}

/// What a command does first once it has a gateway.
pub open spec fn stage_after_discovery(intent: Intent) -> Stage {
    match intent {
        Intent::View { print_ip } => if print_ip {
            Stage::AwaitingExternalIp
        } else {
            Stage::Reading
        },
        Intent::RemoveAll => Stage::Reading,
        _ => Stage::Mutating,
    }
}

/// The device call that serves `target` under `intent`.
pub open spec fn call_for(intent: Intent, target: Target) -> Action {
    match intent {
        Intent::Add { internal_host, internal_port, lease_seconds, description, .. } => {
            Action::AddMapping {
                protocol: target.protocol,
                external_port: target.external_port,
                internal_host,
                internal_port,
                lease_seconds,
                description,
            }
        },
        _ => Action::RemoveMapping { target },
    }
}

/// The action that a command in state `v` wants performed.
pub open spec fn command_action(v: CommandView) -> Action {
    match v.stage {
        Stage::Start => Action::Discover { timeout_seconds: v.timeout_seconds },
        Stage::AwaitingExternalIp => Action::QueryExternalIp,
        Stage::Reading => match scan_next_index(v.scan) {
            Some(i) => Action::ReadEntry { index: i as u32 },
            None => Action::Stop,
        },
        Stage::Mutating => match progress_pending(v.progress) {
            Some(target) => call_for(v.intent, target),
            None => Action::Stop,
        },
        Stage::Done => Action::Stop,
    }
}

/// The command ended by an error of the given kind.
pub open spec fn command_failed(v: CommandView, kind: ErrorKind) -> CommandView {
    CommandView { stage: Stage::Done, error: Some(kind), ..v }
}

/// The state after a table read left the walk in state `scan`.
pub open spec fn after_read(v: CommandView, scan: Scan) -> CommandView {
    match scan.status {
        ScanStatus::Scanning => CommandView { scan, ..v },
        ScanStatus::Aborted => command_failed(CommandView { scan, ..v }, ErrorKind::EnumerationFailure),
        ScanStatus::Complete => if v.intent is RemoveAll {
            let plan = snapshot_targets(scan.entries);
            CommandView {
                scan,
                progress: progress_start(plan, Policy::ContinueAndCollect),
                stage: if plan.len() == 0 {
                    Stage::Done
                } else {
                    Stage::Mutating
                },
                ..v
            }
        } else {
            CommandView { scan, stage: Stage::Done, ..v }
        },
    }
}

/// The state after a mutation call left the plan in state `progress`.
pub open spec fn after_call(v: CommandView, progress: Progress) -> CommandView {
    CommandView {
        progress,
        stage: if progress_pending(progress).is_none() {
            Stage::Done
        } else {
            Stage::Mutating
        },
        error: if progress.halted {
            Some(ErrorKind::MutationFailure)
        } else {
            v.error
        },
        ..v
    }
}

/// The state after `event` answered the pending action.  An event that
/// does not answer it changes nothing.
pub open spec fn command_step(v: CommandView, event: Event) -> CommandView {
    match v.stage {
        Stage::Start => match event {
            Event::GatewayFound => CommandView { stage: stage_after_discovery(v.intent), ..v },
            Event::DiscoveryFailed => command_failed(v, ErrorKind::DiscoveryFailure),
            _ => v,
        },
        Stage::AwaitingExternalIp => match event {
            Event::ExternalIpKnown(address) => CommandView {
                stage: Stage::Reading,
                external_ip: Some(address),
                ..v
            },
            Event::ExternalIpFailed => command_failed(v, ErrorKind::ExternalIpQueryFailure),
            _ => v,
        },
        Stage::Reading => match event {
            Event::Table(reply) => after_read(v, scan_step(v.scan, reply)),
            _ => v,
        },
        Stage::Mutating => match event {
            Event::MutationSucceeded => after_call(v, progress_record(v.progress, true)),
            Event::MutationFailed => after_call(v, progress_record(v.progress, false)),
            _ => v,
        },
        Stage::Done => v,
    }
}

/// The state after a series of events, oldest first.
pub open spec fn command_run(v: CommandView, events: Seq<Event>) -> CommandView
    decreases events.len(),
{
    if events.len() == 0 {
        v
    } else {
        command_step(command_run(v, events.drop_last()), events.last())
    }
}

/// Where a command in state `v` stands.
pub open spec fn command_state(v: CommandView) -> CommandState {
    match v.stage {
        Stage::Start => CommandState::Start,
        Stage::Done => if v.error.is_some() {
            CommandState::Failed
        } else if v.progress.failures.len() > 0 {
            CommandState::CompletedWithErrors
        } else {
            CommandState::Completed
        },
        _ => CommandState::GatewayAcquired,
    }
}

/// Whether a clear found the table empty and so had nothing to remove.
pub open spec fn nothing_to_delete(v: CommandView) -> bool {
    &&& v.intent is RemoveAll
    &&& command_state(v) == CommandState::Completed
    &&& v.scan.entries.len() == 0
}

/// A command under way.
pub struct Command {
    intent: Intent,
    timeout_seconds: u64,
    stage: Stage,
    external_ip: Option<Ipv4>,
    scan: MappingEnumerator,
    executor: MutationExecutor,
    error: Option<ErrorKind>,
}

impl View for Command {
    type V = CommandView;

    closed spec fn view(&self) -> CommandView {
        CommandView {
            intent: self.intent,
            timeout_seconds: self.timeout_seconds,
            stage: self.stage,
            external_ip: self.external_ip,
            scan: self.scan@,
            progress: self.executor@,
            error: self.error,
        }
    }
}

impl Command {
    /// The walk and the plan inside are each well-formed.
    pub closed spec fn wf(&self) -> bool {
        &&& self.scan.wf()
        &&& self.executor.wf()
    }

    /// A command for `intent` that has not looked for a gateway yet.
    pub fn new(intent: Intent, timeout_seconds: u64) -> (r: Self)
        ensures
            r.wf(),
            r@ == command_start(intent, timeout_seconds),
            command_state(r@) == CommandState::Start,
            command_inv(r@),
    {
        let plan = match &intent {
            Intent::Add { selector, external_port, .. } => plan_for_port(*selector, *external_port),
            Intent::Remove { selector, external_port } => plan_for_port(*selector, *external_port),
            _ => Vec::new(),
        };
        Command {
            intent,
            timeout_seconds,
            stage: Stage::Start,
            external_ip: None,
            scan: MappingEnumerator::new(),
            executor: MutationExecutor::new(plan, Policy::FailFast),
            error: None,
        }
    }

    /// The remote call to perform next, or `Stop` when the command is over.
    pub fn next_action(&self) -> (action: Action)
        requires
            self.wf(),
        ensures
            action == command_action(self@),
    {
        match self.stage {
            Stage::Start => Action::Discover { timeout_seconds: self.timeout_seconds },
            Stage::AwaitingExternalIp => Action::QueryExternalIp,
            Stage::Reading => match self.scan.next_index() {
                Some(index) => Action::ReadEntry { index },
                None => Action::Stop,
            },
            Stage::Mutating => match self.executor.pending() {
                Some(target) => match &self.intent {
                    Intent::Add {
                        internal_host,
                        internal_port,
                        lease_seconds,
                        description,
                        ..
                    } => Action::AddMapping {
                        protocol: target.protocol,
                        external_port: target.external_port,
                        internal_host: *internal_host,
                        internal_port: *internal_port,
                        lease_seconds: *lease_seconds,
                        description: description.clone(),
                    },
                    _ => Action::RemoveMapping { target },
                },
                None => Action::Stop,
            },
            Stage::Done => Action::Stop,
        }
    }

    /// Takes the answer to the action that `next_action` named.
    pub fn handle(&mut self, event: Event)
        requires
            old(self).wf(),
        ensures
            final(self).wf(),
            final(self)@ == command_step(old(self)@, event),
            command_inv(old(self)@) ==> command_inv(final(self)@),
    {
        proof {
            if command_inv(self@) {
                lemma_step_keeps_reachable(self@, event);
            }
        }
        match self.stage {
            Stage::Start => match event {
                Event::GatewayFound => {
                    self.stage = match &self.intent {
                        Intent::View { print_ip } => if *print_ip {
                            Stage::AwaitingExternalIp
                        } else {
                            Stage::Reading
                        },
                        Intent::RemoveAll => Stage::Reading,
                        _ => Stage::Mutating,
                    };
                },
                Event::DiscoveryFailed => {
                    self.stage = Stage::Done;
                    self.error = Some(ErrorKind::DiscoveryFailure);
                },
                _ => {},
            },
            Stage::AwaitingExternalIp => match event {
                Event::ExternalIpKnown(address) => {
                    self.stage = Stage::Reading;
                    self.external_ip = Some(address);
                },
                Event::ExternalIpFailed => {
                    self.stage = Stage::Done;
                    self.error = Some(ErrorKind::ExternalIpQueryFailure);
                },
                _ => {},
            },
            Stage::Reading => match event {
                Event::Table(reply) => {
                    self.scan.accept(reply);
                    match self.scan.status() {
                        ScanStatus::Scanning => {},
                        ScanStatus::Aborted => {
                            self.stage = Stage::Done;
                            self.error = Some(ErrorKind::EnumerationFailure);
                        },
                        ScanStatus::Complete => {
                            let clearing = match &self.intent {
                                Intent::RemoveAll => true,
                                _ => false,
                            };
                            if clearing {
                                let plan = plan_for_snapshot(self.scan.entries());
                                self.stage = if plan.len() == 0 {
                                    Stage::Done
                                } else {
                                    Stage::Mutating
                                };
                                self.executor = MutationExecutor::new(plan, Policy::ContinueAndCollect);
                            } else {
                                self.stage = Stage::Done;
                            }
                        },
                    }
                },
                _ => {},
            },
            Stage::Mutating => {
                let answered = match event {
                    Event::MutationSucceeded => Some(true),
                    Event::MutationFailed => Some(false),
                    _ => None,
                };
                match answered {
                    Some(ok) => {
                        self.executor.record(ok);
                        if self.executor.pending().is_none() {
                            self.stage = Stage::Done;
                        }
                        if self.executor.halted() {
                            self.error = Some(ErrorKind::MutationFailure);
                        }
                    },
                    None => {},
                }
            },
            Stage::Done => {},
        }
    }

    /// Which answer the command is waiting for.
    pub fn stage(&self) -> (r: Stage)
        ensures
            r == self@.stage,
    {
        self.stage
    }

    /// The request that the command serves.
    pub fn intent(&self) -> (r: &Intent)
        ensures
            *r == self@.intent,
    {
        &self.intent
    }

    /// Where the command stands.
    pub fn state(&self) -> (r: CommandState)
        ensures
            r == command_state(self@),
    {
        match self.stage {
            Stage::Start => CommandState::Start,
            Stage::Done => if self.error.is_some() {
                CommandState::Failed
            } else if self.executor.failures().len() > 0 {
                CommandState::CompletedWithErrors
            } else {
                CommandState::Completed
            },
            _ => CommandState::GatewayAcquired,
        }
    }

    /// The gateway's external address, where the command asked for it and
    /// was told.
    pub fn external_ip(&self) -> (r: Option<Ipv4>)
        ensures
            r == self@.external_ip,
    {
        self.external_ip
    }

    /// Why the command failed, once it has.
    pub fn error(&self) -> (r: Option<ErrorKind>)
        ensures
            r == self@.error,
    {
        self.error
    }

    /// The rows read so far.  They are the table's snapshot once the walk
    /// is complete.
    pub fn entries(&self) -> (r: &Vec<MappingEntry>)
        ensures
            r@ == self@.scan.entries,
    {
        self.scan.entries()
    }

    /// The mappings whose removal or addition the device refused.
    pub fn failures(&self) -> (r: &Vec<Target>)
        ensures
            r@ == self@.progress.failures,
    {
        self.executor.failures()
    }

    /// How many mutation calls succeeded.
    pub fn succeeded(&self) -> (n: usize)
        requires
            self.wf(),
        ensures
            n == self@.progress.attempted - self@.progress.failures.len(),
    {
        proof {
            self.executor.lemma_wf_bounds();
        }
        self.executor.attempted() - self.executor.failures().len()
    }

    /// The words for a clear that found nothing to remove; `None` in every
    /// other case.
    pub fn notice(&self) -> (r: Option<&'static str>)
        ensures
            r.is_some() <==> nothing_to_delete(self@),
            r.is_some() ==> r.unwrap()@ == "No mappings to delete."@,
    {
        let clearing = match &self.intent {
            Intent::RemoveAll => true,
            _ => false,
        };
        if clearing && self.scan.entries().len() == 0 {
            match self.state() {
                CommandState::Completed => Some("No mappings to delete."),
                _ => None,
            }
        } else {
            None
        }
    }
}

/// What holds of every state that a command can reach: a pending read or
/// call really is pending, only a clear collects failures, and a halted
/// plan has left its error behind.
pub open spec fn command_inv(v: CommandView) -> bool {
    &&& v.stage == Stage::Start ==> v.scan == scan_start() && v.progress == progress_start(
        intent_plan(v.intent),
        Policy::FailFast,
    ) && v.error.is_none() && v.external_ip.is_none()
    &&& v.external_ip.is_some() ==> v.intent == (Intent::View { print_ip: true })
    &&& v.stage == Stage::AwaitingExternalIp ==> v.scan == scan_start() && v.intent
        == (Intent::View { print_ip: true })
    &&& v.stage == Stage::Reading ==> v.scan.status == ScanStatus::Scanning && v.scan.entries.len()
        < INDEX_LIMIT
    &&& (v.stage == Stage::AwaitingExternalIp || v.stage == Stage::Reading) ==> (v.intent is View
        || v.intent is RemoveAll)
    &&& v.stage == Stage::Mutating ==> progress_pending(v.progress).is_some()
    &&& v.stage != Stage::Done ==> v.error.is_none()
    &&& !(v.intent is RemoveAll) ==> v.progress.policy == Policy::FailFast
    &&& (v.progress.policy == Policy::FailFast && v.progress.failures.len() > 0)
        ==> v.progress.halted
    &&& v.progress.halted ==> v.error.is_some()
    &&& (v.intent is Add || v.intent is Remove) ==> v.scan == scan_start()
    &&& v.stage == Stage::Mutating && v.intent is RemoveAll ==> v.scan.status
        == ScanStatus::Complete
    &&& v.scan.status == ScanStatus::Aborted <==> v.error == Some(ErrorKind::EnumerationFailure)
    &&& v.scan.status == ScanStatus::Complete && v.intent is View ==> v.stage == Stage::Done
        && v.error.is_none()
    &&& v.stage == Stage::Done && v.error.is_none() && !(v.intent is Add || v.intent is Remove)
        ==> v.scan.status == ScanStatus::Complete
    &&& v.intent == (Intent::View { print_ip: true }) && (v.stage == Stage::Reading || v.scan
        != scan_start()) ==> v.external_ip.is_some()
    &&& v.intent is View ==> v.stage != Stage::Mutating && v.progress == progress_start(
        intent_plan(v.intent),
        Policy::FailFast,
    )
}

/// A fresh command is in a reachable state.
pub proof fn lemma_start_is_reachable(intent: Intent, timeout_seconds: u64)
    ensures
        command_inv(command_start(intent, timeout_seconds)),
{
}

/// Every step leads from a reachable state to a reachable state.
pub proof fn lemma_step_keeps_reachable(v: CommandView, event: Event)
    requires
        command_inv(v),
    ensures
        command_inv(command_step(v, event)),
{
    if v.stage == Stage::Start && event == Event::GatewayFound {
        match v.intent {
            Intent::Add { selector, external_port, .. } => {
                assert(selector_targets(selector, external_port).len() >= 1);
            },
            Intent::Remove { selector, external_port } => {
                assert(selector_targets(selector, external_port).len() >= 1);
            },
            _ => {},
        }
    }
}

/// In a reachable state the command asks for nothing more exactly when it
/// has reached one of its three final states.
pub proof fn lemma_stop_iff_terminal(v: CommandView)
    requires
        command_inv(v),
    ensures
        command_action(v) == Action::Stop <==> command_state(v).terminal(),
{
    if v.stage == Stage::Mutating {
        let target = progress_pending(v.progress).unwrap();
        assert(command_action(v) == call_for(v.intent, target));
    }
}

/// A step moves a command along `Start`, `GatewayAcquired` and then one
/// of the final states, never back: from `Start` it stays, acquires the
/// gateway or fails; with the gateway it stays or ends; at an end it
/// stays.  Only a clear can end `CompletedWithErrors`.
pub proof fn lemma_states_move_forward(v: CommandView, event: Event)
    requires
        command_inv(v),
    ensures
        ({
            let before = command_state(v);
            let after = command_state(command_step(v, event));
            &&& before == CommandState::Start ==> (after == CommandState::Start || after
                == CommandState::GatewayAcquired || after == CommandState::Failed)
            &&& before == CommandState::GatewayAcquired ==> after != CommandState::Start
            &&& before.terminal() ==> command_step(v, event) == v
            &&& after == CommandState::CompletedWithErrors ==> v.intent is RemoveAll
            &&& after == CommandState::Failed <==> command_step(v, event).error.is_some()
        }),
{
    lemma_step_keeps_reachable(v, event);
}

/// Whatever events arrive, a command stays within its reachable states.
pub proof fn lemma_run_keeps_reachable(v: CommandView, events: Seq<Event>)
    requires
        command_inv(v),
    ensures
        command_inv(command_run(v, events)),
    decreases events.len(),
{
    if events.len() > 0 {
        lemma_run_keeps_reachable(v, events.drop_last());
        lemma_step_keeps_reachable(command_run(v, events.drop_last()), events.last());
    }
}

/// How a listing can end.  It never ends `CompletedWithErrors`.  It ends
/// `Completed` exactly when its table walk is complete, which takes the
/// end-of-table signal; by then the gateway was found and, where the
/// listing asked for the external address, the address is known.  It ends
/// `Failed` with `EnumerationFailure` exactly when the walk was aborted.
pub proof fn lemma_listing_outcome(v: CommandView)
    requires
        command_inv(v),
        v.intent is View,
    ensures
        command_state(v) != CommandState::CompletedWithErrors,
        command_state(v) == CommandState::Completed <==> v.scan.status == ScanStatus::Complete,
        command_state(v) == CommandState::Completed && v.intent == (Intent::View {
            print_ip: true,
        }) ==> v.external_ip.is_some(),
        v.error == Some(ErrorKind::EnumerationFailure) <==> v.scan.status == ScanStatus::Aborted,
        v.error == Some(ErrorKind::EnumerationFailure) ==> command_state(v)
            == CommandState::Failed,
        v.progress.attempted == 0,
{
}

/// How a clear can end.  It ends without an error only when its table
/// walk is complete, which takes the end-of-table signal; no removal is
/// asked for before that.
pub proof fn lemma_clear_outcome(v: CommandView)
    requires
        command_inv(v),
        v.intent is RemoveAll,
    ensures
        (command_state(v) == CommandState::Completed || command_state(v)
            == CommandState::CompletedWithErrors) ==> v.scan.status == ScanStatus::Complete,
        command_action(v) is RemoveMapping ==> v.scan.status == ScanStatus::Complete,
        !(command_action(v) is AddMapping),
{
}

/// A command that is over stays as it is and asks for nothing more,
/// whatever events still arrive.
pub proof fn lemma_finished_command_is_stable(v: CommandView, events: Seq<Event>)
    requires
        v.stage == Stage::Done,
    ensures
        command_run(v, events) == v,
        command_action(command_run(v, events)) == Action::Stop,
        command_state(v).terminal(),
    decreases events.len(),
{
    if events.len() > 0 {
        lemma_finished_command_is_stable(v, events.drop_last());
    }
}

/// A failed discovery, whatever the intent, ends the command as `Failed`
/// before any other call is made.
pub proof fn lemma_discovery_failure_fails(intent: Intent, timeout_seconds: u64)
    ensures
        ({
            let start = command_start(intent, timeout_seconds);
            let end = command_step(start, Event::DiscoveryFailed);
            &&& command_action(start) == Action::Discover { timeout_seconds }
            &&& command_state(end) == CommandState::Failed
            &&& end.error == Some(ErrorKind::DiscoveryFailure)
            &&& command_action(end) == Action::Stop
        }),
{
}

/// When a table read fails with anything but the end-of-table signal, the
/// command is `Failed` with `EnumerationFailure`; it then asks for no
/// further call, so no removal is ever derived from the rows read before.
pub proof fn lemma_read_error_fails_command(v: CommandView, reply: EntryReply, later: Seq<Event>)
    requires
        v.stage == Stage::Reading,
        v.scan.status == ScanStatus::Scanning,
        is_read_error(reply),
    ensures
        ({
            let end = command_step(v, Event::Table(reply));
            &&& command_state(end) == CommandState::Failed
            &&& end.error == Some(ErrorKind::EnumerationFailure)
            &&& end.progress == v.progress
            &&& command_action(end) == Action::Stop
            &&& command_run(end, later) == end
            &&& command_action(command_run(end, later)) == Action::Stop
        }),
{
    lemma_finished_command_is_stable(command_step(v, Event::Table(reply)), later);
}

/// Clearing a table that turns out empty makes no mutation call and ends
/// `Completed`, with nothing to delete.
pub proof fn lemma_clear_empty_table(timeout_seconds: u64)
    ensures
        ({
            let start = command_start(Intent::RemoveAll, timeout_seconds);
            let reading = command_step(start, Event::GatewayFound);
            let end = command_step(reading, Event::Table(EntryReply::EndOfTable));
            &&& command_action(reading) == Action::ReadEntry { index: 0 }
            &&& command_action(end) == Action::Stop
            &&& command_state(end) == CommandState::Completed
            &&& end.progress.attempted == 0
            &&& nothing_to_delete(end)
        }),
{
}

/// With the selector `Both`, an add asks for the UDP mapping first.  It
/// asks for the TCP mapping only after the UDP call succeeded; when the
/// UDP call fails the command is `Failed` and the TCP call is never made.
pub proof fn lemma_add_both_order(
    external_port: u16,
    internal_host: Ipv4,
    internal_port: u16,
    lease_seconds: u32,
    description: String,
    timeout_seconds: u64,
)
    ensures
        ({
            let intent = Intent::Add {
                selector: ProtocolSelector::Both,
                external_port,
                internal_host,
                internal_port,
                lease_seconds,
                description,
            };
            let udp = Target { protocol: Protocol::Udp, external_port };
            let tcp = Target { protocol: Protocol::Tcp, external_port };
            let first = command_step(command_start(intent, timeout_seconds), Event::GatewayFound);
            let second = command_step(first, Event::MutationSucceeded);
            let refused = command_step(first, Event::MutationFailed);
            &&& command_action(first) == call_for(intent, udp)
            &&& command_action(second) == call_for(intent, tcp)
            &&& command_action(refused) == Action::Stop
            &&& command_state(refused) == CommandState::Failed
            &&& refused.error == Some(ErrorKind::MutationFailure)
            &&& command_state(command_step(second, Event::MutationSucceeded))
                == CommandState::Completed
            &&& command_state(command_step(second, Event::MutationFailed)) == CommandState::Failed
        }),
{
}

/// With the selector `Both`, a remove asks for the UDP mapping first and
/// for the TCP mapping only after the UDP call succeeded.
pub proof fn lemma_remove_both_order(external_port: u16, timeout_seconds: u64)
    ensures
        ({
            let intent = Intent::Remove { selector: ProtocolSelector::Both, external_port };
            let udp = Target { protocol: Protocol::Udp, external_port };
            let tcp = Target { protocol: Protocol::Tcp, external_port };
            let first = command_step(command_start(intent, timeout_seconds), Event::GatewayFound);
            let second = command_step(first, Event::MutationSucceeded);
            let refused = command_step(first, Event::MutationFailed);
            &&& command_action(first) == Action::RemoveMapping { target: udp }
            &&& command_action(second) == Action::RemoveMapping { target: tcp }
            &&& command_action(refused) == Action::Stop
            &&& command_state(refused) == CommandState::Failed
            &&& command_state(command_step(second, Event::MutationSucceeded))
                == CommandState::Completed
            &&& command_state(command_step(second, Event::MutationFailed)) == CommandState::Failed
        }),
{
}

} // verus!
