//! Whole runs of a command against a device that behaves in a given way:
//! what the command has asked for and where it ends.

use vstd::prelude::*;
use crate::command::{
    command_action, command_run, command_start, command_state, command_step, lemma_clear_outcome,
    lemma_finished_command_is_stable, lemma_listing_outcome, lemma_run_keeps_reachable,
    lemma_start_is_reachable, Action, CommandView, Event, Intent, Stage,
};
use crate::enumerate::{
    entry_replies, is_read_error, lemma_scan_prefix, scan_run, scan_start, scan_step, EntryReply,
    Scan, ScanStatus, INDEX_LIMIT,
};
use crate::model::{CommandState, ErrorKind, Ipv4, MappingEntry, Target};
use crate::mutate::{
    failed_targets, lemma_collect_prefix, lemma_no_failure_iff_all_ok, progress_run,
    progress_start, snapshot_targets, Policy, Progress,
};

verus! {

/// The events by which a device hands over the given table replies.
pub open spec fn table_events(replies: Seq<EntryReply>) -> Seq<Event> {
    Seq::new(replies.len(), |i: int| Event::Table(replies[i]))
}

/// The events by which a device answers mutation calls: `true` for a call
/// that succeeded.
pub open spec fn outcome_events(outcomes: Seq<bool>) -> Seq<Event> {
    Seq::new(
        outcomes.len(),
        |i: int|
            if outcomes[i] {
                Event::MutationSucceeded
            } else {
                Event::MutationFailed
            },
    )
}

/// The events by which a device that holds `entries` hands over its whole
/// table: every row in turn, then the end-of-table signal.
pub open spec fn read_events(entries: Seq<MappingEntry>) -> Seq<Event> {
    table_events(entry_replies(entries).push(EntryReply::EndOfTable))
}

/// The events before the first table read of a listing: the gateway is
/// found and, where the listing asks for it, tells its external address.
pub open spec fn opening_events(print_ip: bool, address: Ipv4) -> Seq<Event> {
    if print_ip {
        seq![Event::GatewayFound, Event::ExternalIpKnown(address)]
    } else {
        seq![Event::GatewayFound]
    }
}

/// The events of a whole listing of a table that holds `entries`.
pub open spec fn view_events(entries: Seq<MappingEntry>, print_ip: bool, address: Ipv4) -> Seq<
    Event,
> {
    opening_events(print_ip, address) + read_events(entries)
}

/// The events of a whole clear: the gateway is found, the table holds
/// `entries`, and the removals are answered by `outcomes` in turn.
pub open spec fn clear_events(entries: Seq<MappingEntry>, outcomes: Seq<bool>) -> Seq<Event> {
    seq![Event::GatewayFound] + read_events(entries) + outcome_events(outcomes)
}

/// Feeding two series of events one after the other is feeding their
/// concatenation.
pub proof fn lemma_command_run_concat(v: CommandView, first: Seq<Event>, second: Seq<Event>)
    ensures
        command_run(v, first + second) == command_run(command_run(v, first), second),
    decreases second.len(),
{
    if second.len() == 0 {
        assert(first + second =~= first);
    } else {
        lemma_command_run_concat(v, first, second.drop_last());
        assert((first + second).drop_last() =~= first + second.drop_last());
        assert((first + second).last() == second.last());
    }
}

/// A command's table walk becomes complete only by the end-of-table
/// signal: if it was not complete before the events and is complete after
/// them, the signal is among them.
pub proof fn lemma_walk_completes_by_signal(v: CommandView, events: Seq<Event>)
    requires
        v.scan.status != ScanStatus::Complete,
        command_run(v, events).scan.status == ScanStatus::Complete,
    ensures
        exists|k: int|
            0 <= k < events.len() && #[trigger] events[k] == Event::Table(EntryReply::EndOfTable),
    decreases events.len(),
{
    assert(events.len() > 0);
    let shorter = events.drop_last();
    let before = command_run(v, shorter);
    if before.scan.status == ScanStatus::Complete {
        lemma_walk_completes_by_signal(v, shorter);
        let k = choose|k: int|
            0 <= k < shorter.len() && #[trigger] shorter[k] == Event::Table(
                EntryReply::EndOfTable,
            );
        assert(events[k] == shorter[k]);
    } else {
        assert(events[events.len() - 1] == Event::Table(EntryReply::EndOfTable));
    }
}

/// Whatever the device does, a listing never ends `CompletedWithErrors`,
/// and it ends `Completed` only after the end-of-table signal was
/// received; where it asked for the external address, it then knows it.
pub proof fn lemma_listing_completes_by_signal(
    print_ip: bool,
    timeout_seconds: u64,
    events: Seq<Event>,
)
    ensures
        ({
            let end = command_run(
                command_start(Intent::View { print_ip }, timeout_seconds),
                events,
            );
            &&& command_state(end) != CommandState::CompletedWithErrors
            &&& command_state(end) == CommandState::Completed ==> {
                &&& exists|k: int|
                    0 <= k < events.len() && #[trigger] events[k] == Event::Table(
                        EntryReply::EndOfTable,
                    )
                &&& print_ip ==> end.external_ip.is_some()
            }
        }),
{
    let start = command_start(Intent::View { print_ip }, timeout_seconds);
    let end = command_run(start, events);
    lemma_start_is_reachable(Intent::View { print_ip }, timeout_seconds);
    lemma_run_keeps_reachable(start, events);
    lemma_run_keeps_intent(start, events);
    lemma_listing_outcome(end);
    if command_state(end) == CommandState::Completed {
        lemma_walk_completes_by_signal(start, events);
    }
}

/// Whatever the device does, a clear asks for a removal, and ends
/// `Completed` or `CompletedWithErrors`, only after the end-of-table
/// signal was received.
pub proof fn lemma_clear_removes_after_signal(timeout_seconds: u64, events: Seq<Event>)
    ensures
        ({
            let end = command_run(command_start(Intent::RemoveAll, timeout_seconds), events);
            (command_action(end) is RemoveMapping || command_state(end) == CommandState::Completed
                || command_state(end) == CommandState::CompletedWithErrors) ==> exists|k: int|
                0 <= k < events.len() && #[trigger] events[k] == Event::Table(
                    EntryReply::EndOfTable,
                )
        }),
{
    let start = command_start(Intent::RemoveAll, timeout_seconds);
    let end = command_run(start, events);
    lemma_start_is_reachable(Intent::RemoveAll, timeout_seconds);
    lemma_run_keeps_reachable(start, events);
    lemma_run_keeps_intent(start, events);
    lemma_clear_outcome(end);
    if end.scan.status == ScanStatus::Complete {
        lemma_walk_completes_by_signal(start, events);
    }
}

/// No event changes the request that a command serves.
pub proof fn lemma_run_keeps_intent(v: CommandView, events: Seq<Event>)
    ensures
        command_run(v, events).intent == v.intent,
        command_run(v, events).timeout_seconds == v.timeout_seconds,
    decreases events.len(),
{
    if events.len() > 0 {
        lemma_run_keeps_intent(v, events.drop_last());
    }
}

/// While the table walk goes on, a reading command is its walk: it asks
/// for the walk's next index and changes in nothing else.
pub proof fn lemma_reading_follows_scan(v: CommandView, replies: Seq<EntryReply>)
    requires
        v.stage == Stage::Reading,
        scan_run(v.scan, replies).status == ScanStatus::Scanning,
    ensures
        command_run(v, table_events(replies)) == (CommandView {
            scan: scan_run(v.scan, replies),
            ..v
        }),
        command_action(command_run(v, table_events(replies))) == (Action::ReadEntry {
            index: scan_run(v.scan, replies).entries.len() as u32,
        }),
    decreases replies.len(),
{
    if replies.len() == 0 {
        assert(v.scan.status == ScanStatus::Scanning);
    } else {
        let shorter = replies.drop_last();
        if scan_run(v.scan, shorter).status != ScanStatus::Scanning {
            assert(scan_step(scan_run(v.scan, shorter), replies.last()) == scan_run(
                v.scan,
                shorter,
            ));
        }
        lemma_reading_follows_scan(v, shorter);
        assert(table_events(replies).drop_last() =~= table_events(shorter));
        assert(table_events(replies).last() == Event::Table(replies.last()));
    }
}

/// Under `ContinueAndCollect` a mutating command is its plan: each answer
/// is recorded, and the command is done exactly when the last call of the
/// plan has been answered.
pub proof fn lemma_mutating_follows_plan(v: CommandView, outcomes: Seq<bool>)
    requires
        v.stage == Stage::Mutating,
        v.progress.policy == Policy::ContinueAndCollect,
        !v.progress.halted,
        v.progress.attempted < v.progress.plan.len(),
        v.progress.attempted + outcomes.len() <= v.progress.plan.len(),
    ensures
        command_run(v, outcome_events(outcomes)) == (CommandView {
            progress: progress_run(v.progress, outcomes),
            stage: if v.progress.attempted + outcomes.len() == v.progress.plan.len() {
                Stage::Done
            } else {
                Stage::Mutating
            },
            ..v
        }),
        progress_run(v.progress, outcomes).attempted == v.progress.attempted + outcomes.len(),
        !progress_run(v.progress, outcomes).halted,
        progress_run(v.progress, outcomes).plan == v.progress.plan,
        progress_run(v.progress, outcomes).policy == v.progress.policy,
    decreases outcomes.len(),
{
    if outcomes.len() > 0 {
        let shorter = outcomes.drop_last();
        lemma_mutating_follows_plan(v, shorter);
        assert(outcome_events(outcomes).drop_last() =~= outcome_events(shorter));
        assert(outcome_events(outcomes).last() == if outcomes.last() {
            Event::MutationSucceeded
        } else {
            Event::MutationFailed
        });
    }
}

/// A command that is about to read index 0: after the first `k` rows were
/// handed over it holds exactly those rows and asks for index `k`.
proof fn lemma_reads_prefix(reading: CommandView, entries: Seq<MappingEntry>, k: int)
    requires
        entries.len() < INDEX_LIMIT,
        0 <= k <= entries.len(),
        reading.stage == Stage::Reading,
        reading.scan == scan_start(),
    ensures
        command_run(reading, table_events(entry_replies(entries).take(k))) == (CommandView {
            scan: Scan { entries: entries.take(k), status: ScanStatus::Scanning },
            ..reading
        }),
        command_action(command_run(reading, table_events(entry_replies(entries).take(k)))) == (
        Action::ReadEntry { index: k as u32 }),
{
    lemma_scan_prefix(entries, k);
    lemma_reading_follows_scan(reading, entry_replies(entries).take(k));
}

/// The same, with one more reply after the first `k` rows: the command is
/// then one step further.
proof fn lemma_reads_prefix_then(
    reading: CommandView,
    entries: Seq<MappingEntry>,
    k: int,
    reply: EntryReply,
)
    requires
        entries.len() < INDEX_LIMIT,
        0 <= k <= entries.len(),
        reading.stage == Stage::Reading,
        reading.scan == scan_start(),
    ensures
        command_run(reading, table_events(entry_replies(entries).take(k).push(reply)))
            == command_step(
            CommandView {
                scan: Scan { entries: entries.take(k), status: ScanStatus::Scanning },
                ..reading
            },
            Event::Table(reply),
        ),
{
    let shorter = table_events(entry_replies(entries).take(k));
    let longer = table_events(entry_replies(entries).take(k).push(reply));
    lemma_reads_prefix(reading, entries, k);
    assert(longer.drop_last() =~= shorter);
    assert(longer.last() == Event::Table(reply));
}

/// The same for the whole table: after the end-of-table signal the walk
/// holds exactly `entries`.
proof fn lemma_reads_whole_table(reading: CommandView, entries: Seq<MappingEntry>)
    requires
        entries.len() < INDEX_LIMIT,
        reading.stage == Stage::Reading,
        reading.scan == scan_start(),
    ensures
        command_run(reading, read_events(entries)) == command_step(
            CommandView { scan: Scan { entries, status: ScanStatus::Scanning }, ..reading },
            Event::Table(EntryReply::EndOfTable),
        ),
{
    lemma_reads_prefix_then(reading, entries, entries.len() as int, EntryReply::EndOfTable);
    assert(entry_replies(entries).take(entries.len() as int) =~= entry_replies(entries));
    assert(entries.take(entries.len() as int) =~= entries);
}

/// After its opening events a listing is about to read index 0, and knows
/// the external address exactly if it asked for it.
pub proof fn lemma_view_opening(print_ip: bool, address: Ipv4, timeout_seconds: u64)
    ensures
        command_run(
            command_start(Intent::View { print_ip }, timeout_seconds),
            opening_events(print_ip, address),
        ) == (CommandView {
            stage: Stage::Reading,
            external_ip: if print_ip {
                Some(address)
            } else {
                None
            },
            ..command_start(Intent::View { print_ip }, timeout_seconds)
        }),
{
    let start = command_start(Intent::View { print_ip }, timeout_seconds);
    let found = seq![Event::GatewayFound];
    assert(found.drop_last() =~= Seq::<Event>::empty());
    assert(command_run(start, found.drop_last()) == start);
    if print_ip {
        let opening = opening_events(print_ip, address);
        assert(opening.drop_last() =~= found);
        assert(opening.last() == Event::ExternalIpKnown(address));
        assert(command_run(start, found) == command_step(start, Event::GatewayFound));
    }
}

/// After the gateway was found a clear is about to read index 0.
proof fn lemma_clear_opening(timeout_seconds: u64)
    ensures
        command_run(command_start(Intent::RemoveAll, timeout_seconds), seq![Event::GatewayFound])
            == (CommandView {
            stage: Stage::Reading,
            ..command_start(Intent::RemoveAll, timeout_seconds)
        }),
{
    let start = command_start(Intent::RemoveAll, timeout_seconds);
    let found = seq![Event::GatewayFound];
    assert(found.drop_last() =~= Seq::<Event>::empty());
    assert(command_run(start, found.drop_last()) == start);
}

/// Listing a table that holds `entries`: after its opening the command
/// reads the indices `0` to `entries.len()` in turn, ends `Completed`,
/// and holds exactly those rows, in order.
pub proof fn lemma_view_lists_the_table(
    entries: Seq<MappingEntry>,
    print_ip: bool,
    address: Ipv4,
    timeout_seconds: u64,
)
    requires
        entries.len() < INDEX_LIMIT,
    ensures
        ({
            let start = command_start(Intent::View { print_ip }, timeout_seconds);
            let end = command_run(start, view_events(entries, print_ip, address));
            &&& command_state(end) == CommandState::Completed
            &&& end.scan.entries == entries
            &&& end.external_ip == if print_ip {
                Some(address)
            } else {
                None
            }
            &&& command_action(end) == Action::Stop
            &&& forall|k: int|
                0 <= k <= entries.len() ==> command_action(
                    #[trigger] command_run(
                        start,
                        opening_events(print_ip, address) + table_events(
                            entry_replies(entries).take(k),
                        ),
                    ),
                ) == (Action::ReadEntry { index: k as u32 })
        }),
{
    let start = command_start(Intent::View { print_ip }, timeout_seconds);
    let opening = opening_events(print_ip, address);
    let reading = command_run(start, opening);
    lemma_view_opening(print_ip, address, timeout_seconds);
    lemma_command_run_concat(start, opening, read_events(entries));
    lemma_reads_whole_table(reading, entries);
    assert forall|k: int| 0 <= k <= entries.len() implies command_action(
        #[trigger] command_run(start, opening + table_events(entry_replies(entries).take(k))),
    ) == (Action::ReadEntry { index: k as u32 }) by {
        lemma_command_run_concat(start, opening, table_events(entry_replies(entries).take(k)));
        lemma_reads_prefix(reading, entries, k);
    }
}

/// Clearing a table whose read at index `k` fails with anything but the
/// end-of-table signal: the command ends `Failed` with
/// `EnumerationFailure` after reading the indices `0` to `k`, it has made
/// no removal, and whatever events follow it asks for nothing more.
pub proof fn lemma_clear_stops_at_read_error(
    entries: Seq<MappingEntry>,
    k: int,
    error: EntryReply,
    later: Seq<Event>,
    timeout_seconds: u64,
)
    requires
        entries.len() < INDEX_LIMIT,
        0 <= k < entries.len(),
        is_read_error(error),
    ensures
        ({
            let start = command_start(Intent::RemoveAll, timeout_seconds);
            let events = seq![Event::GatewayFound] + table_events(
                entry_replies(entries).take(k).push(error),
            );
            let end = command_run(start, events + later);
            &&& end == command_run(start, events)
            &&& command_state(end) == CommandState::Failed
            &&& end.error == Some(ErrorKind::EnumerationFailure)
            &&& end.progress.attempted == 0
            &&& end.progress.plan.len() == 0
            &&& command_action(end) == Action::Stop
        }),
{
    let start = command_start(Intent::RemoveAll, timeout_seconds);
    let found = seq![Event::GatewayFound];
    let reads = table_events(entry_replies(entries).take(k).push(error));
    lemma_clear_opening(timeout_seconds);
    lemma_command_run_concat(start, found, reads);
    lemma_reads_prefix_then(command_run(start, found), entries, k, error);
    lemma_command_run_concat(start, found + reads, later);
    lemma_finished_command_is_stable(command_run(start, found + reads), later);
}

/// Clearing a table that holds `entries`, with the removals answered by
/// `outcomes`: after the walk, one removal is attempted for every row, in
/// table order and whatever the earlier answers were.  The command ends
/// `Completed` when every removal succeeded and `CompletedWithErrors`
/// otherwise, and the failures it reports are exactly the targets whose
/// removal failed.
pub proof fn lemma_clear_attempts_every_row(
    entries: Seq<MappingEntry>,
    outcomes: Seq<bool>,
    timeout_seconds: u64,
)
    requires
        entries.len() < INDEX_LIMIT,
        outcomes.len() == entries.len(),
    ensures
        ({
            let start = command_start(Intent::RemoveAll, timeout_seconds);
            let plan = snapshot_targets(entries);
            let end = command_run(start, clear_events(entries, outcomes));
            &&& end.scan.entries == entries
            &&& end.progress.plan == plan
            &&& end.progress.attempted == entries.len()
            &&& end.progress.failures == failed_targets(plan, outcomes)
            &&& end.error.is_none()
            &&& command_action(end) == Action::Stop
            &&& command_state(end) == if forall|i: int| 0 <= i < outcomes.len() ==> outcomes[i] {
                CommandState::Completed
            } else {
                CommandState::CompletedWithErrors
            }
            &&& forall|k: int|
                0 <= k < entries.len() ==> command_action(
                    #[trigger] command_run(start, clear_events(entries, outcomes.take(k))),
                ) == (Action::RemoveMapping { target: entries[k].spec_target() })
        }),
{
    let start = command_start(Intent::RemoveAll, timeout_seconds);
    let plan = snapshot_targets(entries);
    let found = seq![Event::GatewayFound];
    let walk = found + read_events(entries);
    lemma_clear_opening(timeout_seconds);
    lemma_command_run_concat(start, found, read_events(entries));
    lemma_reads_whole_table(command_run(start, found), entries);
    let walked = command_run(start, walk);
    assert(walked.progress == progress_start(plan, Policy::ContinueAndCollect));
    lemma_no_failure_iff_all_ok(plan, outcomes);
    if entries.len() == 0 {
        assert(outcome_events(outcomes) =~= Seq::<Event>::empty());
        assert(clear_events(entries, outcomes) =~= walk);
        assert(failed_targets(plan, outcomes) =~= Seq::<Target>::empty());
    } else {
        assert forall|k: int| 0 <= k <= entries.len() implies #[trigger] command_run(
            start,
            clear_events(entries, outcomes.take(k)),
        ) == (CommandView {
            progress: Progress {
                plan,
                policy: Policy::ContinueAndCollect,
                attempted: k as nat,
                failures: failed_targets(plan, outcomes.take(k)),
                halted: false,
            },
            stage: if k == entries.len() {
                Stage::Done
            } else {
                Stage::Mutating
            },
            ..walked
        }) by {
            lemma_command_run_concat(start, walk, outcome_events(outcomes.take(k)));
            lemma_mutating_follows_plan(walked, outcomes.take(k));
            lemma_collect_prefix(plan, outcomes.take(k));
        }
        assert(outcomes.take(entries.len() as int) =~= outcomes);
        let end = command_run(start, clear_events(entries, outcomes));
        assert(end.progress.failures == failed_targets(plan, outcomes));
    }
}

} // verus!
