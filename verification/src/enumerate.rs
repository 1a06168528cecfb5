//! Walking the device's mapping table row by row until it says there are no
//! more rows.

use vstd::prelude::*;
use crate::address::{ipv4_of, parse_ipv4};
use crate::model::{Ipv4, MappingEntry, Protocol};

verus! {

/// Table rows are asked for at indices below this bound only.
pub const INDEX_LIMIT: u32 = 0xFFFF_FFFF;

/// What the device answered when asked for one row.
#[derive(Clone, Debug, PartialEq, Eq)]
pub enum EntryReply {
    /// The row at the index asked for.
    Entry(MappingEntry),
    /// The index lies past the last row: the normal end of a walk.
    EndOfTable,
    PermissionDenied,
    OtherDeviceError,
}

/// How far a walk over the table has come.
#[derive(Clone, Copy, Debug, PartialEq, Eq, Structural)]
pub enum ScanStatus {
    /// More rows may follow.
    Scanning,
    /// The table was read to its end.
    Complete,
    /// A read failed, or the table has more rows than can be asked for;
    /// the rows seen so far are not a snapshot.
    Aborted,
}

/// The mathematical state of a walk: the rows read so far, in table order.
pub struct Scan {
    pub entries: Seq<MappingEntry>,
    pub status: ScanStatus,
}

/// A walk that has read nothing yet.
pub open spec fn scan_start() -> Scan {
    Scan { entries: Seq::empty(), status: ScanStatus::Scanning }
}

/// The index that a walk in state `s` asks for next, if it asks at all.
pub open spec fn scan_next_index(s: Scan) -> Option<nat> {
    if s.status == ScanStatus::Scanning {
        Some(s.entries.len())
    } else {
        None
    }
}

/// The state after the device answered `reply` to the pending request.
/// Only the end-of-table signal completes a walk.  A row that would bring
/// the walk to `INDEX_LIMIT` rows cannot be followed by a request for the
/// signal, so it aborts the walk like a failed read.  A finished walk
/// takes no further replies.
pub open spec fn scan_step(s: Scan, reply: EntryReply) -> Scan {
    if s.status != ScanStatus::Scanning {
        s
    } else {
        match reply {
            EntryReply::Entry(e) => if s.entries.len() + 1 >= INDEX_LIMIT {
                Scan { entries: s.entries, status: ScanStatus::Aborted }
            } else {
                Scan { entries: s.entries.push(e), status: ScanStatus::Scanning }
            },
            EntryReply::EndOfTable => Scan { entries: s.entries, status: ScanStatus::Complete },
            _ => Scan { entries: s.entries, status: ScanStatus::Aborted },
        }
    }
}

/// The state after a whole series of replies, oldest first.
pub open spec fn scan_run(s: Scan, replies: Seq<EntryReply>) -> Scan
    decreases replies.len(),
{
    if replies.len() == 0 {
        s
    } else {
        scan_step(scan_run(s, replies.drop_last()), replies.last())
    }
}

/// The replies of a device that holds exactly `entries`, for indices below
/// `entries.len()`.
pub open spec fn entry_replies(entries: Seq<MappingEntry>) -> Seq<EntryReply> {
    Seq::new(entries.len(), |i: int| EntryReply::Entry(entries[i]))
}

/// Whether the reply is a failure, as opposed to a row or the end of the
/// table.
pub open spec fn is_read_error(reply: EntryReply) -> bool {
    reply == EntryReply::PermissionDenied || reply == EntryReply::OtherDeviceError
}

/// The reply that a row stands for, as the device sent it: with the
/// internal client in text.  A row whose internal client is no IPv4
/// address in dotted-quad form cannot be held and counts as a device
/// error.
pub fn entry_reply(
    remote_host: String,
    external_port: u16,
    protocol: Protocol,
    internal_client: &str,
    internal_port: u16,
    lease_seconds: u32,
    description: String,
) -> (r: EntryReply)
    ensures
        match ipv4_of(internal_client@) {
            Some(bits) => r == EntryReply::Entry(
                MappingEntry {
                    remote_host,
                    external_port,
                    protocol,
                    internal_client: Ipv4 { bits: bits as u32 },
                    internal_port,
                    lease_seconds,
                    description,
                },
            ),
            None => r == EntryReply::OtherDeviceError,
        },
{
    match parse_ipv4(internal_client) {
        Some(address) => EntryReply::Entry(
            MappingEntry {
                remote_host,
                external_port,
                protocol,
                internal_client: address,
                internal_port,
                lease_seconds,
                description,
            },
        ),
        None => EntryReply::OtherDeviceError,
    }
}

/// Collects the rows of one walk over the table.
pub struct MappingEnumerator {
    entries: Vec<MappingEntry>,
    status: ScanStatus,
}

impl View for MappingEnumerator {
    type V = Scan;

    closed spec fn view(&self) -> Scan {
        Scan { entries: self.entries@, status: self.status }
    }
}

impl MappingEnumerator {
    /// Indices stay below the limit for as long as the walk goes on.
    pub closed spec fn wf(&self) -> bool {
        &&& self.entries@.len() <= INDEX_LIMIT
        &&& self.status == ScanStatus::Scanning ==> self.entries@.len() < INDEX_LIMIT
    }

    /// A walk that has read nothing yet and will start at index 0.
    pub fn new() -> (r: Self)
        ensures
            r.wf(),
            r@ == scan_start(),
    {
        MappingEnumerator { entries: Vec::new(), status: ScanStatus::Scanning }
    }

    /// The index to ask the device for next; `None` once the walk is over.
    pub fn next_index(&self) -> (r: Option<u32>)
        requires
            self.wf(),
        ensures
            match r {
                Some(i) => scan_next_index(self@) == Some(i as nat),
                None => scan_next_index(self@).is_none(),
            },
    {
        match self.status {
            ScanStatus::Scanning => Some(self.entries.len() as u32),
            _ => None,
        }
    }

    /// Takes the device's answer to the request for `next_index()`.
    pub fn accept(&mut self, reply: EntryReply)
        requires
            old(self).wf(),
        ensures
            final(self).wf(),
            final(self)@ == scan_step(old(self)@, reply),
    {
        match self.status {
            ScanStatus::Scanning => {
                match reply {
                    EntryReply::Entry(e) => {
                        if self.entries.len() + 1 >= INDEX_LIMIT as usize {
                            self.status = ScanStatus::Aborted;
                        } else {
                            self.entries.push(e);
                        }
                    },
                    EntryReply::EndOfTable => {
                        self.status = ScanStatus::Complete;
                    },
                    _ => {
                        self.status = ScanStatus::Aborted;
                    },
                }
            },
            _ => {},
        }
    }

    /// How far the walk has come.
    pub fn status(&self) -> (r: ScanStatus)
        ensures
            r == self@.status,
    {
        self.status
    }

    /// The rows read so far, in table order.
    pub fn entries(&self) -> (r: &Vec<MappingEntry>)
        ensures
            r@ == self@.entries,
    {
        &self.entries
    }

    /// The snapshot, handed out only when the table was read to its end.
    pub fn snapshot(self) -> (r: Option<Vec<MappingEntry>>)
        ensures
            self@.status == ScanStatus::Complete ==> r.is_some() && r.unwrap()@ == self@.entries,
            self@.status != ScanStatus::Complete ==> r.is_none(),
    {
        match self.status {
            ScanStatus::Complete => Some(self.entries),
            _ => None,
        }
    }
}

/// Once a walk is over, no reply changes it and it asks for nothing more.
pub proof fn lemma_finished_scan_is_stable(s: Scan, replies: Seq<EntryReply>)
    requires
        s.status != ScanStatus::Scanning,
    ensures
        scan_run(s, replies) == s,
        scan_next_index(scan_run(s, replies)).is_none(),
    decreases replies.len(),
{
    if replies.len() > 0 {
        lemma_finished_scan_is_stable(s, replies.drop_last());
    }
}

/// A walk that still goes on has been handed rows only, and holds exactly
/// those rows, in order.
pub proof fn lemma_scanning_means_rows_only(replies: Seq<EntryReply>)
    requires
        scan_run(scan_start(), replies).status == ScanStatus::Scanning,
    ensures
        replies == entry_replies(scan_run(scan_start(), replies).entries),
    decreases replies.len(),
{
    if replies.len() > 0 {
        lemma_scanning_means_rows_only(replies.drop_last());
        assert(replies =~= entry_replies(scan_run(scan_start(), replies).entries)) by {
            assert(replies.drop_last().push(replies.last()) =~= replies);
        }
    } else {
        assert(replies =~= entry_replies(Seq::empty()));
    }
}

/// A walk is complete only when the end-of-table signal was received:
/// the signal stands at some place `k` among the replies, the `k`
/// replies before it are rows, and the walk holds exactly those `k` rows,
/// in order.
pub proof fn lemma_complete_means_end_of_table(replies: Seq<EntryReply>)
    requires
        scan_run(scan_start(), replies).status == ScanStatus::Complete,
    ensures
        exists|k: int|
            0 <= k < replies.len() && #[trigger] replies[k] == EntryReply::EndOfTable
                && replies.take(k) == entry_replies(scan_run(scan_start(), replies).entries),
    decreases replies.len(),
{
    assert(replies.len() > 0);
    let shorter = replies.drop_last();
    let before = scan_run(scan_start(), shorter);
    if before.status == ScanStatus::Complete {
        lemma_complete_means_end_of_table(shorter);
        let k = choose|k: int|
            0 <= k < shorter.len() && #[trigger] shorter[k] == EntryReply::EndOfTable
                && shorter.take(k) == entry_replies(before.entries);
        assert(replies[k] == shorter[k]);
        assert(replies.take(k) =~= shorter.take(k));
    } else {
        let k = replies.len() - 1;
        assert(before.status == ScanStatus::Scanning);
        lemma_scanning_means_rows_only(shorter);
        assert(replies[k] == EntryReply::EndOfTable);
        assert(replies.take(k) =~= shorter);
    }
}

/// While a device that holds `entries` answers, the walk has read exactly
/// the first `k` rows after `k` replies and asks for index `k` next.
pub proof fn lemma_scan_prefix(entries: Seq<MappingEntry>, k: int)
    requires
        entries.len() < INDEX_LIMIT,
        0 <= k <= entries.len(),
    ensures
        scan_run(scan_start(), entry_replies(entries).take(k)) == (Scan {
            entries: entries.take(k),
            status: ScanStatus::Scanning,
        }),
        scan_next_index(scan_run(scan_start(), entry_replies(entries).take(k))) == Some(k as nat),
    decreases k,
{
    let replies = entry_replies(entries).take(k);
    if k == 0 {
        assert(entries.take(0) =~= Seq::empty());
    } else {
        lemma_scan_prefix(entries, k - 1);
        assert(replies.drop_last() =~= entry_replies(entries).take(k - 1));
        assert(replies.last() == EntryReply::Entry(entries[k - 1]));
        assert(entries.take(k - 1).push(entries[k - 1]) =~= entries.take(k));
    }
}

/// A device that returns `entries` row by row and then reports the end of
/// the table yields exactly those rows, in order; the requests made are for
/// the indices `0` to `entries.len()` in turn, and none follows.
pub proof fn lemma_scan_full_table(entries: Seq<MappingEntry>)
    requires
        entries.len() < INDEX_LIMIT,
    ensures
        scan_run(scan_start(), entry_replies(entries).push(EntryReply::EndOfTable)) == (Scan {
            entries,
            status: ScanStatus::Complete,
        }),
        scan_next_index(
            scan_run(scan_start(), entry_replies(entries).push(EntryReply::EndOfTable)),
        ).is_none(),
        forall|k: int|
            0 <= k <= entries.len() ==> scan_next_index(
                #[trigger] scan_run(scan_start(), entry_replies(entries).take(k)),
            ) == Some(k as nat),
{
    let replies = entry_replies(entries).push(EntryReply::EndOfTable);
    lemma_scan_prefix(entries, entries.len() as int);
    assert(replies.drop_last() =~= entry_replies(entries).take(entries.len() as int));
    assert(entries.take(entries.len() as int) =~= entries);
    assert forall|k: int| 0 <= k <= entries.len() implies scan_next_index(
        #[trigger] scan_run(scan_start(), entry_replies(entries).take(k)),
    ) == Some(k as nat) by {
        lemma_scan_prefix(entries, k);
    }
}

/// When the read at index `k` fails, the walk is aborted after `k + 1`
/// requests and asks for nothing more, whatever is fed to it afterwards.
pub proof fn lemma_scan_read_error(
    entries: Seq<MappingEntry>,
    k: int,
    error: EntryReply,
    later: Seq<EntryReply>,
)
    requires
        entries.len() < INDEX_LIMIT,
        0 <= k < entries.len(),
        is_read_error(error),
    ensures
        scan_run(scan_start(), entry_replies(entries).take(k).push(error)).status
            == ScanStatus::Aborted,
        scan_run(scan_start(), entry_replies(entries).take(k).push(error) + later).status
            == ScanStatus::Aborted,
        scan_next_index(
            scan_run(scan_start(), entry_replies(entries).take(k).push(error) + later),
        ).is_none(),
{
    let replies = entry_replies(entries).take(k).push(error);
    lemma_scan_prefix(entries, k);
    assert(replies.drop_last() =~= entry_replies(entries).take(k));
    lemma_scan_run_concat(scan_start(), replies, later);
    lemma_finished_scan_is_stable(scan_run(scan_start(), replies), later);
}

/// Feeding two series of replies one after the other is feeding their
/// concatenation.
pub proof fn lemma_scan_run_concat(s: Scan, first: Seq<EntryReply>, second: Seq<EntryReply>)
    ensures
        scan_run(s, first + second) == scan_run(scan_run(s, first), second),
    decreases second.len(),
{
    if second.len() == 0 {
        assert(first + second =~= first);
    } else {
        lemma_scan_run_concat(s, first, second.drop_last());
        assert((first + second).drop_last() =~= first + second.drop_last());
        assert((first + second).last() == second.last());
    }
}

} // verus!
