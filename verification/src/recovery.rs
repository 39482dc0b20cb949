//! Crash recovery decisions: what to do with an interrupted source file
//! replacement, and with an interrupted history transaction, given what is
//! found on disk.
use vstd::prelude::*;
use crate::text::str_eq;
use crate::edit::{EditError, EditErrorV};
use crate::history::HistoryTransactionKind;

verus! {

/// The journal of a source file replacement: the target, the staging file
/// holding the replaced bytes, the revisions before and after, whether the
/// target exists before and after, and the operation.
#[derive(Debug, Clone)]
pub struct SourceTransactionJournal {
    pub target: String,
    pub staging: String,
    pub expected_revision: String,
    pub desired_revision: String,
    pub expected_exists: bool,
    pub desired_exists: bool,
    pub operation: String,
}

/// What recovery does with an interrupted replacement.
#[derive(Debug, Clone, Copy, PartialEq, Eq)]
pub enum SourceRecovery {
    /// The target is untouched: only the journal is removed.
    DiscardJournal,
    /// The target was deleted: the staging file, then the journal, is removed.
    RemoveStagingThenJournal,
    /// The replacement completed or was rolled back: the journal, then the
    /// staging file, is removed.
    RemoveJournalThenStaging,
    /// Neither state is found: every observed version is preserved, with the
    /// desired bytes when the target should exist afterwards.
    PreserveConflict { with_desired: bool },
}

pub open spec fn is_rev(observed: Option<Seq<char>>, rev: Seq<char>) -> bool {
    observed == Some(rev)
}

/// The recovery of a replacement from the revisions of the target and of the
/// staging file, where they can be read.
pub open spec fn source_recovery_spec(
    j: SourceTransactionJournal,
    target: Option<Seq<char>>,
    staging: Option<Seq<char>>,
) -> Result<SourceRecovery, EditErrorV> {
    if !j.expected_exists {
        Err(
            EditErrorV::HistoryCorrupt(
                "source recovery journal has an unsupported missing expected target"@,
            ),
        )
    } else if !j.desired_exists {
        if is_rev(target, j.expected_revision@) && staging is None {
            Ok(SourceRecovery::DiscardJournal)
        } else if target is None && (is_rev(staging, j.expected_revision@) || staging is None) {
            Ok(SourceRecovery::RemoveStagingThenJournal)
        } else {
            Ok(SourceRecovery::PreserveConflict { with_desired: false })
        }
    } else if is_rev(target, j.desired_revision@) && (is_rev(staging, j.expected_revision@)
        || staging is None) {
        Ok(SourceRecovery::RemoveJournalThenStaging)
    } else if is_rev(target, j.expected_revision@) {
        Ok(SourceRecovery::RemoveJournalThenStaging)
    } else {
        Ok(SourceRecovery::PreserveConflict { with_desired: true })
    }
}

pub open spec fn opt_view(o: Option<String>) -> Option<Seq<char>> {
    match o {
        Some(s) => Some(s@),
        None => None,
    }
}

fn rev_is(observed: &Option<String>, rev: &String) -> (b: bool)
    ensures
        b == is_rev(opt_view(*observed), rev@),
{
    match observed {
        Some(s) => str_eq(s.as_str(), rev.as_str()),
        None => false,
    }
}

/// Decides the recovery of an interrupted replacement.
pub fn source_recovery_action(
    journal: &SourceTransactionJournal,
    target_revision: &Option<String>,
    staging_revision: &Option<String>,
) -> (res: Result<SourceRecovery, EditError>)
    ensures
        match (res, source_recovery_spec(*journal, opt_view(*target_revision), opt_view(*staging_revision))) {
            (Ok(a), Ok(b)) => a == b,
            (Err(x), Err(y)) => x@ == y,
            _ => false,
        },
{
    if !journal.expected_exists {
        return Err(
            EditError::HistoryCorrupt(
                "source recovery journal has an unsupported missing expected target".to_owned(),
            ),
        );
    }
    let target_expected = rev_is(target_revision, &journal.expected_revision);
    let staging_expected = rev_is(staging_revision, &journal.expected_revision);
    if !journal.desired_exists {
        if target_expected && staging_revision.is_none() {
            return Ok(SourceRecovery::DiscardJournal);
        }
        if target_revision.is_none() && (staging_expected || staging_revision.is_none()) {
            return Ok(SourceRecovery::RemoveStagingThenJournal);
        }
        return Ok(SourceRecovery::PreserveConflict { with_desired: false });
    }
    if rev_is(target_revision, &journal.desired_revision) && (staging_expected
        || staging_revision.is_none()) {
        Ok(SourceRecovery::RemoveJournalThenStaging)
    } else if target_expected {
        Ok(SourceRecovery::RemoveJournalThenStaging)
    } else {
        Ok(SourceRecovery::PreserveConflict { with_desired: true })
    }
}

/// Which snapshots a history transaction moves between: whether the files
/// are expected in their before state, and whether they are desired in it.
/// A commit moves from before to after, an undo from after to before, and a
/// redo from before to after.
pub open spec fn recovery_sides_spec(kind: HistoryTransactionKind) -> (bool, bool) {
    match kind {
        HistoryTransactionKind::Commit => (true, false),
        HistoryTransactionKind::Restore { undo } => (!undo, undo),
    }
}

pub fn recovery_sides(kind: HistoryTransactionKind) -> (sides: (bool, bool))
    ensures
        sides == recovery_sides_spec(kind),
{
    match kind {
        HistoryTransactionKind::Commit => (true, false),
        HistoryTransactionKind::Restore { undo } => (!undo, undo),
    }
}

/// What recovery does with an interrupted history transaction.
#[derive(Debug, Clone, PartialEq, Eq)]
pub enum HistoryRecovery {
    /// A file matches neither state: the observed versions are preserved.
    Conflict,
    /// Nothing was published: the journal is removed, and so is the entry of
    /// an uncommitted commit.
    Abort { remove_entry: bool },
    /// Some files were published: the listed files are published in their
    /// desired state and the index is brought up to date.
    Finish { publish: Vec<usize> },
}

/// Whether each current file matches its expected and its desired state.
pub type FileMatches = Seq<(bool, bool)>;

pub open spec fn any_conflict(m: FileMatches) -> bool {
    exists|i: int| 0 <= i < m.len() && !(#[trigger] m[i]).0 && !m[i].1
}

pub open spec fn untouched(m: FileMatches) -> bool {
    forall|i: int| 0 <= i < m.len() ==> (#[trigger] m[i]).0 && !m[i].1
}

/// The files not yet in their desired state, in order.
pub open spec fn to_publish(m: FileMatches) -> Seq<usize>
    decreases m.len(),
{
    if m.len() == 0 {
        Seq::empty()
    } else if !m.last().1 {
        to_publish(m.drop_last()).push((m.len() - 1) as usize)
    } else {
        to_publish(m.drop_last())
    }
}

/// Decides the recovery of an interrupted history transaction from how each
/// file of the entry compares with its expected and desired snapshots.
pub fn history_recovery_action(kind: HistoryTransactionKind, matches: &Vec<(bool, bool)>) -> (action:
    HistoryRecovery)
    ensures
        any_conflict(matches@) ==> action == HistoryRecovery::Conflict,
        !any_conflict(matches@) && untouched(matches@) ==> action == (HistoryRecovery::Abort {
            remove_entry: kind is Commit,
        }),
        !any_conflict(matches@) && !untouched(matches@) ==> (action matches HistoryRecovery::Finish {
            publish,
        } && publish@ == to_publish(matches@)),
{
    let mut all_expected = true;
    let mut any_desired = false;
    let mut publish: Vec<usize> = Vec::new();
    let mut i: usize = 0;
    while i < matches.len()
        invariant
            i <= matches@.len(),
            forall|k: int| 0 <= k < i ==> (#[trigger] matches@[k]).0 || matches@[k].1,
            all_expected == forall|k: int| 0 <= k < i ==> (#[trigger] matches@[k]).0,
            any_desired == exists|k: int| 0 <= k < i && (#[trigger] matches@[k]).1,
            publish@ == to_publish(matches@.subrange(0, i as int)),
        decreases matches.len() - i,
    {
        let (matches_expected, matches_desired) = matches[i];
        if !matches_expected && !matches_desired {
            assert(!matches@[i as int].0 && !matches@[i as int].1);
            return HistoryRecovery::Conflict;
        }
        proof {
            let p = matches@.subrange(0, i + 1);
            assert(p.drop_last() =~= matches@.subrange(0, i as int));
            assert(p.last() == matches@[i as int]);
        }
        if !matches_desired {
            publish.push(i);
        }
        all_expected = all_expected && matches_expected;
        any_desired = any_desired || matches_desired;
        proof {
            if !all_expected {
                if forall|k: int| 0 <= k < i + 1 ==> (#[trigger] matches@[k]).0 {
                    assert(matches@[i as int].0);
                }
            }
            if any_desired && !matches_desired {
                let k = choose|k: int| 0 <= k < i && (#[trigger] matches@[k]).1;
                assert(0 <= k < i + 1 && matches@[k].1);
            }
            if matches_desired {
                assert(0 <= i < i + 1 && matches@[i as int].1);
            }
        }
        i = i + 1;
    }
    assert(matches@.subrange(0, i as int) =~= matches@);
    assert(!any_conflict(matches@));
    if all_expected && !any_desired {
        return HistoryRecovery::Abort {
            remove_entry: matches!(kind, HistoryTransactionKind::Commit),
        };
    }
    proof {
        if untouched(matches@) {
            assert(forall|k: int| 0 <= k < i ==> (#[trigger] matches@[k]).0);
            if any_desired {
                let k = choose|k: int| 0 <= k < i && (#[trigger] matches@[k]).1;
                assert(!matches@[k].1);
            }
        }
    }
    HistoryRecovery::Finish { publish }
}

} // verus!
