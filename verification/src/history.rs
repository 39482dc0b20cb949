//! The undo/redo index of a drawing's edit history and how commits, undo,
//! redo and crash recovery change it.
use vstd::prelude::*;
use crate::text::str_eq;
use crate::edit::{EditError, EditErrorV, ids_view};

verus! {

/// How many generations the history keeps at most.
pub const HISTORY_LIMIT: usize = 100;

pub fn history_limit() -> (limit: usize)
    ensures
        limit == 100,
{
    HISTORY_LIMIT
}

/// The index of a drawing's history: the entries that can be undone (oldest
/// first), those that can be redone (oldest first), and the generation limit.
#[derive(Debug, Clone)]
pub struct HistoryIndex {
    pub undo: Vec<String>,
    pub redo: Vec<String>,
    pub limit: usize,
}

pub struct HistoryIndexV {
    pub undo: Seq<Seq<char>>,
    pub redo: Seq<Seq<char>>,
    pub limit: usize,
}

impl View for HistoryIndex {
    type V = HistoryIndexV;

    open spec fn view(&self) -> HistoryIndexV {
        HistoryIndexV { undo: ids_view(self.undo@), redo: ids_view(self.redo@), limit: self.limit }
    }
}

/// A limit of 0 or above the maximum means the maximum.
pub open spec fn effective_limit(limit: usize) -> usize {
    if limit == 0 || limit > 100 {
        100
    } else {
        limit
    }
}

pub fn normalize_limit(index: &mut HistoryIndex)
    ensures
        final(index)@ == (HistoryIndexV { limit: effective_limit(old(index).limit), ..old(index)@ }),
{
    if index.limit == 0 || index.limit > HISTORY_LIMIT {
        index.limit = HISTORY_LIMIT;
    }
}

/// The index after a commit: the redo entries are dropped, the new entry is
/// the newest undo entry, and the oldest undo entries go until the limit
/// holds. Returns the index and the dropped entries, redo entries first.
pub open spec fn commit_spec(index: HistoryIndexV, id: Seq<char>) -> (HistoryIndexV, Seq<
    Seq<char>,
>) {
    let limit = effective_limit(index.limit);
    let undo = index.undo.push(id);
    let k = if undo.len() > limit {
        undo.len() - limit
    } else {
        0
    };
    (
        HistoryIndexV { undo: undo.subrange(k, undo.len() as int), redo: Seq::empty(), limit },
        index.redo + undo.subrange(0, k),
    )
}

/// Records a committed entry in the index and returns the entries that no
/// longer belong to the history.
pub fn commit_to_index(index: &mut HistoryIndex, history_id: String) -> (removed: Vec<String>)
    ensures
        (final(index)@, ids_view(removed@)) == commit_spec(old(index)@, history_id@),
{
    let ghost old_index = index@;
    normalize_limit(index);
    let mut removed: Vec<String> = Vec::new();
    let mut redo: Vec<String> = Vec::new();
    std::mem::swap(&mut redo, &mut index.redo);
    let mut i: usize = 0;
    while i < redo.len()
        invariant
            i <= redo.len(),
            ids_view(removed@) == ids_view(redo@).subrange(0, i as int),
        decreases redo.len() - i,
    {
        let ghost before = removed@;
        let c = redo[i].clone();
        removed.push(c);
        assert(removed@ == before.push(c));
        assert(ids_view(removed@) =~= ids_view(before).push(c@));
        assert(ids_view(redo@).subrange(0, i + 1) =~= ids_view(redo@).subrange(0, i as int).push(
            c@,
        ));
        i = i + 1;
    }
    assert(ids_view(redo@).subrange(0, i as int) =~= old_index.redo);
    index.undo.push(history_id);
    let ghost undo = old_index.undo.push(history_id@);
    assert(ids_view(index.undo@) =~= undo);
    let ghost limit = effective_limit(old_index.limit);
    let ghost k = if undo.len() > limit {
        undo.len() - limit
    } else {
        0
    };
    let ghost mut dropped: int = 0;
    assert(index.redo@.len() == 0);
    assert(undo.subrange(0, 0) =~= Seq::<Seq<char>>::empty());
    assert(old_index.redo + undo.subrange(0, 0) =~= old_index.redo);
    assert(undo.subrange(0, undo.len() as int) =~= undo);
    while index.undo.len() + index.redo.len() > index.limit
        invariant
            index.limit == limit,
            1 <= limit <= 100,
            index.redo@.len() == 0,
            0 <= dropped <= k,
            ids_view(index.undo@) == undo.subrange(dropped, undo.len() as int),
            ids_view(removed@) == old_index.redo + undo.subrange(0, dropped),
            k == (if undo.len() > limit { undo.len() - limit } else { 0 }),
        decreases index.undo.len(),
    {
        if index.undo.len() == 0 {
            if index.redo.len() > 0 {
                let oldest = index.redo.remove(0);
                removed.push(oldest);
            }
        } else {
            let ghost undo_before = index.undo@;
            let oldest = index.undo.remove(0);
            let ghost before = removed@;
            removed.push(oldest);
            proof {
                assert(index.undo@ == undo_before.remove(0));
                assert(ids_view(undo_before) == undo.subrange(dropped, undo.len() as int));
                assert(oldest@ == ids_view(undo_before)[0]);
                assert(ids_view(index.undo@) =~= ids_view(undo_before).drop_first());
                assert(ids_view(undo_before).drop_first() =~= undo.subrange(dropped + 1, undo.len() as int));
                assert(removed@ == before.push(oldest));
                assert(ids_view(removed@) =~= ids_view(before).push(oldest@));
                assert(old_index.redo + undo.subrange(0, dropped + 1) =~= (old_index.redo
                    + undo.subrange(0, dropped)).push(undo[dropped]));
                dropped = dropped + 1;
            }
        }
    }
    assert(dropped == k);
    let ghost r = index@;
    assert(r.redo =~= Seq::<Seq<char>>::empty());
    removed
}

/// The newest entry that can be undone, if any.
pub fn newest_undo(index: &HistoryIndex) -> (id: Option<String>)
    ensures
        match id {
            Some(s) => index@.undo.len() > 0 && s@ == index@.undo.last(),
            None => index@.undo.len() == 0,
        },
{
    if index.undo.len() == 0 {
        None
    } else {
        Some(index.undo[index.undo.len() - 1].clone())
    }
}

/// The newest entry that can be redone, if any.
pub fn newest_redo(index: &HistoryIndex) -> (id: Option<String>)
    ensures
        match id {
            Some(s) => index@.redo.len() > 0 && s@ == index@.redo.last(),
            None => index@.redo.len() == 0,
        },
{
    if index.redo.len() == 0 {
        None
    } else {
        Some(index.redo[index.redo.len() - 1].clone())
    }
}

/// The index after the newest undo entry was restored: it moves to the redo
/// entries.
pub open spec fn undo_spec(index: HistoryIndexV) -> HistoryIndexV {
    HistoryIndexV {
        undo: index.undo.drop_last(),
        redo: index.redo.push(index.undo.last()),
        limit: index.limit,
    }
}

/// The index after the newest redo entry was restored: it moves back to the
/// undo entries.
pub open spec fn redo_spec(index: HistoryIndexV) -> HistoryIndexV {
    HistoryIndexV {
        undo: index.undo.push(index.redo.last()),
        redo: index.redo.drop_last(),
        limit: index.limit,
    }
}

/// Moves the newest undo entry to the redo entries.
pub fn record_undo(index: &mut HistoryIndex)
    requires
        old(index)@.undo.len() > 0,
    ensures
        final(index)@ == undo_spec(old(index)@),
{
    let id = index.undo.pop().unwrap();
    index.redo.push(id);
    assert(ids_view(index.undo@) =~= old(index)@.undo.drop_last());
    assert(ids_view(index.redo@) =~= old(index)@.redo.push(old(index)@.undo.last()));
}

/// Moves the newest redo entry back to the undo entries.
pub fn record_redo(index: &mut HistoryIndex)
    requires
        old(index)@.redo.len() > 0,
    ensures
        final(index)@ == redo_spec(old(index)@),
{
    let id = index.redo.pop().unwrap();
    index.undo.push(id);
    assert(ids_view(index.redo@) =~= old(index)@.redo.drop_last());
    assert(ids_view(index.undo@) =~= old(index)@.undo.push(old(index)@.redo.last()));
}

/// Undo followed by redo gives the index back, and so does redo followed by
/// undo.
pub proof fn lemma_undo_redo_inverse(index: HistoryIndexV)
    ensures
        index.undo.len() > 0 ==> redo_spec(undo_spec(index)) == index,
        index.redo.len() > 0 ==> undo_spec(redo_spec(index)) == index,
{
    if index.undo.len() > 0 {
        assert(undo_spec(index).redo.last() == index.undo.last());
        assert(index.undo.drop_last().push(index.undo.last()) =~= index.undo);
        assert(index.redo.push(index.undo.last()).drop_last() =~= index.redo);
    }
    if index.redo.len() > 0 {
        assert(index.redo.drop_last().push(index.redo.last()) =~= index.redo);
        assert(index.undo.push(index.redo.last()).drop_last() =~= index.undo);
    }
}

/// A commit keeps the history within its limit, makes the new entry the
/// newest undo entry and leaves nothing to redo; every earlier entry is
/// either kept or reported as dropped, in order.
pub proof fn lemma_commit_bounds(index: HistoryIndexV, id: Seq<char>)
    ensures
        ({
            let (after, dropped) = commit_spec(index, id);
            &&& after.undo.len() + after.redo.len() <= after.limit
            &&& 1 <= after.limit <= 100
            &&& after.undo.last() == id
            &&& after.redo.len() == 0
            &&& index.redo + index.undo.push(id) == dropped.subrange(
                0,
                index.redo.len() as int,
            ) + (dropped.subrange(index.redo.len() as int, dropped.len() as int) + after.undo)
        }),
{
    let (after, dropped) = commit_spec(index, id);
    let undo = index.undo.push(id);
    let limit = effective_limit(index.limit);
    let k = if undo.len() > limit {
        undo.len() - limit
    } else {
        0
    };
    assert(dropped.subrange(0, index.redo.len() as int) =~= index.redo);
    assert(dropped.subrange(index.redo.len() as int, dropped.len() as int) =~= undo.subrange(0, k));
    assert(undo.subrange(0, k) + undo.subrange(k, undo.len() as int) =~= undo);
    assert(index.redo + undo =~= index.redo + (undo.subrange(0, k) + after.undo));
}

/// The kind of history transaction a journal records.
#[derive(Debug, Clone, Copy, PartialEq, Eq)]
pub enum HistoryTransactionKind {
    Commit,
    Restore { undo: bool },
}

/// The index after recovering a journaled transaction: a commit not yet in
/// the undo entries is recorded (and the redo entries dropped); an undo or
/// redo whose entry is still the newest on its side is completed; one that
/// was already completed changes nothing; anything else means the index does
/// not hold the transaction.
pub open spec fn recover_spec(
    index: HistoryIndexV,
    kind: HistoryTransactionKind,
    id: Seq<char>,
) -> Result<HistoryIndexV, EditErrorV> {
    match kind {
        HistoryTransactionKind::Commit => if index.undo.contains(id) {
            Ok(index)
        } else {
            Ok(HistoryIndexV { undo: index.undo.push(id), redo: Seq::empty(), limit: index.limit })
        },
        HistoryTransactionKind::Restore { undo: true } => if index.undo.len() > 0
            && index.undo.last() == id {
            Ok(undo_spec(index))
        } else if index.redo.len() > 0 && index.redo.last() == id {
            Ok(index)
        } else {
            Err(
                EditErrorV::HistoryCorrupt(
                    "undo recovery index does not contain the transaction"@,
                ),
            )
        },
        HistoryTransactionKind::Restore { undo: false } => if index.redo.len() > 0
            && index.redo.last() == id {
            Ok(redo_spec(index))
        } else if index.undo.len() > 0 && index.undo.last() == id {
            Ok(index)
        } else {
            Err(
                EditErrorV::HistoryCorrupt(
                    "redo recovery index does not contain the transaction"@,
                ),
            )
        },
    }
}

fn contains_id(ids: &Vec<String>, id: &str) -> (found: bool)
    ensures
        found == ids_view(ids@).contains(id@),
{
    let mut i: usize = 0;
    while i < ids.len()
        invariant
            i <= ids.len(),
            forall|j: int| 0 <= j < i ==> ids_view(ids@)[j] != id@,
        decreases ids.len() - i,
    {
        if str_eq(ids[i].as_str(), id) {
            assert(ids_view(ids@)[i as int] == id@);
            return true;
        }
        i = i + 1;
    }
    false
}

fn is_last(ids: &Vec<String>, id: &str) -> (b: bool)
    ensures
        b == (ids_view(ids@).len() > 0 && ids_view(ids@).last() == id@),
{
    ids.len() > 0 && str_eq(ids[ids.len() - 1].as_str(), id)
}

/// Brings the index up to date with a journaled transaction.
pub fn recover_history_index(index: &mut HistoryIndex, kind: HistoryTransactionKind, history_id: &str) -> (res:
    Result<(), EditError>)
    ensures
        match recover_spec(old(index)@, kind, history_id@) {
            Ok(after) => res is Ok && final(index)@ == after,
            Err(e) => res matches Err(x) && x@ == e,
        },
{
    match kind {
        HistoryTransactionKind::Commit => {
            if !contains_id(&index.undo, history_id) {
                index.redo.clear();
                index.undo.push(history_id.to_owned());
                assert(ids_view(index.undo@) =~= old(index)@.undo.push(history_id@));
                assert(ids_view(index.redo@) =~= Seq::<Seq<char>>::empty());
            }
            Ok(())
        },
        HistoryTransactionKind::Restore { undo: true } => {
            if is_last(&index.undo, history_id) {
                record_undo(index);
                Ok(())
            } else if !is_last(&index.redo, history_id) {
                Err(
                    EditError::HistoryCorrupt(
                        "undo recovery index does not contain the transaction".to_owned(),
                    ),
                )
            } else {
                Ok(())
            }
        },
        HistoryTransactionKind::Restore { undo: false } => {
            if is_last(&index.redo, history_id) {
                record_redo(index);
                Ok(())
            } else if !is_last(&index.undo, history_id) {
                Err(
                    EditError::HistoryCorrupt(
                        "redo recovery index does not contain the transaction".to_owned(),
                    ),
                )
            } else {
                Ok(())
            }
        },
    }
}

/// No id occurs twice among the undo and redo entries.
pub open spec fn ids_distinct(index: HistoryIndexV) -> bool {
    let all = index.undo + index.redo;
    forall|i: int, j: int| 0 <= i < j < all.len() ==> all[i] != all[j]
}

/// Recovery can be repeated: recovering the same transaction again, after
/// it succeeded, changes nothing (for an index whose ids are distinct).
pub proof fn lemma_recover_idempotent(
    index: HistoryIndexV,
    kind: HistoryTransactionKind,
    id: Seq<char>,
)
    requires
        ids_distinct(index),
        recover_spec(index, kind, id) is Ok,
    ensures
        recover_spec(recover_spec(index, kind, id)->Ok_0, kind, id) == recover_spec(index, kind, id),
{
    let after = recover_spec(index, kind, id)->Ok_0;
    let all = index.undo + index.redo;
    match kind {
        HistoryTransactionKind::Commit => {
            if !index.undo.contains(id) {
                assert(after.undo.contains(id)) by {
                    assert(after.undo[after.undo.len() - 1] == id);
                }
            }
        },
        HistoryTransactionKind::Restore { undo: true } => {
            if index.undo.len() > 0 && index.undo.last() == id {
                assert(after.redo.last() == id);
                if after.undo.len() > 0 && after.undo.last() == id {
                    assert(all[index.undo.len() - 2] == index.undo[index.undo.len() - 2]);
                    assert(all[index.undo.len() - 1] == index.undo[index.undo.len() - 1]);
                }
            }
        },
        HistoryTransactionKind::Restore { undo: false } => {
            if index.redo.len() > 0 && index.redo.last() == id {
                assert(after.undo.last() == id);
                if after.redo.len() > 0 && after.redo.last() == id {
                    let n = index.undo.len() as int;
                    let m = index.redo.len() as int;
                    assert(all[n + m - 2] == index.redo[m - 2]);
                    assert(all[n + m - 1] == index.redo[m - 1]);
                }
            }
        },
    }
}

} // verus!
