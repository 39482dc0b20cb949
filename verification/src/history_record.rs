//! History entries: the metadata recorded for one edit (the files before and
//! after it and their manifest revisions), the entries shown to a drawing,
//! and which entries clearing a drawing's history keeps.
use vstd::prelude::*;
use crate::text::{concat_str, debug_str, debug_quoted, str_eq};
use crate::edit::{
    DrawingEditResult, EditError, EditErrorV, HistoryFileInput, HistoryFileRevision, HistoryFileSnapshot,
    DrawingHistoryEntry, DrawingHistoryState, DrawingHistoryRequest, PermissionsSnapshot, blake3_hex,
    revision, ids_view,
    named_parts, next_slash, lemma_next_slash, drawing_name_ok, validate_drawing_name,
};
use crate::manifest::{is_manifest_revision, manifest_revision};
use crate::history::{
    HistoryIndex, HistoryIndexV, effective_limit, undo_spec, redo_spec, record_undo, record_redo,
};

verus! {

/// What is recorded of one edit: who made it and when, the entities it
/// touched, and each file before and after it.
#[derive(Debug, Clone)]
pub struct HistoryMetadata {
    pub history_id: String,
    pub drawing: String,
    pub scope: String,
    pub operation: String,
    pub timestamp: String,
    pub entity_ids: Vec<String>,
    pub changed_files: Vec<String>,
    pub affected_files: Vec<String>,
    pub files: Vec<HistoryFileSnapshot>,
    pub before_manifest_revision: String,
    pub after_manifest_revision: String,
}

/// A history entry being prepared: where the history lives, its metadata,
/// whether it was committed, the files whose after state is recorded, and
/// the journal written for it.
#[derive(Debug)]
pub struct HistoryStage {
    pub root: String,
    pub metadata: HistoryMetadata,
    pub committed: bool,
    pub prepared_after: Vec<String>,
    pub journal_path: Option<String>,
}

impl HistoryStage {
    pub fn history_id(&self) -> (id: &str)
        ensures
            id@ == self.metadata.history_id@,
    {
        self.metadata.history_id.as_str()
    }
}

// ---------------------------------------------------------------------------
// Entries as shown
// ---------------------------------------------------------------------------

/// The public form of an entry: the metadata, with the first file's before
/// and after revisions as the entry's revisions (empty without files).
pub open spec fn entry_of(m: HistoryMetadata, e: DrawingHistoryEntry) -> bool {
    &&& e.history_id == m.history_id
    &&& e.drawing == m.drawing
    &&& e.operation == m.operation
    &&& e.timestamp == m.timestamp
    &&& e.before_revision@ == if m.files@.len() > 0 {
        m.files@[0].before_revision@
    } else {
        ""@
    }
    &&& e.after_revision@ == if m.files@.len() > 0 {
        m.files@[0].after_revision@
    } else {
        ""@
    }
    &&& e.entity_ids == m.entity_ids
    &&& e.scope == m.scope
    &&& e.changed_files == m.changed_files
    &&& e.affected_files == m.affected_files
    &&& e.files == m.files
    &&& e.before_manifest_revision == m.before_manifest_revision
    &&& e.after_manifest_revision == m.after_manifest_revision
}

pub fn public_history_entry(metadata: HistoryMetadata) -> (entry: DrawingHistoryEntry)
    ensures
        entry_of(metadata, entry),
{
    let ghost m = metadata;
    let (before_revision, after_revision) = if metadata.files.len() > 0 {
        (metadata.files[0].before_revision.clone(), metadata.files[0].after_revision.clone())
    } else {
        (String::new(), String::new())
    };
    proof {
        reveal_strlit("");
        if m.files@.len() == 0 {
            assert(before_revision@ =~= ""@);
            assert(after_revision@ =~= ""@);
        }
    }
    DrawingHistoryEntry {
        history_id: metadata.history_id,
        drawing: metadata.drawing,
        operation: metadata.operation,
        timestamp: metadata.timestamp,
        before_revision,
        after_revision,
        entity_ids: metadata.entity_ids,
        scope: metadata.scope,
        changed_files: metadata.changed_files,
        affected_files: metadata.affected_files,
        files: metadata.files,
        before_manifest_revision: metadata.before_manifest_revision,
        after_manifest_revision: metadata.after_manifest_revision,
    }
}

/// A history id names one directory of plain components: it is not empty,
/// not absolute, does not start with `.` as a directory, and has no `..`.
pub open spec fn history_id_ok(s: Seq<char>) -> bool {
    &&& s.len() > 0
    &&& s[0] != '/'
    &&& !(s == "."@ || (s.len() >= 2 && s[0] == '.' && s[1] == '/'))
    &&& forall|k: int| 0 <= k < named_parts(s, 0).len() ==> named_parts(s, 0)[k] != ".."@
}

pub fn validate_history_id(history_id: &str) -> (res: Result<(), EditError>)
    ensures
        match res {
            Ok(()) => history_id_ok(history_id@),
            Err(e) => !history_id_ok(history_id@) && e@ == EditErrorV::HistoryCorrupt(
                "invalid history id"@,
            ),
        },
{
    let chars = crate::text::chars_of(history_id);
    let ghost s = chars@;
    proof {
        reveal_strlit(".");
        reveal_strlit("..");
        assert(".."@.len() == 2 && ".."@[0] == '.' && ".."@[1] == '.');
    }
    let bad = chars.len() == 0 || chars[0] == '/' || (chars.len() == 1 && chars[0] == '.') || (
    chars.len() >= 2 && chars[0] == '.' && chars[1] == '/');
    proof {
        if chars.len() == 1 && s == "."@ {
            assert(s[0] == '.');
        }
        if chars.len() == 1 && chars[0] == '.' {
            assert(s =~= "."@);
        }
    }
    if bad {
        return Err(EditError::HistoryCorrupt("invalid history id".to_owned()));
    }
    let mut i: usize = 0;
    let ghost mut seen: Seq<Seq<char>> = Seq::empty();
    while i < chars.len()
        invariant
            s == chars@,
            s == history_id@,
            i <= chars.len(),
            named_parts(s, 0) == seen + named_parts(s, i as int),
            forall|k: int| 0 <= k < seen.len() ==> seen[k] != ".."@,
            ".."@.len() == 2 && ".."@[0] == '.' && ".."@[1] == '.',
            s.len() > 0 && s[0] != '/' && !(s == "."@ || (s.len() >= 2 && s[0] == '.' && s[1]
                == '/')),
        decreases chars.len() - i,
    {
        let mut k = i;
        while k < chars.len() && chars[k] != '/'
            invariant
                i <= k <= chars.len(),
                s == chars@,
                next_slash(s, i as int) == next_slash(s, k as int),
            decreases chars.len() - k,
        {
            k = k + 1;
        }
        proof {
            lemma_next_slash(s, i as int);
        }
        let ghost part = s.subrange(i as int, k as int);
        let ghost rest = named_parts(s, k + 1);
        let dot = k - i == 1 && chars[i] == '.';
        let dot_dot = k - i == 2 && chars[i] == '.' && chars[i + 1] == '.';
        proof {
            reveal_strlit(".");
            if dot {
                assert(part =~= "."@);
            }
            if part == "."@ {
                assert(part.len() == 1 && part[0] == s[i as int]);
            }
            if dot_dot {
                assert(part =~= ".."@);
            }
            if part == ".."@ {
                assert(part.len() == 2 && part[0] == s[i as int] && part[1] == s[i + 1]);
            }
        }
        if k > i && !dot {
            proof {
                assert(named_parts(s, i as int) == seq![part] + rest);
            }
            if dot_dot {
                proof {
                    assert(named_parts(s, 0) == seen + (seq![part] + rest));
                    assert(named_parts(s, 0)[seen.len() as int] == part);
                }
                return Err(EditError::HistoryCorrupt("invalid history id".to_owned()));
            }
            proof {
                seen = seen.push(part);
            }
        } else {
            proof {
                assert(named_parts(s, i as int) == rest);
            }
        }
        proof {
            assert(named_parts(s, 0) =~= seen + named_parts(s, (k + 1) as int)) by {
                if k + 1 > chars.len() {
                    assert(named_parts(s, (k + 1) as int) == Seq::<Seq<char>>::empty());
                }
            }
        }
        if k >= chars.len() {
            i = chars.len();
            proof {
                assert(named_parts(s, i as int) == Seq::<Seq<char>>::empty());
            }
        } else {
            i = k + 1;
        }
    }
    assert(named_parts(s, i as int) == Seq::<Seq<char>>::empty());
    assert(seen + Seq::<Seq<char>>::empty() =~= seen);
    Ok(())
}

/// Checks that metadata read for an id names that id.
pub fn checked_history_metadata(metadata: HistoryMetadata, history_id: &str, path: &str) -> (res:
    Result<HistoryMetadata, EditError>)
    ensures
        metadata.history_id@ == history_id@ ==> res == Ok::<HistoryMetadata, EditError>(metadata),
        metadata.history_id@ != history_id@ ==> (res matches Err(e) && e@
            == EditErrorV::HistoryCorrupt(path@ + " has mismatched history id"@)),
{
    if !str_eq(metadata.history_id.as_str(), history_id) {
        return Err(EditError::HistoryCorrupt(concat_str(path, " has mismatched history id")));
    }
    Ok(metadata)
}

// ---------------------------------------------------------------------------
// Staging an entry
// ---------------------------------------------------------------------------

/// The snapshot of a file before an edit: its revision, and where its bytes
/// are kept when it exists.
pub open spec fn before_snapshot_of(f: HistoryFileInput, s: HistoryFileSnapshot) -> bool {
    &&& s.relative_path == f.relative_path
    &&& s.exists == f.exists
    &&& s.before_revision@ == blake3_hex(f.bytes@)
    &&& s.after_revision@ == ""@
    &&& match s.before_snapshot {
        Some(p) => f.exists && p@ == "before/"@ + f.relative_path@,
        None => !f.exists,
    }
    &&& s.after_snapshot is None
    &&& s.before_permissions == f.permissions
    &&& s.after_permissions is None
}

pub fn before_snapshot(file: &HistoryFileInput) -> (snapshot: HistoryFileSnapshot)
    ensures
        before_snapshot_of(*file, snapshot),
{
    let before = if file.exists {
        Some(concat_str("before/", file.relative_path.as_str()))
    } else {
        None
    };
    let after_revision = String::new();
    proof {
        reveal_strlit("");
        assert(after_revision@ =~= ""@);
    }
    HistoryFileSnapshot {
        relative_path: file.relative_path.clone(),
        exists: file.exists,
        before_revision: revision(file.bytes.as_slice()),
        after_revision,
        before_snapshot: before,
        after_snapshot: None,
        before_permissions: file.permissions,
        after_permissions: None,
    }
}

pub open spec fn paths_view(files: Seq<HistoryFileInput>) -> Seq<Seq<char>> {
    files.map_values(|f: HistoryFileInput| f.relative_path@)
}

/// The manifest of the files before an edit.
pub open spec fn before_manifest(files: Seq<HistoryFileSnapshot>) -> Seq<HistoryFileRevision> {
    files.map_values(
        |f: HistoryFileSnapshot|
            HistoryFileRevision {
                relative_path: f.relative_path,
                revision: f.before_revision,
                exists: f.exists,
            },
    )
}

/// The manifest of the files after an edit: a file exists afterwards when
/// its after snapshot was kept.
pub open spec fn after_manifest(files: Seq<HistoryFileSnapshot>) -> Seq<HistoryFileRevision> {
    files.map_values(
        |f: HistoryFileSnapshot|
            HistoryFileRevision {
                relative_path: f.relative_path,
                revision: f.after_revision,
                exists: f.after_snapshot is Some,
            },
    )
}

fn clone_strings(v: &Vec<String>) -> (out: Vec<String>)
    ensures
        out@ == v@,
{
    let mut out: Vec<String> = Vec::new();
    let mut i: usize = 0;
    while i < v.len()
        invariant
            i <= v@.len(),
            out@ =~= v@.subrange(0, i as int),
        decreases v.len() - i,
    {
        out.push(v[i].clone());
        i = i + 1;
    }
    assert(v@.subrange(0, i as int) =~= v@);
    out
}

fn file_paths(files: &Vec<HistoryFileInput>) -> (out: Vec<String>)
    ensures
        ids_view(out@) == paths_view(files@),
{
    let mut out: Vec<String> = Vec::new();
    let mut i: usize = 0;
    while i < files.len()
        invariant
            i <= files@.len(),
            ids_view(out@) =~= paths_view(files@).subrange(0, i as int),
        decreases files.len() - i,
    {
        let ghost before = ids_view(out@);
        out.push(files[i].relative_path.clone());
        assert(ids_view(out@) =~= before.push(files@[i as int].relative_path@));
        i = i + 1;
    }
    assert(paths_view(files@).subrange(0, i as int) =~= paths_view(files@));
    out
}

fn manifest_of(files: &Vec<HistoryFileSnapshot>, after: bool) -> (out: Vec<HistoryFileRevision>)
    ensures
        out@ == if after {
            after_manifest(files@)
        } else {
            before_manifest(files@)
        },
{
    let mut out: Vec<HistoryFileRevision> = Vec::new();
    let mut i: usize = 0;
    while i < files.len()
        invariant
            i <= files@.len(),
            out@ =~= (if after {
                after_manifest(files@)
            } else {
                before_manifest(files@)
            }).subrange(0, i as int),
        decreases files.len() - i,
    {
        let f = &files[i];
        if after {
            out.push(
                HistoryFileRevision {
                    relative_path: f.relative_path.clone(),
                    revision: f.after_revision.clone(),
                    exists: f.after_snapshot.is_some(),
                },
            );
        } else {
            out.push(
                HistoryFileRevision {
                    relative_path: f.relative_path.clone(),
                    revision: f.before_revision.clone(),
                    exists: f.exists,
                },
            );
        }
        i = i + 1;
    }
    assert((if after {
        after_manifest(files@)
    } else {
        before_manifest(files@)
    }).subrange(0, i as int) =~= if after {
        after_manifest(files@)
    } else {
        before_manifest(files@)
    });
    out
}

/// The metadata of a new entry: a before snapshot of every file, each file
/// changed and affected, the before manifest's revision, and no after state.
pub fn stage_metadata(
    history_id: String,
    drawing: &str,
    scope: &str,
    operation: &str,
    timestamp: String,
    entity_ids: &Vec<String>,
    before_files: &Vec<HistoryFileInput>,
) -> (metadata: HistoryMetadata)
    ensures
        metadata.history_id == history_id,
        metadata.drawing@ == drawing@,
        metadata.scope@ == scope@,
        metadata.operation@ == operation@,
        metadata.timestamp == timestamp,
        metadata.entity_ids@ == entity_ids@,
        ids_view(metadata.changed_files@) == paths_view(before_files@),
        ids_view(metadata.affected_files@) == paths_view(before_files@),
        metadata.files@.len() == before_files@.len(),
        forall|i: int|
            0 <= i < before_files@.len() ==> before_snapshot_of(
                before_files@[i],
                #[trigger] metadata.files@[i],
            ),
        is_manifest_revision(before_manifest(metadata.files@), metadata.before_manifest_revision@),
        metadata.after_manifest_revision@ == ""@,
{
    let mut files: Vec<HistoryFileSnapshot> = Vec::new();
    let mut i: usize = 0;
    while i < before_files.len()
        invariant
            i <= before_files@.len(),
            files@.len() == i,
            forall|k: int|
                0 <= k < i ==> before_snapshot_of(before_files@[k], #[trigger] files@[k]),
        decreases before_files.len() - i,
    {
        files.push(before_snapshot(&before_files[i]));
        i = i + 1;
    }
    let manifest = manifest_of(&files, false);
    let before_manifest_revision = manifest_revision(&manifest);
    let after_manifest_revision = String::new();
    proof {
        reveal_strlit("");
        assert(after_manifest_revision@ =~= ""@);
    }
    HistoryMetadata {
        history_id,
        drawing: drawing.to_owned(),
        scope: scope.to_owned(),
        operation: operation.to_owned(),
        timestamp,
        entity_ids: clone_strings(entity_ids),
        changed_files: file_paths(before_files),
        affected_files: file_paths(before_files),
        files,
        before_manifest_revision,
        after_manifest_revision,
    }
}

/// The first snapshot of the path, if any.
pub open spec fn snapshot_index(files: Seq<HistoryFileSnapshot>, path: Seq<char>) -> Option<int> {
    if exists|i: int| 0 <= i < files.len() && (#[trigger] files[i]).relative_path@ == path {
        Some(
            choose|i: int|
                0 <= i < files.len() && (#[trigger] files[i]).relative_path@ == path && forall|j: int|
                    0 <= j < i ==> files[j].relative_path@ != path,
        )
    } else {
        None
    }
}

/// The snapshot of a file after an edit: its existence, revision and
/// permissions then, and where its bytes are kept when it exists.
pub open spec fn after_snapshot_of(
    old_snapshot: HistoryFileSnapshot,
    f: HistoryFileInput,
    s: HistoryFileSnapshot,
) -> bool {
    &&& s.relative_path == old_snapshot.relative_path
    &&& s.exists == f.exists
    &&& s.before_revision == old_snapshot.before_revision
    &&& s.after_revision@ == blake3_hex(f.bytes@)
    &&& s.before_snapshot == old_snapshot.before_snapshot
    &&& match s.after_snapshot {
        Some(p) => f.exists && p@ == "after/"@ + f.relative_path@,
        None => !f.exists,
    }
    &&& s.before_permissions == old_snapshot.before_permissions
    &&& s.after_permissions == f.permissions
}

/// The set of paths with a recorded after state, as a list without repeats.
pub open spec fn with_path(prepared: Seq<Seq<char>>, path: Seq<char>) -> Seq<Seq<char>> {
    if prepared.contains(path) {
        prepared
    } else {
        prepared.push(path)
    }
}

fn contains_string(v: &Vec<String>, s: &str) -> (found: bool)
    ensures
        found == ids_view(v@).contains(s@),
{
    let mut i: usize = 0;
    while i < v.len()
        invariant
            i <= v@.len(),
            forall|j: int| 0 <= j < i ==> v@[j]@ != s@,
        decreases v.len() - i,
    {
        if str_eq(v[i].as_str(), s) {
            assert(ids_view(v@)[i as int] == s@);
            return true;
        }
        i = i + 1;
    }
    proof {
        if ids_view(v@).contains(s@) {
            let j = choose|j: int| 0 <= j < ids_view(v@).len() && ids_view(v@)[j] == s@;
            assert(v@[j]@ == s@);
        }
    }
    false
}

fn find_snapshot(files: &Vec<HistoryFileSnapshot>, path: &str) -> (index: Option<usize>)
    ensures
        match index {
            Some(i) => snapshot_index(files@, path@) == Some(i as int) && i < files@.len(),
            None => snapshot_index(files@, path@) is None,
        },
{
    let mut i: usize = 0;
    while i < files.len()
        invariant
            i <= files@.len(),
            forall|j: int| 0 <= j < i ==> files@[j].relative_path@ != path@,
        decreases files.len() - i,
    {
        if str_eq(files[i].relative_path.as_str(), path) {
            proof {
                let k = snapshot_index(files@, path@)->Some_0;
                assert(files@[i as int].relative_path@ == path@);
                assert(k == i) by {
                    if k < i {
                        assert(files@[k].relative_path@ != path@);
                    } else if k > i {
                        assert(files@[i as int].relative_path@ != path@);
                    }
                }
            }
            return Some(i);
        }
        i = i + 1;
    }
    None
}

/// Records the state of one file after the edit in the snapshot of its path.
/// A file that was not staged before the edit is an error.
pub fn record_after_file(
    metadata: &mut HistoryMetadata,
    prepared_after: &mut Vec<String>,
    file: &HistoryFileInput,
) -> (res: Result<(), EditError>)
    ensures
        match snapshot_index(old(metadata).files@, file.relative_path@) {
            None => {
                &&& res matches Err(e) && e@ == EditErrorV::HistoryUnavailable(
                    "after file "@ + debug_str(file.relative_path@) + " was not staged"@,
                )
                &&& *final(metadata) == *old(metadata)
                &&& final(prepared_after)@ == old(prepared_after)@
            },
            Some(i) => {
                &&& res is Ok
                &&& final(metadata).files@.len() == old(metadata).files@.len()
                &&& after_snapshot_of(
                    old(metadata).files@[i],
                    *file,
                    final(metadata).files@[i],
                )
                &&& forall|j: int|
                    0 <= j < old(metadata).files@.len() && j != i ==> final(metadata).files@[j]
                        == old(metadata).files@[j]
                &&& (HistoryMetadata { files: old(metadata).files, ..*final(metadata) })
                    == *old(metadata)
                &&& ids_view(final(prepared_after)@) == with_path(
                    ids_view(old(prepared_after)@),
                    file.relative_path@,
                )
            },
        },
{
    let i = match find_snapshot(&metadata.files, file.relative_path.as_str()) {
        Some(i) => i,
        None => {
            let quoted = debug_quoted(file.relative_path.as_str());
            let head = concat_str("after file ", quoted.as_str());
            return Err(EditError::HistoryUnavailable(concat_str(head.as_str(), " was not staged")));
        },
    };
    let old_snapshot = &metadata.files[i];
    let after = if file.exists {
        Some(concat_str("after/", file.relative_path.as_str()))
    } else {
        None
    };
    let updated = HistoryFileSnapshot {
        relative_path: old_snapshot.relative_path.clone(),
        exists: file.exists,
        before_revision: old_snapshot.before_revision.clone(),
        after_revision: revision(file.bytes.as_slice()),
        before_snapshot: old_snapshot.before_snapshot.clone(),
        after_snapshot: after,
        before_permissions: old_snapshot.before_permissions,
        after_permissions: file.permissions,
    };
    metadata.files.set(i, updated);
    if !contains_string(prepared_after, file.relative_path.as_str()) {
        let ghost before = ids_view(prepared_after@);
        prepared_after.push(file.relative_path.clone());
        assert(ids_view(prepared_after@) =~= before.push(file.relative_path@));
    }
    Ok(())
}

/// Once every file's after state is recorded, records the after manifest's
/// revision; otherwise the manifest is incomplete.
pub fn finish_after_manifest(metadata: &mut HistoryMetadata, prepared_after: &Vec<String>) -> (res:
    Result<(), EditError>)
    ensures
        prepared_after@.len() != old(metadata).files@.len() ==> {
            &&& res matches Err(e) && e@ == EditErrorV::HistoryUnavailable(
                "history after manifest is incomplete"@,
            )
            &&& *final(metadata) == *old(metadata)
        },
        prepared_after@.len() == old(metadata).files@.len() ==> {
            &&& res is Ok
            &&& is_manifest_revision(
                after_manifest(old(metadata).files@),
                final(metadata).after_manifest_revision@,
            )
            &&& (HistoryMetadata {
                after_manifest_revision: old(metadata).after_manifest_revision,
                ..*final(metadata)
            }) == *old(metadata)
        },
{
    if prepared_after.len() != metadata.files.len() {
        return Err(
            EditError::HistoryUnavailable("history after manifest is incomplete".to_owned()),
        );
    }
    let manifest = manifest_of(&metadata.files, true);
    metadata.after_manifest_revision = manifest_revision(&manifest);
    Ok(())
}

/// A stage may be journaled or committed only when every file's after state
/// is recorded.
pub fn ensure_after_complete(stage: &HistoryStage, message: &str) -> (res: Result<(), EditError>)
    ensures
        stage.prepared_after@.len() == stage.metadata.files@.len() ==> res is Ok,
        stage.prepared_after@.len() != stage.metadata.files@.len() ==> (res matches Err(e) && e@
            == EditErrorV::HistoryUnavailable(message@)),
{
    if stage.prepared_after.len() != stage.metadata.files.len() {
        return Err(EditError::HistoryUnavailable(message.to_owned()));
    }
    Ok(())
}

// ---------------------------------------------------------------------------
// Listing a drawing's history
// ---------------------------------------------------------------------------

/// Entries of the whole project, and the drawing's own entries, are shown
/// in a drawing's history.
pub open spec fn entry_visible(e: DrawingHistoryEntry, drawing: Seq<char>) -> bool {
    e.scope@ == "project"@ || e.drawing@ == drawing
}

/// The first entry that failed to load, oldest first.
pub open spec fn first_failure(rs: Seq<Result<DrawingHistoryEntry, EditError>>) -> Option<EditError>
    decreases rs.len(),
{
    if rs.len() == 0 {
        None
    } else {
        match first_failure(rs.drop_last()) {
            Some(e) => Some(e),
            None => match rs.last() {
                Err(e) => Some(e),
                Ok(_) => None,
            },
        }
    }
}

/// The visible entries, oldest first.
pub open spec fn visible_entries(rs: Seq<Result<DrawingHistoryEntry, EditError>>, drawing: Seq<char>) -> Seq<
    DrawingHistoryEntry,
>
    decreases rs.len(),
{
    if rs.len() == 0 {
        Seq::empty()
    } else {
        visible_entries(rs.drop_last(), drawing) + match rs.last() {
            Ok(e) => if entry_visible(e, drawing) {
                seq![e]
            } else {
                Seq::empty()
            },
            Err(_) => Seq::empty(),
        }
    }
}

/// The first entry that failed to load, newest first.
pub open spec fn newest_failure(rs: Seq<Result<DrawingHistoryEntry, EditError>>) -> Option<EditError>
    decreases rs.len(),
{
    if rs.len() == 0 {
        None
    } else {
        match newest_failure(rs.drop_first()) {
            Some(e) => Some(e),
            None => match rs[0] {
                Err(e) => Some(e),
                Ok(_) => None,
            },
        }
    }
}

/// The visible entries, newest first.
pub open spec fn newest_visible(rs: Seq<Result<DrawingHistoryEntry, EditError>>, drawing: Seq<char>) -> Seq<
    DrawingHistoryEntry,
>
    decreases rs.len(),
{
    if rs.len() == 0 {
        Seq::empty()
    } else {
        newest_visible(rs.drop_first(), drawing) + match rs[0] {
            Ok(e) => if entry_visible(e, drawing) {
                seq![e]
            } else {
                Seq::empty()
            },
            Err(_) => Seq::empty(),
        }
    }
}

pub open spec fn last_loaded(rs: Seq<Result<DrawingHistoryEntry, EditError>>) -> Option<DrawingHistoryEntry> {
    if rs.len() > 0 {
        match rs.last() {
            Ok(e) => Some(e),
            Err(_) => None,
        }
    } else {
        None
    }
}

/// The newest undo entry, else the newest redo entry, when it belongs to
/// another drawing: the drawing to switch to before undoing or redoing.
pub open spec fn blocking_entry(
    undo: Seq<Result<DrawingHistoryEntry, EditError>>,
    redo: Seq<Result<DrawingHistoryEntry, EditError>>,
    drawing: Seq<char>,
) -> Option<DrawingHistoryEntry> {
    match last_loaded(undo) {
        Some(e) if !entry_visible(e, drawing) => Some(e),
        _ => match last_loaded(redo) {
            Some(e) if !entry_visible(e, drawing) => Some(e),
            _ => None,
        },
    }
}

fn entry_is_visible(e: &DrawingHistoryEntry, drawing: &str) -> (b: bool)
    ensures
        b == entry_visible(*e, drawing@),
{
    str_eq(e.scope.as_str(), "project") || str_eq(e.drawing.as_str(), drawing)
}

fn blocking_message(
    undo: &Vec<Result<DrawingHistoryEntry, EditError>>,
    redo: &Vec<Result<DrawingHistoryEntry, EditError>>,
    drawing: &str,
) -> (message: Option<String>)
    ensures
        match blocking_entry(undo@, redo@, drawing@) {
            Some(e) => message matches Some(m) && m@ == "switch to drawing "@ + debug_str(e.drawing@),
            None => message is None,
        },
{
    if undo.len() > 0 {
        if let Ok(e) = &undo[undo.len() - 1] {
            if !entry_is_visible(e, drawing) {
                let quoted = debug_quoted(e.drawing.as_str());
                return Some(concat_str("switch to drawing ", quoted.as_str()));
            }
        }
    }
    if redo.len() > 0 {
        if let Ok(e) = &redo[redo.len() - 1] {
            if !entry_is_visible(e, drawing) {
                let quoted = debug_quoted(e.drawing.as_str());
                return Some(concat_str("switch to drawing ", quoted.as_str()));
            }
        }
    }
    None
}

fn take_oldest_first(entries: Vec<Result<DrawingHistoryEntry, EditError>>, drawing: &str) -> (res:
    Result<Vec<DrawingHistoryEntry>, EditError>)
    ensures
        match first_failure(entries@) {
            Some(e) => res == Err::<Vec<DrawingHistoryEntry>, EditError>(e),
            None => res matches Ok(v) && v@ == visible_entries(entries@, drawing@),
        },
{
    let ghost s = entries@;
    let n = entries.len();
    let mut rest = entries;
    let mut out: Vec<DrawingHistoryEntry> = Vec::new();
    let mut k: usize = 0;
    while rest.len() > 0
        invariant
            s == entries@,
            s.len() == n,
            k <= s.len(),
            rest@ == s.subrange(k as int, s.len() as int),
            first_failure(s.subrange(0, k as int)) is None,
            out@ == visible_entries(s.subrange(0, k as int), drawing@),
        decreases rest.len(),
    {
        let r = rest.remove(0);
        proof {
            let p = s.subrange(0, k + 1);
            assert(p.drop_last() =~= s.subrange(0, k as int));
            assert(p.last() == r);
        }
        match r {
            Ok(e) => {
                if entry_is_visible(&e, drawing) {
                    out.push(e);
                }
            },
            Err(e) => {
                proof {
                    assert(first_failure(s.subrange(0, k + 1)) == Some(e));
                    lemma_first_failure_prefix(s, k + 1);
                }
                return Err(e);
            },
        }
        proof {
            let p = s.subrange(0, k + 1);
            assert(out@ =~= visible_entries(p, drawing@));
        }
        k = k + 1;
    }
    assert(s.subrange(0, k as int) =~= s);
    Ok(out)
}

proof fn lemma_first_failure_prefix(s: Seq<Result<DrawingHistoryEntry, EditError>>, n: int)
    requires
        0 <= n <= s.len(),
        first_failure(s.subrange(0, n)) is Some,
    ensures
        first_failure(s) == first_failure(s.subrange(0, n)),
    decreases s.len() - n,
{
    if n < s.len() {
        assert(s.subrange(0, n + 1).drop_last() =~= s.subrange(0, n));
        lemma_first_failure_prefix(s, n + 1);
    } else {
        assert(s.subrange(0, n) =~= s);
    }
}

proof fn lemma_newest_failure_suffix(s: Seq<Result<DrawingHistoryEntry, EditError>>, m: int)
    requires
        0 <= m <= s.len(),
        newest_failure(s.subrange(m, s.len() as int)) is Some,
    ensures
        newest_failure(s) == newest_failure(s.subrange(m, s.len() as int)),
    decreases m,
{
    if m > 0 {
        assert(s.subrange(m - 1, s.len() as int).drop_first() =~= s.subrange(m, s.len() as int));
        lemma_newest_failure_suffix(s, m - 1);
    } else {
        assert(s.subrange(0, s.len() as int) =~= s);
    }
}

fn take_newest_first(entries: Vec<Result<DrawingHistoryEntry, EditError>>, drawing: &str) -> (res:
    Result<Vec<DrawingHistoryEntry>, EditError>)
    ensures
        match newest_failure(entries@) {
            Some(e) => res == Err::<Vec<DrawingHistoryEntry>, EditError>(e),
            None => res matches Ok(v) && v@ == newest_visible(entries@, drawing@),
        },
{
    let ghost s = entries@;
    let mut rest = entries;
    let mut out: Vec<DrawingHistoryEntry> = Vec::new();
    assert(s.subrange(s.len() as int, s.len() as int) =~= Seq::<
        Result<DrawingHistoryEntry, EditError>,
    >::empty());
    while rest.len() > 0
        invariant
            s == entries@,
            rest@.len() <= s.len(),
            rest@ == s.subrange(0, rest@.len() as int),
            newest_failure(s.subrange(rest@.len() as int, s.len() as int)) is None,
            out@ == newest_visible(s.subrange(rest@.len() as int, s.len() as int), drawing@),
        decreases rest.len(),
    {
        let ghost m = rest@.len() as int;
        let r = match rest.pop() {
            Some(r) => r,
            None => {
                proof {
                    assert(false);
                }
                return Ok(out);
            },
        };
        proof {
            let p = s.subrange(m - 1, s.len() as int);
            assert(p.drop_first() =~= s.subrange(m, s.len() as int));
            assert(p[0] == r);
            assert(rest@ =~= s.subrange(0, m - 1));
        }
        match r {
            Ok(e) => {
                if entry_is_visible(&e, drawing) {
                    out.push(e);
                }
            },
            Err(e) => {
                proof {
                    assert(newest_failure(s.subrange(m - 1, s.len() as int)) == Some(e));
                    lemma_newest_failure_suffix(s, m - 1);
                }
                return Err(e);
            },
        }
        proof {
            let p = s.subrange(m - 1, s.len() as int);
            assert(out@ =~= newest_visible(p, drawing@));
        }
    }
    assert(s.subrange(0, s.len() as int) =~= s);
    Ok(out)
}

/// The listing of a drawing's history from the entries read for its undo and
/// redo lists (oldest first) and the current files: the first failure in
/// that order, else the visible entries, the limit, the files and the message
/// of an entry of another drawing that blocks undo or redo.
pub open spec fn history_listing(
    res: Result<DrawingHistoryState, EditError>,
    drawing: Seq<char>,
    limit: usize,
    undo: Seq<Result<DrawingHistoryEntry, EditError>>,
    redo: Seq<Result<DrawingHistoryEntry, EditError>>,
    current_files: Result<Vec<HistoryFileRevision>, EditError>,
) -> bool {
        match (first_failure(undo), newest_failure(redo), current_files) {
            (Some(e), _, _) => res == Err::<DrawingHistoryState, EditError>(e),
            (None, Some(e), _) => res == Err::<DrawingHistoryState, EditError>(e),
            (None, None, Err(e)) => res == Err::<DrawingHistoryState, EditError>(e),
            (None, None, Ok(files)) => res matches Ok(state) && {
                &&& state.drawing@ == drawing
                &&& state.undo@ == visible_entries(undo, drawing)
                &&& state.redo@ == newest_visible(redo, drawing)
                &&& state.limit == limit
                &&& state.current_files == files
                &&& match blocking_entry(undo, redo, drawing) {
                    Some(e) => state.context_blocked matches Some(m) && m@ == "switch to drawing "@
                        + debug_str(e.drawing@),
                    None => state.context_blocked is None,
                }
            },
        }
}

/// What a drawing's history shows, from the entries loaded for the index's
/// undo ids and redo ids (each in index order) and the current files: the
/// first entry that failed to load (undo oldest first, then redo newest
/// first) or failing current files is the error; otherwise the visible undo
/// entries oldest first, the visible redo entries newest first, and the
/// drawing to switch to, if any.
pub fn drawing_history_state(
    drawing: &str,
    limit: usize,
    undo: Vec<Result<DrawingHistoryEntry, EditError>>,
    redo: Vec<Result<DrawingHistoryEntry, EditError>>,
    current_files: Result<Vec<HistoryFileRevision>, EditError>,
) -> (res: Result<DrawingHistoryState, EditError>)
    ensures
        history_listing(res, drawing@, limit, undo@, redo@, current_files),
{
    let context_blocked = blocking_message(&undo, &redo, drawing);
    let undo_entries = take_oldest_first(undo, drawing)?;
    let redo_entries = take_newest_first(redo, drawing)?;
    let current_files = current_files?;
    Ok(
        DrawingHistoryState {
            drawing: drawing.to_owned(),
            undo: undo_entries,
            redo: redo_entries,
            limit,
            current_files,
            context_blocked,
        },
    )
}

/// Lists a drawing's history from what was read of it: the drawing name is
/// checked first, then the index's limit is normalised and the listing is
/// assembled from the entries read for the index's undo and redo lists.
pub fn list_drawing_history(
    drawing: &str,
    index: &HistoryIndex,
    undo: Vec<Result<DrawingHistoryEntry, EditError>>,
    redo: Vec<Result<DrawingHistoryEntry, EditError>>,
    current_files: Result<Vec<HistoryFileRevision>, EditError>,
) -> (res: Result<DrawingHistoryState, EditError>)
    ensures
        !drawing_name_ok(drawing@) ==> (res matches Err(e) && e@ == EditErrorV::HistoryUnavailable(
            "drawing name is not a safe history directory"@,
        )),
        drawing_name_ok(drawing@) ==> history_listing(
            res,
            drawing@,
            effective_limit(index@.limit),
            undo@,
            redo@,
            current_files,
        ),
{
    validate_drawing_name(drawing)?;
    let limit = if index.limit == 0 || index.limit > crate::history::history_limit() {
        crate::history::history_limit()
    } else {
        index.limit
    };
    drawing_history_state(drawing, limit, undo, redo, current_files)
}


// ---------------------------------------------------------------------------
// Restoring a whole entry
// ---------------------------------------------------------------------------

/// Whether restoring reads a snapshot of the file: the state the entry goes
/// back to (before for an undo, after for a redo) has one.
pub open spec fn snapshot_used(file: HistoryFileSnapshot, undo: bool) -> bool {
    if undo {
        file.before_snapshot is Some
    } else {
        file.after_snapshot is Some
    }
}

/// The snapshot bytes used for a file: those read when it has a snapshot,
/// else none.
pub open spec fn used_snapshot(file: HistoryFileSnapshot, snap: Result<Vec<u8>, EditError>, undo: bool) -> Seq<u8> {
    if snapshot_used(file, undo) {
        match snap {
            Ok(b) => b@,
            Err(_) => Seq::empty(),
        }
    } else {
        Seq::empty()
    }
}

pub open spec fn target_revision(file: HistoryFileSnapshot, undo: bool) -> Seq<char> {
    if undo {
        file.before_revision@
    } else {
        file.after_revision@
    }
}

/// The check of one file, in the order of the steps: reading it, comparing
/// it with the entry and the caller's expectation, reading its snapshot and
/// comparing the snapshot with the recorded revision.
pub open spec fn file_restore_check(
    file: HistoryFileSnapshot,
    current: Result<HistoryFileInput, EditError>,
    snap: Result<Vec<u8>, EditError>,
    expected: Seq<HistoryFileRevision>,
    undo: bool,
) -> Result<(), EditErrorV> {
    match current {
        Err(e) => Err(e@),
        Ok(c) => if !restore_source_ok(file, c, expected, undo) {
            Err(EditErrorV::RevisionConflict)
        } else if snapshot_used(file, undo) && snap is Err {
            Err(snap->Err_0@)
        } else if blake3_hex(used_snapshot(file, snap, undo)) != target_revision(file, undo) {
            Err(EditErrorV::HistoryCorrupt("snapshot revision mismatch for "@ + file.relative_path@))
        } else {
            Ok(())
        },
    }
}

/// The checks of the first `k` files: the first failure, file by file.
pub open spec fn restore_checks(
    files: Seq<HistoryFileSnapshot>,
    currents: Seq<Result<HistoryFileInput, EditError>>,
    snaps: Seq<Result<Vec<u8>, EditError>>,
    expected: Seq<HistoryFileRevision>,
    undo: bool,
    k: nat,
) -> Result<(), EditErrorV>
    decreases k,
{
    if k == 0 {
        Ok(())
    } else {
        match restore_checks(files, currents, snaps, expected, undo, (k - 1) as nat) {
            Err(e) => Err(e),
            Ok(()) => file_restore_check(files[k - 1], currents[k - 1], snaps[k - 1], expected, undo),
        }
    }
}

proof fn lemma_checks_stop(
    files: Seq<HistoryFileSnapshot>,
    currents: Seq<Result<HistoryFileInput, EditError>>,
    snaps: Seq<Result<Vec<u8>, EditError>>,
    expected: Seq<HistoryFileRevision>,
    undo: bool,
    k: nat,
    n: nat,
)
    requires
        k <= n,
        restore_checks(files, currents, snaps, expected, undo, k) is Err,
    ensures
        restore_checks(files, currents, snaps, expected, undo, n) == restore_checks(
            files,
            currents,
            snaps,
            expected,
            undo,
            k,
        ),
    decreases n - k,
{
    if k < n {
        lemma_checks_stop(files, currents, snaps, expected, undo, k, (n - 1) as nat);
    }
}

/// One file of an entry being restored: its check, then the file to publish.
fn restore_one(
    file: &HistoryFileSnapshot,
    current: Result<HistoryFileInput, EditError>,
    snap: Result<Vec<u8>, EditError>,
    expected_files: &Vec<HistoryFileRevision>,
    undo: bool,
) -> (res: Result<(HistoryFileInput, HistoryFileInput), EditError>)
    ensures
        match file_restore_check(*file, current, snap, expected_files@, undo) {
            Err(e) => res matches Err(x) && x@ == e,
            Ok(()) => res matches Ok(pair) && current == Ok::<HistoryFileInput, EditError>(pair.0)
                && restore_target_of(*file, used_snapshot(*file, snap, undo), undo, pair.1),
        },
{
    let current = match current {
        Ok(c) => c,
        Err(e) => {
            return Err(e);
        },
    };
    check_restore_source(file, &current, expected_files, undo)?;
    let used = if undo {
        file.before_snapshot.is_some()
    } else {
        file.after_snapshot.is_some()
    };
    let bytes = if used {
        match snap {
            Ok(b) => b,
            Err(e) => {
                return Err(e);
            },
        }
    } else {
        Vec::new()
    };
    let target = restore_target(file, bytes, undo)?;
    Ok((current, target))
}

/// What restoring one history entry publishes and records.
#[derive(Debug)]
pub struct HistoryRestore {
    pub history_id: String,
    pub currents: Vec<HistoryFileInput>,
    pub targets: Vec<HistoryFileInput>,
    pub index: HistoryIndex,
    pub result: DrawingEditResult,
}

/// The decided restore of the newest undo (or redo) entry, with the
/// entry's metadata and, for each of its files in order, what is on disk and
/// its snapshot as read.
pub open spec fn restore_decided(
    res: Result<HistoryRestore, EditError>,
    request: DrawingHistoryRequest,
    index: HistoryIndex,
    metadata: HistoryMetadata,
    currents: Seq<Result<HistoryFileInput, EditError>>,
    snapshots: Seq<Result<Vec<u8>, EditError>>,
    undo: bool,
) -> bool {
    let side = if undo {
        index@.undo
    } else {
        index@.redo
    };
    if side.len() == 0 {
        res matches Err(e) && e@ == EditErrorV::HistoryUnavailable("no history entry is available"@)
    } else {
        &&& !(metadata.scope@ == "project"@ || metadata.drawing@ == request.drawing@) ==> (res matches Err(
            e,
        ) && e@ == EditErrorV::HistoryUnavailable(
            "switch to drawing "@ + debug_str(metadata.drawing@) + " before restoring history"@,
        ))
        &&& (metadata.scope@ == "project"@ || metadata.drawing@ == request.drawing@) ==> match restore_checks(
            metadata.files@,
            currents,
            snapshots,
            request.expected_files@,
            undo,
            metadata.files@.len(),
        ) {
            Err(e) => res matches Err(x) && x@ == e,
            Ok(()) => res matches Ok(plan) && {
                &&& plan.history_id@ == (if undo {
                    index@.undo.last()
                } else {
                    index@.redo.last()
                })
                &&& plan.targets@.len() == metadata.files@.len()
                &&& plan.currents@.len() == metadata.files@.len()
                &&& forall|i: int|
                    0 <= i < metadata.files@.len() ==> restore_target_of(
                        metadata.files@[i],
                        used_snapshot(metadata.files@[i], snapshots[i], undo),
                        undo,
                        #[trigger] plan.targets@[i],
                    ) && currents[i] == Ok::<HistoryFileInput, EditError>(plan.currents@[i])
                &&& plan.index@ == (if undo {
                    undo_spec(index@)
                } else {
                    redo_spec(index@)
                })
                &&& plan.result.drawing@ == request.drawing@
                &&& plan.result.revision@ == match first_target(
                    plan.targets@,
                    entities_path_spec(request.drawing@),
                ) {
                    Some(i) => blake3_hex(plan.targets@[i].bytes@),
                    None => ""@,
                }
                &&& ids_view(plan.result.entity_ids@) == ids_view(metadata.entity_ids@)
                &&& plan.result.history_id matches Some(h) && h@ == plan.history_id@
            },
        }
    }
}

/// Decides the restore of the newest undo entry (or redo entry) of the
/// index, given its metadata and, for each of its files in order, what is on
/// disk now and its snapshot as read. An entry of another drawing fails, then
/// the files are checked one by one and the first failure is the error;
/// otherwise every file of the entry is restored from its snapshot, the entry
/// moves to the other list of the index and the result names it.
#[verifier::loop_isolation(false)]
pub fn restore_history_entry(
    request: &DrawingHistoryRequest,
    index: &HistoryIndex,
    metadata: &HistoryMetadata,
    currents: Vec<Result<HistoryFileInput, EditError>>,
    snapshots: Vec<Result<Vec<u8>, EditError>>,
    undo: bool,
) -> (res: Result<HistoryRestore, EditError>)
    requires
        currents@.len() == metadata.files@.len(),
        snapshots@.len() == metadata.files@.len(),
    ensures
        restore_decided(res, *request, *index, *metadata, currents@, snapshots@, undo),
{
    entry_to_restore(index, undo)?;
    check_restore_scope(metadata, request.drawing.as_str())?;
    let ghost cur0 = currents@;
    let ghost snap0 = snapshots@;
    let ghost files = metadata.files@;
    let ghost expected = request.expected_files@;
    let n = metadata.files.len();
    let mut rest_currents = currents;
    let mut rest_snapshots = snapshots;
    let mut read: Vec<HistoryFileInput> = Vec::new();
    let mut targets: Vec<HistoryFileInput> = Vec::new();
    let mut i: usize = 0;
    while i < n
        invariant
            n == files.len(),
            files == metadata.files@,
            cur0.len() == n,
            snap0.len() == n,
            i <= n,
            rest_currents@ == cur0.skip(i as int),
            rest_snapshots@ == snap0.skip(i as int),
            read@.len() == i,
            targets@.len() == i,
            metadata.scope@ == "project"@ || metadata.drawing@ == request.drawing@,
            expected == request.expected_files@,
            restore_checks(files, cur0, snap0, expected, undo, i as nat) == Ok::<(), EditErrorV>(()),
            forall|j: int|
                0 <= j < i ==> restore_target_of(
                    files[j],
                    used_snapshot(files[j], snap0[j], undo),
                    undo,
                    #[trigger] targets@[j],
                ) && cur0[j] == Ok::<HistoryFileInput, EditError>(read@[j]),
        decreases n - i,
    {
        let current = rest_currents.remove(0);
        let snap = rest_snapshots.remove(0);
        proof {
            assert(rest_currents@ =~= cur0.skip(i + 1));
            assert(rest_snapshots@ =~= snap0.skip(i + 1));
            assert(current == cur0[i as int]);
            assert(snap == snap0[i as int]);
        }
        let file = &metadata.files[i];
        let (current, target) = match restore_one(file, current, snap, &request.expected_files, undo) {
            Ok(pair) => pair,
            Err(e) => {
                proof {
                    assert(files[i as int] == *file);
                    lemma_checks_stop(files, cur0, snap0, expected, undo, (i + 1) as nat, n as nat);
                }
                return Err(e);
            },
        };
        read.push(current);
        targets.push(target);
        i = i + 1;
    }
    let mut after = HistoryIndex {
        undo: clone_strings(&index.undo),
        redo: clone_strings(&index.redo),
        limit: index.limit,
    };
    let history_id = if undo {
        index.undo[index.undo.len() - 1].clone()
    } else {
        index.redo[index.redo.len() - 1].clone()
    };
    if undo {
        record_undo(&mut after);
    } else {
        record_redo(&mut after);
    }
    let result = restore_result(
        request.drawing.as_str(),
        history_id.clone(),
        clone_strings(&metadata.entity_ids),
        &targets,
        undo,
    );
    Ok(HistoryRestore { history_id, currents: read, targets, index: after, result })
}

/// Decides undoing the newest undo entry (see `restore_history_entry`).
pub fn undo_drawing_edit(
    request: &DrawingHistoryRequest,
    index: &HistoryIndex,
    metadata: &HistoryMetadata,
    currents: Vec<Result<HistoryFileInput, EditError>>,
    snapshots: Vec<Result<Vec<u8>, EditError>>,
) -> (res: Result<HistoryRestore, EditError>)
    requires
        currents@.len() == metadata.files@.len(),
        snapshots@.len() == metadata.files@.len(),
    ensures
        restore_decided(res, *request, *index, *metadata, currents@, snapshots@, true),
{
    restore_history_entry(request, index, metadata, currents, snapshots, true)
}

/// Decides redoing the newest redo entry (see `restore_history_entry`).
pub fn redo_drawing_edit(
    request: &DrawingHistoryRequest,
    index: &HistoryIndex,
    metadata: &HistoryMetadata,
    currents: Vec<Result<HistoryFileInput, EditError>>,
    snapshots: Vec<Result<Vec<u8>, EditError>>,
) -> (res: Result<HistoryRestore, EditError>)
    requires
        currents@.len() == metadata.files@.len(),
        snapshots@.len() == metadata.files@.len(),
    ensures
        restore_decided(res, *request, *index, *metadata, currents@, snapshots@, false),
{
    restore_history_entry(request, index, metadata, currents, snapshots, false)
}

// ---------------------------------------------------------------------------
// Clearing a drawing's history
// ---------------------------------------------------------------------------

/// An entry is removed when it loads and belongs to the drawing alone.
pub open spec fn removable(m: Option<HistoryMetadata>, drawing: Seq<char>) -> bool {
    m matches Some(e) && e.drawing@ == drawing && e.scope@ != "project"@
}

/// The ids kept for undo, kept for redo, and removed, taking the ids in
/// order with the metadata loaded for each; a kept id stays an undo id when
/// the undo list holds it.
pub open spec fn clear_split(
    ids: Seq<Seq<char>>,
    entries: Seq<Option<HistoryMetadata>>,
    undo: Seq<Seq<char>>,
    drawing: Seq<char>,
) -> (Seq<Seq<char>>, Seq<Seq<char>>, Seq<Seq<char>>)
    decreases ids.len(),
{
    if ids.len() == 0 {
        (Seq::empty(), Seq::empty(), Seq::empty())
    } else {
        let (u, r, x) = clear_split(ids.drop_last(), entries, undo, drawing);
        let id = ids.last();
        if removable(entries[ids.len() - 1], drawing) {
            (u, r, x.push(id))
        } else if undo.contains(id) {
            (u.push(id), r, x)
        } else {
            (u, r.push(id), x)
        }
    }
}

/// Clearing a drawing's history removes exactly the entries that belong to
/// that drawing alone: every entry of the whole project, of another drawing,
/// or that cannot be read is kept.
pub proof fn lemma_clear_removes_only_own_entries(
    ids: Seq<Seq<char>>,
    entries: Seq<Option<HistoryMetadata>>,
    undo: Seq<Seq<char>>,
    drawing: Seq<char>,
    k: int,
)
    requires
        0 <= k < ids.len(),
        ids.len() <= entries.len(),
    ensures
        ({
            let (kept_undo, kept_redo, removed) = clear_split(ids, entries, undo, drawing);
            &&& removable(entries[k], drawing) ==> removed.contains(ids[k])
            &&& !removable(entries[k], drawing) ==> (kept_undo.contains(ids[k])
                || kept_redo.contains(ids[k]))
        }),
    decreases ids.len(),
{
    let (u, r, x) = clear_split(ids.drop_last(), entries, undo, drawing);
    let id = ids.last();
    if k == ids.len() - 1 {
        if removable(entries[k], drawing) {
            assert(x.push(id)[x.len() as int] == id);
        } else if undo.contains(id) {
            assert(u.push(id)[u.len() as int] == id);
        } else {
            assert(r.push(id)[r.len() as int] == id);
        }
    } else {
        lemma_clear_removes_only_own_entries(ids.drop_last(), entries, undo, drawing, k);
        assert(ids.drop_last()[k] == ids[k]);
        let item = ids[k];
        if x.contains(item) {
            let i = choose|i: int| 0 <= i < x.len() && x[i] == item;
            assert(x.push(id)[i] == item);
        }
        if u.contains(item) {
            let i = choose|i: int| 0 <= i < u.len() && u[i] == item;
            assert(u.push(id)[i] == item);
        }
        if r.contains(item) {
            let i = choose|i: int| 0 <= i < r.len() && r[i] == item;
            assert(r.push(id)[i] == item);
        }
    }
}

fn is_removable(m: &Option<HistoryMetadata>, drawing: &str) -> (b: bool)
    ensures
        b == removable(*m, drawing@),
{
    match m {
        Some(e) => str_eq(e.drawing.as_str(), drawing) && !str_eq(e.scope.as_str(), "project"),
        None => false,
    }
}

/// Which entries clearing a drawing's history keeps and which it removes,
/// given the metadata loaded for the undo ids and then the redo ids (none
/// where loading failed).
pub fn clear_history_plan(drawing: &str, index: &HistoryIndex, entries: &Vec<Option<HistoryMetadata>>) -> (plan:
    (HistoryIndex, Vec<String>))
    requires
        entries@.len() == index.undo@.len() + index.redo@.len(),
    ensures
        ({
            let (u, r, x) = clear_split(index@.undo + index@.redo, entries@, index@.undo, drawing@);
            &&& plan.0@.undo == u
            &&& plan.0@.redo == r
            &&& plan.0.limit == index.limit
            &&& ids_view(plan.1@) == x
        }),
{
    let ghost ids = index@.undo + index@.redo;
    let mut kept = HistoryIndex { undo: Vec::new(), redo: Vec::new(), limit: index.limit };
    let mut removed: Vec<String> = Vec::new();
    let total = entries.len();
    let mut k: usize = 0;
    assert(ids_view(kept.undo@) =~= Seq::<Seq<char>>::empty());
    assert(ids_view(kept.redo@) =~= Seq::<Seq<char>>::empty());
    assert(ids_view(removed@) =~= Seq::<Seq<char>>::empty());
    assert(ids.subrange(0, 0) =~= Seq::<Seq<char>>::empty());
    while k < total
        invariant
            total == index.undo@.len() + index.redo@.len(),
            entries@.len() == total,
            ids == index@.undo + index@.redo,
            k <= total,
            kept.limit == index.limit,
            ({
                let (u, r, x) = clear_split(ids.subrange(0, k as int), entries@, index@.undo, drawing@);
                &&& ids_view(kept.undo@) == u
                &&& ids_view(kept.redo@) == r
                &&& ids_view(removed@) == x
            }),
        decreases total - k,
    {
        let id = if k < index.undo.len() {
            &index.undo[k]
        } else {
            &index.redo[k - index.undo.len()]
        };
        assert(id@ == ids[k as int]);
        proof {
            assert(ids.subrange(0, k + 1).drop_last() =~= ids.subrange(0, k as int));
        }
        let ghost before = (ids_view(kept.undo@), ids_view(kept.redo@), ids_view(removed@));
        if is_removable(&entries[k], drawing) {
            removed.push(id.clone());
            assert(ids_view(removed@) =~= before.2.push(id@));
        } else if contains_string(&index.undo, id.as_str()) {
            kept.undo.push(id.clone());
            assert(ids_view(kept.undo@) =~= before.0.push(id@));
        } else {
            kept.redo.push(id.clone());
            assert(ids_view(kept.redo@) =~= before.1.push(id@));
        }
        k = k + 1;
    }
    assert(ids.subrange(0, k as int) =~= ids);
    (kept, removed)
}

// ---------------------------------------------------------------------------
// Restoring an entry (undo and redo)
// ---------------------------------------------------------------------------

/// The entry to restore: the newest undo entry for an undo, the newest redo
/// entry for a redo.
pub fn entry_to_restore(index: &HistoryIndex, undo: bool) -> (res: Result<String, EditError>)
    ensures
        ({
            let side = if undo {
                index@.undo
            } else {
                index@.redo
            };
            match res {
                Ok(id) => side.len() > 0 && id@ == side.last(),
                Err(e) => side.len() == 0 && e@ == EditErrorV::HistoryUnavailable(
                    "no history entry is available"@,
                ),
            }
        }),
{
    let newest = if undo {
        crate::history::newest_undo(index)
    } else {
        crate::history::newest_redo(index)
    };
    match newest {
        Some(id) => Ok(id),
        None => Err(EditError::HistoryUnavailable("no history entry is available".to_owned())),
    }
}

/// An entry of another drawing is restored only from that drawing; entries
/// of the whole project from any.
pub fn check_restore_scope(metadata: &HistoryMetadata, drawing: &str) -> (res: Result<(), EditError>)
    ensures
        (metadata.scope@ == "project"@ || metadata.drawing@ == drawing@) ==> res is Ok,
        !(metadata.scope@ == "project"@ || metadata.drawing@ == drawing@) ==> (res matches Err(e)
            && e@ == EditErrorV::HistoryUnavailable(
            "switch to drawing "@ + debug_str(metadata.drawing@) + " before restoring history"@,
        )),
{
    if !str_eq(metadata.scope.as_str(), "project") && !str_eq(metadata.drawing.as_str(), drawing) {
        let quoted = debug_quoted(metadata.drawing.as_str());
        let head = concat_str("switch to drawing ", quoted.as_str());
        return Err(EditError::HistoryUnavailable(concat_str(head.as_str(), " before restoring history")));
    }
    Ok(())
}

/// The first expected revision listed for a path.
pub open spec fn expected_index(expected: Seq<HistoryFileRevision>, path: Seq<char>) -> Option<int> {
    if exists|i: int| 0 <= i < expected.len() && (#[trigger] expected[i]).relative_path@ == path {
        Some(
            choose|i: int|
                0 <= i < expected.len() && (#[trigger] expected[i]).relative_path@ == path
                    && forall|j: int| 0 <= j < i ==> expected[j].relative_path@ != path,
        )
    } else {
        None
    }
}

/// Whether the current file is in the state the entry leaves it in (its
/// after state for an undo, its before state for a redo), and, when the
/// caller lists the files it expects, as the caller expects it.
pub open spec fn restore_source_ok(
    file: HistoryFileSnapshot,
    current: HistoryFileInput,
    expected: Seq<HistoryFileRevision>,
    undo: bool,
) -> bool {
    let should_exist = if undo {
        file.after_snapshot is Some
    } else {
        file.before_snapshot is Some
    };
    let rev = if undo {
        file.after_revision@
    } else {
        file.before_revision@
    };
    &&& current.exists == should_exist
    &&& blake3_hex(current.bytes@) == rev
    &&& (expected.len() == 0 || match expected_index(expected, file.relative_path@) {
        Some(i) => expected[i].exists == current.exists && expected[i].revision@ == blake3_hex(
            current.bytes@,
        ),
        None => false,
    })
}

fn find_expected(expected: &Vec<HistoryFileRevision>, path: &str) -> (index: Option<usize>)
    ensures
        match index {
            Some(i) => expected_index(expected@, path@) == Some(i as int) && i < expected@.len(),
            None => expected_index(expected@, path@) is None,
        },
{
    let mut i: usize = 0;
    while i < expected.len()
        invariant
            i <= expected@.len(),
            forall|j: int| 0 <= j < i ==> expected@[j].relative_path@ != path@,
        decreases expected.len() - i,
    {
        if str_eq(expected[i].relative_path.as_str(), path) {
            proof {
                let k = expected_index(expected@, path@)->Some_0;
                assert(expected@[i as int].relative_path@ == path@);
                assert(k == i) by {
                    if k < i {
                        assert(expected@[k].relative_path@ != path@);
                    } else if k > i {
                        assert(expected@[i as int].relative_path@ != path@);
                    }
                }
            }
            return Some(i);
        }
        i = i + 1;
    }
    None
}

/// Checks a file before restoring an entry; any mismatch is a revision
/// conflict.
pub fn check_restore_source(
    file: &HistoryFileSnapshot,
    current: &HistoryFileInput,
    expected_files: &Vec<HistoryFileRevision>,
    undo: bool,
) -> (res: Result<(), EditError>)
    ensures
        restore_source_ok(*file, *current, expected_files@, undo) ==> res is Ok,
        !restore_source_ok(*file, *current, expected_files@, undo) ==> (res matches Err(e) && e@
            == EditErrorV::RevisionConflict),
{
    let should_exist = if undo {
        file.after_snapshot.is_some()
    } else {
        file.before_snapshot.is_some()
    };
    let expected_revision = if undo {
        &file.after_revision
    } else {
        &file.before_revision
    };
    let current_revision = revision(current.bytes.as_slice());
    if current.exists != should_exist || !str_eq(current_revision.as_str(), expected_revision.as_str()) {
        return Err(EditError::RevisionConflict);
    }
    if expected_files.len() > 0 {
        let i = match find_expected(expected_files, file.relative_path.as_str()) {
            Some(i) => i,
            None => return Err(EditError::RevisionConflict),
        };
        let expected = &expected_files[i];
        if expected.exists != current.exists || !str_eq(
            expected.revision.as_str(),
            current_revision.as_str(),
        ) {
            return Err(EditError::RevisionConflict);
        }
    }
    Ok(())
}

/// The state a file is restored to: its before state for an undo, its after
/// state for a redo, with the snapshot's bytes (none when it did not exist).
pub open spec fn restore_target_of(
    file: HistoryFileSnapshot,
    snapshot: Seq<u8>,
    undo: bool,
    t: HistoryFileInput,
) -> bool {
    &&& t.relative_path == file.relative_path
    &&& t.exists == if undo {
        file.before_snapshot is Some
    } else {
        file.after_snapshot is Some
    }
    &&& t.bytes@ == snapshot
    &&& t.permissions == if undo {
        file.before_permissions
    } else {
        file.after_permissions
    }
}

/// The file to publish when restoring an entry; the snapshot's bytes must
/// have the recorded revision.
pub fn restore_target(file: &HistoryFileSnapshot, snapshot_bytes: Vec<u8>, undo: bool) -> (res: Result<
    HistoryFileInput,
    EditError,
>)
    ensures
        ({
            let rev = if undo {
                file.before_revision@
            } else {
                file.after_revision@
            };
            match res {
                Ok(t) => blake3_hex(snapshot_bytes@) == rev && restore_target_of(
                    *file,
                    snapshot_bytes@,
                    undo,
                    t,
                ),
                Err(e) => blake3_hex(snapshot_bytes@) != rev && e@ == EditErrorV::HistoryCorrupt(
                    "snapshot revision mismatch for "@ + file.relative_path@,
                ),
            }
        }),
{
    let next_revision = if undo {
        &file.before_revision
    } else {
        &file.after_revision
    };
    let actual = revision(snapshot_bytes.as_slice());
    if !str_eq(actual.as_str(), next_revision.as_str()) {
        return Err(
            EditError::HistoryCorrupt(
                concat_str("snapshot revision mismatch for ", file.relative_path.as_str()),
            ),
        );
    }
    Ok(
        HistoryFileInput {
            relative_path: file.relative_path.clone(),
            exists: if undo {
                file.before_snapshot.is_some()
            } else {
                file.after_snapshot.is_some()
            },
            bytes: snapshot_bytes,
            permissions: if undo {
                file.before_permissions
            } else {
                file.after_permissions
            },
        },
    )
}

/// The path of a drawing's entities.
pub open spec fn entities_path_spec(drawing: Seq<char>) -> Seq<char> {
    "drawings/"@ + drawing + "/entities.ndjson"@
}

pub open spec fn first_target(targets: Seq<HistoryFileInput>, path: Seq<char>) -> Option<int> {
    if exists|i: int| 0 <= i < targets.len() && (#[trigger] targets[i]).relative_path@ == path {
        Some(
            choose|i: int|
                0 <= i < targets.len() && (#[trigger] targets[i]).relative_path@ == path
                    && forall|j: int| 0 <= j < i ==> targets[j].relative_path@ != path,
        )
    } else {
        None
    }
}

fn find_target(targets: &Vec<HistoryFileInput>, path: &str) -> (index: Option<usize>)
    ensures
        match index {
            Some(i) => first_target(targets@, path@) == Some(i as int) && i < targets@.len(),
            None => first_target(targets@, path@) is None,
        },
{
    let mut i: usize = 0;
    while i < targets.len()
        invariant
            i <= targets@.len(),
            forall|j: int| 0 <= j < i ==> targets@[j].relative_path@ != path@,
        decreases targets.len() - i,
    {
        if str_eq(targets[i].relative_path.as_str(), path) {
            proof {
                let k = first_target(targets@, path@)->Some_0;
                assert(targets@[i as int].relative_path@ == path@);
                assert(k == i) by {
                    if k < i {
                        assert(targets@[k].relative_path@ != path@);
                    } else if k > i {
                        assert(targets@[i as int].relative_path@ != path@);
                    }
                }
            }
            return Some(i);
        }
        i = i + 1;
    }
    None
}

/// The result of restoring an entry: the drawing's new revision (that of its
/// restored entities file, empty when the entry has none), the entry's
/// entities, the operation and the entry.
pub fn restore_result(
    drawing: &str,
    history_id: String,
    entity_ids: Vec<String>,
    targets: &Vec<HistoryFileInput>,
    undo: bool,
) -> (result: DrawingEditResult)
    ensures
        result.drawing@ == drawing@,
        result.revision@ == match first_target(targets@, entities_path_spec(drawing@)) {
            Some(i) => blake3_hex(targets@[i].bytes@),
            None => ""@,
        },
        result.entity_id == if entity_ids@.len() > 0 {
            Some(entity_ids@[0])
        } else {
            None
        },
        result.entity_ids == entity_ids,
        result.operation@ == if undo {
            "undo"@
        } else {
            "redo"@
        },
        result.history_id == Some(history_id),
{
    let head = concat_str("drawings/", drawing);
    let path = concat_str(head.as_str(), "/entities.ndjson");
    let next_revision = match find_target(targets, path.as_str()) {
        Some(i) => revision(targets[i].bytes.as_slice()),
        None => {
            let empty = String::new();
            proof {
                reveal_strlit("");
                assert(empty@ =~= ""@);
            }
            empty
        },
    };
    let entity_id = if entity_ids.len() > 0 {
        Some(entity_ids[0].clone())
    } else {
        None
    };
    DrawingEditResult {
        drawing: drawing.to_owned(),
        revision: next_revision,
        entity_id,
        entity_ids,
        operation: if undo {
            "undo".to_owned()
        } else {
            "redo".to_owned()
        },
        history_id: Some(history_id),
    }
}

} // verus!
