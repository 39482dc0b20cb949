use cad_jww::edit::{
    append_raw_line, block_content_revision, combine_batch, delete_entity_lines, block_revision, crate_name, ensure_unique_entity_ids,
    insert_raw_line_after, preferred_ending, remove_raw_line, render_raw_lines,
    split_raw_lines, validate_drawing_name, EditError,
};
use cad_jww::history::{
    commit_to_index, recover_history_index, record_redo, record_undo, HistoryIndex,
    HistoryTransactionKind,
};

fn revision(bytes: &[u8]) -> String {
    blake3::hash(bytes).to_hex().to_string()
}

#[test]
fn exposes_edit_crate_name() {
    assert_eq!(crate_name(), "cad-edit");
}

#[test]
fn splitting_and_rendering_keep_every_byte() {
    for text in ["", "a", "a\n", "a\r\nb", "a\r\n\r\nb\n", "\n\n", "x\ry\n"] {
        let lines = split_raw_lines(text);
        assert_eq!(render_raw_lines(&lines), text);
    }
    let lines = split_raw_lines("a\r\nb");
    assert_eq!(lines.len(), 2);
    assert_eq!(lines[0].ending, "\r\n");
    assert_eq!(lines[1].ending, "");
}

#[test]
fn preserves_crlf_and_trailing_newline_policy_for_line_edits() {
    let mut lines = split_raw_lines("a\r\nb");
    append_raw_line(&mut lines, "c".to_owned());
    assert_eq!(render_raw_lines(&lines), "a\r\nb\r\nc");

    let mut lines = split_raw_lines("a\r\nb\r\n");
    append_raw_line(&mut lines, "c".to_owned());
    assert_eq!(render_raw_lines(&lines), "a\r\nb\r\nc\r\n");

    let mut lines = split_raw_lines("a\nb");
    insert_raw_line_after(&mut lines, 1, "c".to_owned());
    assert_eq!(render_raw_lines(&lines), "a\nb\nc");
    insert_raw_line_after(&mut lines, 0, "z".to_owned());
    assert_eq!(render_raw_lines(&lines), "a\nz\nb\nc");

    let mut lines = split_raw_lines("a\nb\nc");
    remove_raw_line(&mut lines, 2);
    assert_eq!(render_raw_lines(&lines), "a\nb");
    remove_raw_line(&mut lines, 0);
    assert_eq!(render_raw_lines(&lines), "b");

    let mut empty = Vec::new();
    append_raw_line(&mut empty, "only".to_owned());
    assert_eq!(render_raw_lines(&empty), "only\n");
    assert_eq!(preferred_ending(&split_raw_lines("a"), 0), "\n");
    assert_eq!(preferred_ending(&split_raw_lines("a\r\nb"), 1), "\r\n");
}

#[test]
fn rejects_duplicate_and_empty_selections() {
    assert!(ensure_unique_entity_ids(&vec!["a".to_owned(), "b".to_owned()]).is_ok());
    match ensure_unique_entity_ids(&vec!["a".to_owned(), "b".to_owned(), "a".to_owned()]) {
        Err(EditError::InvalidEntity(message)) => {
            assert_eq!(message, "entity id \"a\" appears more than once")
        }
        other => panic!("unexpected {other:?}"),
    }
    match ensure_unique_entity_ids(&Vec::new()) {
        Err(error) => assert_eq!(
            error.message(),
            "invalid entity: entity_ids must contain at least one entity"
        ),
        Ok(()) => panic!("empty selection accepted"),
    }
}

#[test]
fn drawing_names_are_single_plain_components() {
    for name in ["plan", "plan/", "a.b", ".hidden", "plan/."] {
        assert!(validate_drawing_name(name).is_ok(), "{name}");
    }
    for name in ["", ".", "..", "./plan", "/plan", "a/b", "plan/..", "../plan", "//"] {
        assert!(validate_drawing_name(name).is_err(), "{name}");
    }
}

fn index(undo: &[&str], redo: &[&str], limit: usize) -> HistoryIndex {
    HistoryIndex {
        undo: undo.iter().map(|id| id.to_string()).collect(),
        redo: redo.iter().map(|id| id.to_string()).collect(),
        limit,
    }
}

#[test]
fn history_prunes_to_the_latest_one_hundred_generations() {
    let mut state = index(&[], &[], 100);
    for generation in 0..105 {
        commit_to_index(&mut state, format!("h{generation}"));
    }
    assert_eq!(state.undo.len(), 100);
    assert!(state.redo.is_empty());
    assert_eq!(state.undo[0], "h5");
    assert_eq!(state.undo[99], "h104");
}

#[test]
fn commit_drops_redo_entries_and_reports_them() {
    let mut state = index(&["a", "b"], &["c"], 2);
    let removed = commit_to_index(&mut state, "d".to_owned());
    assert_eq!(removed, vec!["c".to_owned(), "a".to_owned()]);
    assert_eq!(state.undo, vec!["b".to_owned(), "d".to_owned()]);
    let mut unlimited = index(&["a"], &[], 0);
    commit_to_index(&mut unlimited, "b".to_owned());
    assert_eq!(unlimited.limit, 100);
}

#[test]
fn undo_then_redo_restores_the_index() {
    let mut state = index(&["a", "b"], &["c"], 10);
    record_undo(&mut state);
    assert_eq!(state.undo, vec!["a".to_owned()]);
    assert_eq!(state.redo, vec!["c".to_owned(), "b".to_owned()]);
    record_redo(&mut state);
    assert_eq!(state.undo, vec!["a".to_owned(), "b".to_owned()]);
    assert_eq!(state.redo, vec!["c".to_owned()]);
}

#[test]
fn recovery_completes_journaled_transactions_once() {
    let mut state = index(&["a"], &["x"], 10);
    recover_history_index(&mut state, HistoryTransactionKind::Commit, "b").expect("commit");
    assert_eq!(state.undo, vec!["a".to_owned(), "b".to_owned()]);
    assert!(state.redo.is_empty());
    recover_history_index(&mut state, HistoryTransactionKind::Commit, "b").expect("again");
    assert_eq!(state.undo.len(), 2);

    recover_history_index(&mut state, HistoryTransactionKind::Restore { undo: true }, "b")
        .expect("undo");
    assert_eq!(state.redo, vec!["b".to_owned()]);
    recover_history_index(&mut state, HistoryTransactionKind::Restore { undo: true }, "b")
        .expect("undo again");
    assert_eq!(state.undo, vec!["a".to_owned()]);

    match recover_history_index(&mut state, HistoryTransactionKind::Restore { undo: false }, "z") {
        Err(EditError::HistoryCorrupt(message)) => {
            assert_eq!(message, "redo recovery index does not contain the transaction")
        }
        other => panic!("unexpected {other:?}"),
    }
}

#[test]
fn revisions_are_blake3_hex_digests() {
    let rev = revision(b"abc");
    assert_eq!(
        rev,
        "6437b3ac38465133ffb63b75273a8db548c558465d79db03fd359c6cd5bd9d85"
    );
    let block = block_revision(b"def", b"ents");
    let expected = revision(format!("{}:{}", revision(b"def"), revision(b"ents")).as_bytes());
    assert_eq!(block, expected);
    assert_eq!(block.len(), 64);
}

// ---------------------------------------------------------------------------
// History records
// ---------------------------------------------------------------------------

use cad_jww::edit::{
    DrawingHistoryEntry, HistoryFileInput, HistoryFileRevision, PermissionsSnapshot,
};
use cad_jww::history_record::{
    checked_history_metadata, clear_history_plan, drawing_history_state, ensure_after_complete,
    finish_after_manifest, public_history_entry, record_after_file, stage_metadata,
    validate_history_id, HistoryMetadata, HistoryStage,
};
use cad_jww::manifest::manifest_revision;

fn file_revision(path: &str, revision: &str, exists: bool) -> HistoryFileRevision {
    HistoryFileRevision {
        relative_path: path.to_owned(),
        revision: revision.to_owned(),
        exists,
    }
}

#[test]
fn manifest_revision_digests_sorted_lines() {
    let files = vec![
        file_revision("rules/layers.toml", "r2", true),
        file_revision("drawings/plan/entities.ndjson", "r1", false),
    ];
    let expected = blake3::hash(
        b"drawings/plan/entities.ndjson\0false\0r1\nrules/layers.toml\0true\0r2",
    )
    .to_hex()
    .to_string();
    assert_eq!(manifest_revision(&files), expected);
    let reversed = vec![files[1].clone(), files[0].clone()];
    assert_eq!(manifest_revision(&reversed), expected);
    assert_eq!(
        manifest_revision(&Vec::new()),
        blake3::hash(b"").to_hex().to_string()
    );
}

fn input(path: &str, bytes: &[u8], exists: bool) -> HistoryFileInput {
    HistoryFileInput {
        relative_path: path.to_owned(),
        exists,
        bytes: bytes.to_vec(),
        permissions: exists.then_some(PermissionsSnapshot {
            readonly: false,
            unix_mode: Some(0o644),
        }),
    }
}

fn staged() -> HistoryMetadata {
    stage_metadata(
        "hist_1".to_owned(),
        "plan",
        "drawing",
        "translate",
        "1700000000".to_owned(),
        &vec!["ent_a".to_owned()],
        &vec![
            input("drawings/plan/entities.ndjson", b"{}\n", true),
            input("comments/plan.ndjson", b"", false),
        ],
    )
}

#[test]
fn staging_records_before_snapshots_and_manifest() {
    let metadata = staged();
    assert_eq!(metadata.history_id, "hist_1");
    assert_eq!(metadata.drawing, "plan");
    assert_eq!(metadata.entity_ids, vec!["ent_a".to_owned()]);
    assert_eq!(
        metadata.changed_files,
        vec![
            "drawings/plan/entities.ndjson".to_owned(),
            "comments/plan.ndjson".to_owned()
        ]
    );
    assert_eq!(metadata.affected_files, metadata.changed_files);
    assert_eq!(metadata.files.len(), 2);
    assert_eq!(metadata.files[0].before_revision, revision(b"{}\n"));
    assert_eq!(
        metadata.files[0].before_snapshot.as_deref(),
        Some("before/drawings/plan/entities.ndjson")
    );
    assert_eq!(metadata.files[1].before_snapshot, None);
    assert_eq!(metadata.files[1].after_revision, "");
    assert_eq!(
        metadata.before_manifest_revision,
        manifest_revision(&vec![
            file_revision("drawings/plan/entities.ndjson", &revision(b"{}\n"), true),
            file_revision("comments/plan.ndjson", &revision(b""), false),
        ])
    );
    assert_eq!(metadata.after_manifest_revision, "");
}

#[test]
fn after_states_complete_the_manifest() {
    let mut metadata = staged();
    let mut prepared = Vec::new();
    let error = finish_after_manifest(&mut metadata, &prepared).expect_err("nothing recorded");
    assert_eq!(
        error.message(),
        "history unavailable: history after manifest is incomplete"
    );
    record_after_file(
        &mut metadata,
        &mut prepared,
        &input("drawings/plan/entities.ndjson", b"{\"a\":1}\n", true),
    )
    .expect("staged file");
    record_after_file(
        &mut metadata,
        &mut prepared,
        &input("drawings/plan/entities.ndjson", b"{\"a\":1}\n", true),
    )
    .expect("recording twice is allowed");
    assert_eq!(prepared.len(), 1);
    let error = record_after_file(
        &mut metadata,
        &mut prepared,
        &input("rules/layers.toml", b"", true),
    )
    .expect_err("unstaged file");
    assert_eq!(
        error.message(),
        "history unavailable: after file \"rules/layers.toml\" was not staged"
    );
    record_after_file(
        &mut metadata,
        &mut prepared,
        &input("comments/plan.ndjson", b"note", true),
    )
    .expect("staged file");
    assert_eq!(metadata.files[0].after_revision, revision(b"{\"a\":1}\n"));
    assert_eq!(
        metadata.files[1].after_snapshot.as_deref(),
        Some("after/comments/plan.ndjson")
    );
    assert!(metadata.files[1].exists);
    finish_after_manifest(&mut metadata, &prepared).expect("complete manifest");
    assert_eq!(
        metadata.after_manifest_revision,
        manifest_revision(&vec![
            file_revision(
                "drawings/plan/entities.ndjson",
                &revision(b"{\"a\":1}\n"),
                true
            ),
            file_revision("comments/plan.ndjson", &revision(b"note"), true),
        ])
    );
    let stage = HistoryStage {
        root: "build/.cad-history".to_owned(),
        metadata,
        committed: false,
        prepared_after: prepared,
        journal_path: None,
    };
    assert_eq!(stage.history_id(), "hist_1");
    assert!(ensure_after_complete(&stage, "cannot commit incomplete history manifest").is_ok());
}

#[test]
fn public_entries_take_the_first_file_revisions() {
    let metadata = staged();
    let before = metadata.files[0].before_revision.clone();
    let entry = public_history_entry(metadata);
    assert_eq!(entry.history_id, "hist_1");
    assert_eq!(entry.before_revision, before);
    assert_eq!(entry.after_revision, "");
    let mut empty = staged();
    empty.files.clear();
    let entry = public_history_entry(empty);
    assert_eq!(entry.before_revision, "");
}

#[test]
fn history_ids_are_plain_relative_names() {
    for good in ["hist_01", "a/b", "a/./b", "a/"] {
        assert!(validate_history_id(good).is_ok(), "{good}");
    }
    for bad in ["", "/a", ".", "./a", "..", "a/../b", "a/.."] {
        let error = validate_history_id(bad).expect_err(bad);
        assert_eq!(error.message(), "history entry is corrupt: invalid history id");
    }
    let error = checked_history_metadata(staged(), "hist_2", "entries/hist_2/metadata.json")
        .expect_err("mismatched id");
    assert_eq!(
        error.message(),
        "history entry is corrupt: entries/hist_2/metadata.json has mismatched history id"
    );
    assert!(checked_history_metadata(staged(), "hist_1", "m.json").is_ok());
}

fn entry(id: &str, drawing: &str, scope: &str) -> DrawingHistoryEntry {
    let mut metadata = staged();
    metadata.history_id = id.to_owned();
    metadata.drawing = drawing.to_owned();
    metadata.scope = scope.to_owned();
    public_history_entry(metadata)
}

#[test]
fn history_state_shows_visible_entries_and_blocking_drawing() {
    let state = drawing_history_state(
        "plan",
        100,
        vec![
            Ok(entry("h1", "plan", "drawing")),
            Ok(entry("h2", "other", "drawing")),
            Ok(entry("h3", "other", "project")),
        ],
        vec![Ok(entry("h4", "plan", "drawing")), Ok(entry("h5", "plan", "drawing"))],
        Ok(vec![file_revision("rules/layers.toml", "r", true)]),
    )
    .expect("state");
    let undo: Vec<&str> = state.undo.iter().map(|e| e.history_id.as_str()).collect();
    let redo: Vec<&str> = state.redo.iter().map(|e| e.history_id.as_str()).collect();
    assert_eq!(undo, vec!["h1", "h3"]);
    assert_eq!(redo, vec!["h5", "h4"]);
    assert_eq!(state.context_blocked, None);
    assert_eq!(state.limit, 100);

    let state = drawing_history_state(
        "plan",
        7,
        vec![Ok(entry("h1", "elevation", "drawing"))],
        vec![],
        Ok(vec![]),
    )
    .expect("state");
    assert!(state.undo.is_empty());
    assert_eq!(
        state.context_blocked.as_deref(),
        Some("switch to drawing \"elevation\"")
    );

    let error = drawing_history_state(
        "plan",
        100,
        vec![Ok(entry("h1", "plan", "drawing"))],
        vec![
            Err(EditError::HistoryCorrupt("older".to_owned())),
            Err(EditError::HistoryCorrupt("newer".to_owned())),
        ],
        Ok(vec![]),
    )
    .expect_err("corrupt redo entry");
    assert_eq!(error.message(), "history entry is corrupt: newer");
}

#[test]
fn clearing_keeps_project_entries_and_unreadable_ones() {
    let idx = index(&["h1", "h2", "h3"], &["h4"], 50);
    let mut project = staged();
    project.scope = "project".to_owned();
    let entries = vec![Some(staged()), Some(project), None, Some(staged())];
    let (kept, removed) = clear_history_plan("plan", &idx, &entries);
    assert_eq!(kept.undo, vec!["h2".to_owned(), "h3".to_owned()]);
    assert!(kept.redo.is_empty());
    assert_eq!(kept.limit, 50);
    assert_eq!(removed, vec!["h1".to_owned(), "h4".to_owned()]);
    let (kept, removed) = clear_history_plan("elevation", &idx, &entries);
    assert_eq!(kept.undo.len(), 3);
    assert_eq!(kept.redo, vec!["h4".to_owned()]);
    assert!(removed.is_empty());
}

// ---------------------------------------------------------------------------
// Recovery decisions
// ---------------------------------------------------------------------------

use cad_jww::recovery::{
    history_recovery_action, recovery_sides, source_recovery_action, HistoryRecovery,
    SourceRecovery, SourceTransactionJournal,
};

fn journal(desired_exists: bool) -> SourceTransactionJournal {
    SourceTransactionJournal {
        target: "drawings/plan/entities.ndjson".to_owned(),
        staging: "build/.cad-transactions/t1/staging".to_owned(),
        expected_revision: "old".to_owned(),
        desired_revision: "new".to_owned(),
        expected_exists: true,
        desired_exists,
        operation: "translate".to_owned(),
    }
}

fn rev(value: &str) -> Option<String> {
    Some(value.to_owned())
}

#[test]
fn source_recovery_completes_rolls_back_or_preserves() {
    let replace = journal(true);
    assert_eq!(
        source_recovery_action(&replace, &rev("new"), &rev("old")).unwrap(),
        SourceRecovery::RemoveJournalThenStaging
    );
    assert_eq!(
        source_recovery_action(&replace, &rev("new"), &None).unwrap(),
        SourceRecovery::RemoveJournalThenStaging
    );
    assert_eq!(
        source_recovery_action(&replace, &rev("old"), &rev("new")).unwrap(),
        SourceRecovery::RemoveJournalThenStaging
    );
    assert_eq!(
        source_recovery_action(&replace, &rev("other"), &rev("old")).unwrap(),
        SourceRecovery::PreserveConflict { with_desired: true }
    );
    let delete = journal(false);
    assert_eq!(
        source_recovery_action(&delete, &rev("old"), &None).unwrap(),
        SourceRecovery::DiscardJournal
    );
    assert_eq!(
        source_recovery_action(&delete, &None, &rev("old")).unwrap(),
        SourceRecovery::RemoveStagingThenJournal
    );
    assert_eq!(
        source_recovery_action(&delete, &None, &None).unwrap(),
        SourceRecovery::RemoveStagingThenJournal
    );
    assert_eq!(
        source_recovery_action(&delete, &rev("old"), &rev("old")).unwrap(),
        SourceRecovery::PreserveConflict { with_desired: false }
    );
    let mut missing = journal(true);
    missing.expected_exists = false;
    let error = source_recovery_action(&missing, &None, &None).expect_err("unsupported");
    assert_eq!(
        error.message(),
        "history entry is corrupt: source recovery journal has an unsupported missing expected target"
    );
}

#[test]
fn history_recovery_aborts_finishes_or_preserves() {
    assert_eq!(recovery_sides(HistoryTransactionKind::Commit), (true, false));
    assert_eq!(recovery_sides(HistoryTransactionKind::Restore { undo: true }), (false, true));
    assert_eq!(recovery_sides(HistoryTransactionKind::Restore { undo: false }), (true, false));
    assert_eq!(
        history_recovery_action(HistoryTransactionKind::Commit, &vec![(true, false), (true, false)]),
        HistoryRecovery::Abort { remove_entry: true }
    );
    assert_eq!(
        history_recovery_action(
            HistoryTransactionKind::Restore { undo: true },
            &vec![(true, false)]
        ),
        HistoryRecovery::Abort { remove_entry: false }
    );
    assert_eq!(
        history_recovery_action(HistoryTransactionKind::Commit, &vec![(false, true), (true, false)]),
        HistoryRecovery::Finish { publish: vec![1] }
    );
    assert_eq!(
        history_recovery_action(HistoryTransactionKind::Commit, &vec![(true, true), (false, false)]),
        HistoryRecovery::Conflict
    );
    assert_eq!(
        history_recovery_action(HistoryTransactionKind::Commit, &vec![]),
        HistoryRecovery::Abort { remove_entry: true }
    );
}

use cad_jww::history_record::{
    check_restore_scope, check_restore_source, entry_to_restore, restore_result, restore_target,
};

#[test]
fn restoring_checks_sources_and_snapshots() {
    let idx = index(&["h1", "h2"], &[], 100);
    assert_eq!(entry_to_restore(&idx, true).unwrap(), "h2");
    let error = entry_to_restore(&idx, false).expect_err("no redo");
    assert_eq!(error.message(), "history unavailable: no history entry is available");

    let mut metadata = staged();
    assert!(check_restore_scope(&metadata, "plan").is_ok());
    let error = check_restore_scope(&metadata, "elevation").expect_err("other drawing");
    assert_eq!(
        error.message(),
        "history unavailable: switch to drawing \"plan\" before restoring history"
    );
    metadata.scope = "project".to_owned();
    assert!(check_restore_scope(&metadata, "elevation").is_ok());

    let mut metadata = staged();
    let mut prepared = Vec::new();
    let after = input("drawings/plan/entities.ndjson", b"{\"a\":1}\n", true);
    record_after_file(&mut metadata, &mut prepared, &after).unwrap();
    let file = &metadata.files[0];
    assert!(check_restore_source(file, &after, &Vec::new(), true).is_ok());
    let stale = input("drawings/plan/entities.ndjson", b"{}\n", true);
    assert!(matches!(
        check_restore_source(file, &stale, &Vec::new(), true),
        Err(EditError::RevisionConflict)
    ));
    assert!(check_restore_source(file, &stale, &Vec::new(), false).is_ok());
    let listed = vec![file_revision(
        "drawings/plan/entities.ndjson",
        &revision(b"{\"a\":1}\n"),
        true,
    )];
    assert!(check_restore_source(file, &after, &listed, true).is_ok());
    let other = vec![file_revision("rules/layers.toml", "x", true)];
    assert!(check_restore_source(file, &after, &other, true).is_err());

    let target = restore_target(file, b"{}\n".to_vec(), true).expect("before snapshot");
    assert!(target.exists);
    assert_eq!(target.bytes, b"{}\n".to_vec());
    let error = restore_target(file, b"tampered".to_vec(), true).expect_err("bad snapshot");
    assert_eq!(
        error.message(),
        "history entry is corrupt: snapshot revision mismatch for drawings/plan/entities.ndjson"
    );

    let result = restore_result(
        "plan",
        "h2".to_owned(),
        vec!["ent_a".to_owned(), "ent_b".to_owned()],
        &vec![target],
        true,
    );
    assert_eq!(result.revision, revision(b"{}\n"));
    assert_eq!(result.entity_id.as_deref(), Some("ent_a"));
    assert_eq!(result.operation, "undo");
    assert_eq!(result.history_id.as_deref(), Some("h2"));
    let result = restore_result("plan", "h3".to_owned(), vec![], &vec![], false);
    assert_eq!(result.revision, "");
    assert_eq!(result.entity_id, None);
    assert_eq!(result.operation, "redo");
}

#[test]
fn block_content_revision_needs_both_block_files() {
    let definition = input("blocks/b1/definition.toml", b"name = \"B1\"\n", true);
    let entities = input("blocks/b1/entities.ndjson", b"{}\n", true);
    let missing = input("blocks/b1/entities.ndjson", b"", false);
    assert_eq!(
        block_content_revision("b1", &definition, &entities).unwrap(),
        block_revision(b"name = \"B1\"\n", b"{}\n")
    );
    match block_content_revision("b1", &definition, &missing) {
        Err(EditError::InvalidEntity(message)) => {
            assert_eq!(message, "block \"b1\" does not exist")
        }
        other => panic!("unexpected {other:?}"),
    }
}

use cad_jww::edit::DrawingHistoryRequest;
use cad_jww::history_record::{list_drawing_history, redo_drawing_edit, undo_drawing_edit};

fn restorable() -> HistoryMetadata {
    let mut metadata = staged();
    let mut prepared = Vec::new();
    let after = input("drawings/plan/entities.ndjson", b"{\"a\":1}\n", true);
    record_after_file(&mut metadata, &mut prepared, &after).unwrap();
    metadata.files.truncate(1);
    metadata
}

fn plan_request() -> DrawingHistoryRequest {
    DrawingHistoryRequest { drawing: "plan".to_owned(), expected_files: Vec::new() }
}

#[test]
fn undo_restores_every_file_of_the_entry_and_moves_it() {
    let metadata = restorable();
    let after = input("drawings/plan/entities.ndjson", b"{\"a\":1}\n", true);
    let plan = undo_drawing_edit(
        &plan_request(),
        &index(&["hist_1"], &[], 0),
        &metadata,
        vec![Ok(after)],
        vec![Ok(b"{}\n".to_vec())],
    )
    .expect("undo");
    assert_eq!(plan.history_id, "hist_1");
    assert_eq!(plan.targets.len(), 1);
    assert_eq!(plan.targets[0].bytes, b"{}\n".to_vec());
    assert!(plan.targets[0].exists);
    assert!(plan.index.undo.is_empty());
    assert_eq!(plan.index.redo, vec!["hist_1".to_owned()]);
    assert_eq!(plan.result.revision, revision(b"{}\n"));
    assert_eq!(plan.result.operation, "undo");
    assert_eq!(plan.result.history_id.as_deref(), Some("hist_1"));
}

#[test]
fn restore_fails_on_the_first_file_problem() {
    let metadata = restorable();
    let stale = input("drawings/plan/entities.ndjson", b"{}\n", true);
    let error = undo_drawing_edit(
        &plan_request(),
        &index(&["hist_1"], &[], 100),
        &metadata,
        vec![Ok(stale)],
        vec![Err(EditError::HistoryCorrupt("unreadable".to_owned()))],
    )
    .expect_err("stale file");
    assert!(matches!(error, EditError::RevisionConflict));

    let after = input("drawings/plan/entities.ndjson", b"{\"a\":1}\n", true);
    let error = undo_drawing_edit(
        &plan_request(),
        &index(&["hist_1"], &[], 100),
        &metadata,
        vec![Ok(after)],
        vec![Err(EditError::HistoryCorrupt("unreadable".to_owned()))],
    )
    .expect_err("unreadable snapshot");
    assert_eq!(error.message(), "history entry is corrupt: unreadable");

    let error = redo_drawing_edit(
        &plan_request(),
        &index(&["hist_1"], &[], 100),
        &metadata,
        vec![Err(EditError::HistoryCorrupt("unused".to_owned()))],
        vec![Ok(Vec::new())],
    )
    .expect_err("nothing to redo");
    assert_eq!(error.message(), "history unavailable: no history entry is available");

    let other = DrawingHistoryRequest { drawing: "elevation".to_owned(), expected_files: Vec::new() };
    let error = undo_drawing_edit(
        &other,
        &index(&["hist_1"], &[], 100),
        &metadata,
        vec![Err(EditError::HistoryCorrupt("unused".to_owned()))],
        vec![Ok(Vec::new())],
    )
    .expect_err("other drawing");
    assert_eq!(
        error.message(),
        "history unavailable: switch to drawing \"plan\" before restoring history"
    );
}

#[test]
fn listing_checks_the_name_and_normalises_the_limit() {
    let error = list_drawing_history("../x", &index(&[], &[], 5), Vec::new(), Vec::new(), Ok(Vec::new()))
        .expect_err("unsafe name");
    assert_eq!(
        error.message(),
        "history unavailable: drawing name is not a safe history directory"
    );
    let state = list_drawing_history("plan", &index(&[], &[], 0), Vec::new(), Vec::new(), Ok(Vec::new()))
        .expect("listing");
    assert_eq!(state.limit, 100);
    assert!(state.undo.is_empty());
    let state = list_drawing_history("plan", &index(&[], &[], 7), Vec::new(), Vec::new(), Ok(Vec::new()))
        .expect("listing");
    assert_eq!(state.limit, 7);
}

fn owned(ids: &[&str]) -> Vec<String> {
    ids.iter().map(|s| s.to_string()).collect()
}

#[test]
fn deleting_entities_removes_their_lines_last_first() {
    let mut lines = split_raw_lines("a\nb\nc\n");
    let line_ids = owned(&["a", "b", "c"]);
    let blocked = vec![None, None, None];
    delete_entity_lines(&owned(&["c", "a"]), &line_ids, &blocked, &mut lines).expect("delete");
    assert_eq!(render_raw_lines(&lines), "b\n");

    let mut lines = split_raw_lines("a\nb");
    delete_entity_lines(&owned(&["b"]), &owned(&["a", "b"]), &vec![None, None], &mut lines)
        .expect("delete last");
    assert_eq!(render_raw_lines(&lines), "a");
}

#[test]
fn deleting_entities_reports_each_problem_and_keeps_the_lines() {
    let line_ids = owned(&["a", "b", "c"]);
    let blocked = vec![None, Some("locked".to_string()), None];
    let mut lines = split_raw_lines("a\nb\nc\n");
    let missing = delete_entity_lines(&owned(&["a", "z"]), &line_ids, &blocked, &mut lines);
    assert!(matches!(missing, Err(EditError::EntityNotFound(ref id)) if id == "z"));
    let locked = delete_entity_lines(&owned(&["a", "b"]), &line_ids, &blocked, &mut lines);
    assert!(matches!(locked, Err(EditError::LayerNotEditable(ref layer)) if layer == "locked"));
    let empty = delete_entity_lines(&Vec::new(), &line_ids, &blocked, &mut lines);
    assert!(matches!(empty, Err(EditError::InvalidEntity(_))));
    let twice = delete_entity_lines(&owned(&["a", "a"]), &line_ids, &blocked, &mut lines);
    assert!(matches!(twice, Err(EditError::InvalidEntity(_))));
    assert_eq!(render_raw_lines(&lines), "a\nb\nc\n");
}

#[test]
fn batches_join_ids_and_stop_at_the_first_failure() {
    let joined = combine_batch(vec![Ok(owned(&["a"])), Ok(owned(&["b", "c"]))]).expect("batch");
    assert_eq!(joined, owned(&["a", "b", "c"]));
    let failed = combine_batch(vec![
        Ok(owned(&["a"])),
        Err(EditError::EntityNotFound("x".to_string())),
        Err(EditError::EntityNotFound("y".to_string())),
    ]);
    assert!(matches!(failed, Err(EditError::EntityNotFound(ref id)) if id == "x"));
    let empty = combine_batch(Vec::new());
    assert!(
        matches!(empty, Err(EditError::InvalidEntity(ref m)) if m == "batch must contain at least one operation")
    );
}
