use vitre_app::notices::{slow_notice_step, slow_request_message};
use vitre_app::shell::{terminal_file_target, TerminalFileTarget};
use vitre_app::rebuild::RebuiltTimeline;
use vitre_app::revert::{CheckpointRef, TimelineMessage};
use vitre_app::timeline::DerivedTimelineRow;
use vitre_app::diff_panel::CheckpointList;
use vitre_app::sending::SendBook;
use vitre_app::menu::sync_composer_menu;
use vitre_app::assets::VitreIcon;
use vitre_app::attachments::{
    attachment_from_encoded, attachments_full, extension_mime_type, file_context_token,
    stage_one_file, too_many_error, PendingAttachment,
};
use vitre_app::composer::ComposerTriggerKind;
use vitre_app::diff_panel::{checkpoints_changed, TurnDiffSummary};
use vitre_app::drafts::{thread_model_label, thread_send_enabled};
use vitre_app::fingerprint::{row_content_hash, row_fingerprints, RowContent};
use vitre_app::interaction::{PendingModeWrite, ProviderInteractionMode};
use vitre_app::menu::{composer_menu_items, ComposerMenuItem};
use vitre_app::order::stable_order_by_rank;
use vitre_app::overlays::{overlay_toggle, quick_search_toggle, OverlayAction, QuickSearchMode};
use vitre_app::picker::ranked_picker_rows;
use vitre_app::providers::{ModelSelection, ServerModel, ServerProvider, ServerProviderState};
use vitre_app::table::{table_to_csv, TableData};
use vitre_app::timeline::{insert_plan_rows, TimelineRow};

fn provider(id: &str) -> ServerProvider {
    ServerProvider {
        instance_id: id.into(),
        driver: id.into(),
        display_name: None,
        enabled: true,
        status: ServerProviderState::Ready,
        availability: None,
        message: None,
        unavailable_reason: None,
        requires_new_thread_for_model_change: false,
        models: vec![ServerModel {
            slug: "m-5".into(),
            name: "M-5".into(),
            is_default: true,
        }],
        version_advisory: None,
        slash_commands: Vec::new(),
        skills: Vec::new(),
    }
}

#[test]
fn extension_types_and_encoded_attachments() {
    assert_eq!(extension_mime_type("png"), "image/png");
    assert_eq!(extension_mime_type("rs"), "text/x-rust");
    assert_eq!(extension_mime_type("zzz"), "application/octet-stream");
    let a = attachment_from_encoded("x.txt".into(), "text/plain", 1, "eA==", false);
    assert_eq!(a.data_url, "data:text/plain;base64,eA==");
    assert_eq!(a.size_bytes, 1);
    assert!(!a.is_image);
}

#[test]
fn staging_one_file_at_a_time() {
    let mut pending: Vec<PendingAttachment> = Vec::new();
    assert!(!attachments_full(pending.len()));
    assert_eq!(stage_one_file(&mut pending, "a.txt".into(), Ok(b"x".to_vec())), None);
    assert_eq!(pending.len(), 1);
    assert_eq!(
        stage_one_file(&mut pending, "b.txt".into(), Err("denied".into())),
        Some("Could not read 'b.txt': denied".to_string())
    );
    assert_eq!(pending.len(), 1);
    assert!(attachments_full(8));
    assert_eq!(too_many_error(), "You can attach up to 8 files per message.");
}

#[test]
fn control_characters_are_escaped_like_json() {
    assert_eq!(file_context_token("a\tb"), "@\"a\\tb\"");
    assert_eq!(file_context_token("a b\u{1}"), "@\"a b\\u0001\"");
}

#[test]
fn one_mode_write_at_a_time() {
    let mut w = PendingModeWrite::new();
    assert!(w.request("t1", ProviderInteractionMode::Default, ProviderInteractionMode::Plan));
    // A second click before the shell acknowledges sends nothing.
    assert!(!w.request("t1", ProviderInteractionMode::Plan, ProviderInteractionMode::Default));
    // Clicking the mode already shown sends nothing either.
    let mut idle = PendingModeWrite::new();
    assert!(!idle.request("t1", ProviderInteractionMode::Plan, ProviderInteractionMode::Plan));
    // A failure of another write leaves the pending one alone.
    assert!(!w.fail("t2", ProviderInteractionMode::Plan));
    assert!(w.pending.is_some());
    // The shell acknowledges the pending mode.
    w.observe_shell(Some(ProviderInteractionMode::Plan));
    assert!(w.pending.is_none());
    assert!(w.request("t1", ProviderInteractionMode::Plan, ProviderInteractionMode::Default));
    assert!(w.fail("t1", ProviderInteractionMode::Default));
    assert!(w.pending.is_none());
}

#[test]
fn composer_menu_follows_the_trigger() {
    assert!(composer_menu_items(ComposerTriggerKind::Path, "src", None, &[], &[], None).is_none());
    let items = composer_menu_items(ComposerTriggerKind::Slash, "pl", None, &[], &[], None).unwrap();
    assert_eq!(items.len(), 1);
    assert!(matches!(
        items[0],
        ComposerMenuItem::InteractionMode(ProviderInteractionMode::Plan)
    ));
    let skills = composer_menu_items(ComposerTriggerKind::Skill, "", None, &[], &[], None).unwrap();
    assert!(skills.is_empty());
    let threads = composer_menu_items(ComposerTriggerKind::Thread, "", None, &[], &[], None).unwrap();
    assert!(threads.is_empty());
}

#[test]
fn thread_composer_labels_and_send_rule() {
    let providers = vec![provider("p1")];
    assert_eq!(thread_model_label(&providers, None), "Model");
    let chosen = ModelSelection {
        instance_id: Some("p1".into()),
        model: Some("m-5".into()),
    };
    assert_eq!(thread_model_label(&providers, Some(&chosen)), "M-5");
    let unknown = ModelSelection {
        instance_id: None,
        model: Some("x-1".into()),
    };
    assert_eq!(thread_model_label(&providers, Some(&unknown)), "x-1");
    assert!(!thread_send_enabled(false, false, "   ", 0, 0, 0, false));
    assert!(thread_send_enabled(false, false, "  hi ", 0, 0, 0, false));
    assert!(thread_send_enabled(false, false, "", 0, 0, 1, false));
    assert!(thread_send_enabled(false, false, "", 0, 0, 0, true));
    assert!(!thread_send_enabled(true, false, "hi", 0, 0, 0, false));
    assert!(!thread_send_enabled(false, true, "hi", 1, 0, 0, false));
}

#[test]
fn overlay_chords_open_close_or_switch() {
    assert_eq!(quick_search_toggle(None, QuickSearchMode::Open), OverlayAction::Open);
    assert_eq!(
        quick_search_toggle(Some(QuickSearchMode::Open), QuickSearchMode::Open),
        OverlayAction::Close
    );
    assert_eq!(
        quick_search_toggle(Some(QuickSearchMode::Open), QuickSearchMode::Content),
        OverlayAction::Switch
    );
    assert_eq!(overlay_toggle(true), OverlayAction::Close);
    assert_eq!(overlay_toggle(false), OverlayAction::Open);
}

#[test]
fn checkpoint_lists_change_only_when_they_differ() {
    let a = vec![TurnDiffSummary {
        turn_id: "t1".into(),
        turn_count: 1,
    }];
    let b = vec![TurnDiffSummary {
        turn_id: "t1".into(),
        turn_count: 1,
    }];
    let c = vec![TurnDiffSummary {
        turn_id: "t1".into(),
        turn_count: 2,
    }];
    assert!(!checkpoints_changed(&a, &b));
    assert!(checkpoints_changed(&a, &c));
    assert!(checkpoints_changed(&a, &[]));
}

#[test]
fn picker_rows_rank_within_each_provider() {
    assert_eq!(
        stable_order_by_rank(&vec![(0, 1), (0, 5), (1, 9), (0, 5)]),
        vec![1, 3, 0, 2]
    );
    let rows = vec![(0, 0), (0, 1), (1, 0), (1, 1)];
    let ranks = vec![1, 3, 2, 2];
    assert_eq!(
        ranked_picker_rows(&rows, &ranks, "gp"),
        vec![(0, 1), (0, 0), (1, 0), (1, 1)]
    );
    assert_eq!(ranked_picker_rows(&rows, &ranks, "  "), rows);
}

#[test]
fn icon_paths_are_distinct_svgs() {
    let icons = [
        VitreIcon::ChevronsDownUp,
        VitreIcon::CloudUpload,
        VitreIcon::Columns2,
        VitreIcon::FileDiff,
        VitreIcon::FolderGit,
        VitreIcon::GitBranchPlus,
        VitreIcon::GitCommitHorizontal,
        VitreIcon::GitPullRequest,
        VitreIcon::Files,
        VitreIcon::Info,
        VitreIcon::Pilcrow,
        VitreIcon::Rows3,
        VitreIcon::SquareSplitHorizontal,
        VitreIcon::SquareSplitVertical,
        VitreIcon::TextSearch,
        VitreIcon::Trash2,
        VitreIcon::WrapText,
    ];
    let mut paths: Vec<&str> = icons.iter().map(|i| i.path()).collect();
    assert!(paths.iter().all(|p| p.starts_with("icons/") && p.ends_with(".svg")));
    paths.sort();
    paths.dedup();
    assert_eq!(paths.len(), icons.len());
}

/// An RFC 4180 reader: records at unquoted line breaks, fields at unquoted
/// commas, `""` inside quotes as `"`.
fn read_csv(text: &str) -> Vec<Vec<String>> {
    let mut records = Vec::new();
    let mut fields = Vec::new();
    let mut cur = String::new();
    let mut mode = 0;
    for ch in text.chars() {
        match (mode, ch) {
            (1, '"') => mode = 2,
            (1, c) => cur.push(c),
            (2, '"') => {
                cur.push('"');
                mode = 1;
            }
            (_, ',') => {
                fields.push(std::mem::take(&mut cur));
                mode = 0;
            }
            (_, '\n') => {
                fields.push(std::mem::take(&mut cur));
                records.push(std::mem::take(&mut fields));
                mode = 0;
            }
            (0, '"') if cur.is_empty() => mode = 1,
            (_, c) => {
                cur.push(c);
                mode = 0;
            }
        }
    }
    fields.push(cur);
    records.push(fields);
    records
}

#[test]
fn csv_reads_back_as_the_table() {
    let table = TableData {
        headers: vec!["name".into(), "note".into()],
        rows: vec![
            vec!["Vitre".into(), "glass, fast \"native\"".into()],
            vec!["multi\nline".into(), "".into()],
        ],
    };
    let csv = table_to_csv(&table);
    let mut expected = vec![table.headers.clone()];
    expected.extend(table.rows.clone());
    assert_eq!(read_csv(&csv), expected);
}

#[test]
fn plan_rows_sit_before_the_running_row() {
    let rows = vec![TimelineRow::Message(0), TimelineRow::Running];
    assert_eq!(
        insert_plan_rows(&rows, 2),
        vec![
            TimelineRow::Message(0),
            TimelineRow::ProposedPlan(0),
            TimelineRow::ProposedPlan(1),
            TimelineRow::Running
        ]
    );
    let hashes = row_fingerprints(&vec![RowContent::Running, RowContent::Missing]);
    assert_eq!(hashes, vec![row_content_hash(&RowContent::Running), 0]);
}

#[test]
fn a_rebuilt_timeline_lines_up_rows_and_fingerprints() {
    let derived = vec![
        DerivedTimelineRow::Message { message_index: 0 },
        DerivedTimelineRow::Message { message_index: 1 },
        DerivedTimelineRow::Working,
    ];
    let messages = vec![
        TimelineMessage {
            id: "u1".into(),
            is_user: true,
            created_at: "2026-01-01T00:00:00Z".into(),
        },
        TimelineMessage {
            id: "a1".into(),
            is_user: false,
            created_at: "2026-01-01T00:00:01Z".into(),
        },
    ];
    let checkpoints = vec![CheckpointRef {
        assistant_message_id: Some("a1".into()),
        turn_count: 1,
    }];
    let mut t = RebuiltTimeline::layout(&derived, 1, &messages, &checkpoints);
    assert_eq!(
        t.rows,
        vec![
            TimelineRow::Message(0),
            TimelineRow::Message(1),
            TimelineRow::ProposedPlan(0),
            TimelineRow::Running
        ]
    );
    assert_eq!(t.revert_counts, vec![Some(0), None]);
    let contents = vec![RowContent::Missing, RowContent::Missing, RowContent::Plan(None), RowContent::Running];
    t.set_hashes(&contents);
    assert_eq!(t.hashes.len(), t.rows.len());
    assert_eq!(t.hashes[3], row_content_hash(&RowContent::Running));
    assert!(RebuiltTimeline::empty().rows.is_empty());
}

#[test]
fn an_equal_checkpoint_push_changes_nothing() {
    let list = || {
        vec![TurnDiffSummary {
            turn_id: "t1".into(),
            turn_count: 1,
        }]
    };
    let mut held = CheckpointList { checkpoints: Vec::new() };
    assert!(held.push(list()));
    assert!(!held.push(list()));
    assert_eq!(held.checkpoints.len(), 1);
}

#[test]
fn a_failed_send_restores_only_an_empty_composer() {
    let mut book: SendBook<u32, Vec<String>> = SendBook::new();
    assert!(book.start("m1".into(), 7, "hello".into(), vec!["a.txt".into()]));
    // A second send waits for the first to be acknowledged.
    assert!(!book.start("m2".into(), 8, "again".into(), Vec::new()));
    assert_eq!(book.optimistic.len(), 1);
    // The user typed meanwhile: nothing is put back.
    let mut typed = SendBook::new();
    assert!(typed.start("m1".into(), 7u32, "hello".to_string(), 1u8));
    assert_eq!(typed.rollback("m1", false, false, false, false), None);
    assert!(typed.optimistic.is_empty());
    // An empty composer gets the text and staged context back.
    assert_eq!(
        book.rollback("m1", true, false, false, false),
        Some(("hello".to_string(), vec!["a.txt".to_string()]))
    );
    assert!(book.optimistic.is_empty() && !book.dispatching && book.pending.is_none());
    // Acknowledgement clears the row and frees the composer.
    let mut ok: SendBook<u32, ()> = SendBook::new();
    assert!(ok.start("m3".into(), 1, "x".into(), ()));
    ok.reconcile(&vec!["m3".to_string()], true);
    assert!(ok.optimistic.is_empty() && !ok.dispatching && ok.pending.is_none());
}

#[test]
fn the_composer_menu_follows_the_token_under_the_cursor() {
    let m = sync_composer_menu("try /pl", 7, None, &[], &[], None, Some(5)).unwrap();
    assert_eq!((m.token_start, m.token_end, m.selected, m.items.len()), (4, 7, 0, 1));
    assert!(sync_composer_menu("plain text", 10, None, &[], &[], None, None).is_none());
    assert!(sync_composer_menu("@src", 4, None, &[], &[], None, None).is_none());
}

#[test]
fn slow_request_notices_show_once_per_change() {
    assert_eq!(slow_request_message(&vec![]), None);
    let m = slow_request_message(&vec!["vcs.status".into(), "review.diff".into()]).unwrap();
    assert_eq!(m, "Still waiting for vcs.status, review.diff. The request is continuing.");
    let mut last = None;
    assert_eq!(slow_notice_step(&mut last, Some(m.clone())), Some(m.clone()));
    assert_eq!(slow_notice_step(&mut last, Some(m.clone())), None);
    assert_eq!(slow_notice_step(&mut last, None), None);
    assert_eq!(last, None);
}

#[test]
fn terminal_links_open_inside_the_workspace_only() {
    assert!(matches!(
        terminal_file_target(Some("/w"), "/w/src/lib.rs", true),
        TerminalFileTarget::Open(p) if p == "src/lib.rs"
    ));
    assert!(matches!(
        terminal_file_target(Some("/w"), "/w/src/lib.rs", false),
        TerminalFileTarget::NoDock
    ));
    assert!(matches!(
        terminal_file_target(Some("/w"), "/other/a.rs", true),
        TerminalFileTarget::Outside
    ));
    assert!(matches!(terminal_file_target(None, "/w/a.rs", true), TerminalFileTarget::Outside));
}
