use vitre_app::diff::{DiffRow, GutterDrag, PatchFile, PatchHunk, PatchLine, PatchLineKind};
use vitre_app::diff_state::{
    annotation_removal, comment_applies, comment_id, drag_move, drag_start, last_local_status,
    next_comment_id, patch_file_order, patch_refresh, preview_key, raw_patch_lines, reveal_once,
    turn_key, AnnotationRemoval, QuerySlot,
};
use vitre_app::providers::{ServerProvider, ServerProviderState, Skill};
use vitre_app::sending::{
    attachment_ids_to_fetch, drop_acknowledged, enabled_skill_names, exported_plan_text,
};

fn file(path: &str, lines: usize) -> PatchFile {
    PatchFile {
        display_path: path.into(),
        binary: false,
        hunks: vec![PatchHunk {
            lines: (0..lines)
                .map(|_| PatchLine {
                    kind: PatchLineKind::Context,
                    content: String::new(),
                    old_line: None,
                    new_line: None,
                })
                .collect(),
        }],
    }
}

#[test]
fn query_slots_drop_stale_answers() {
    let mut slot: QuerySlot<&str> = QuerySlot::new();
    let first = slot.request(preview_key(None, false)).unwrap();
    assert!(slot.loading);
    assert_eq!(slot.request(preview_key(None, false)), None);
    let second = slot.request(preview_key(Some("main"), false)).unwrap();
    assert_eq!(second, first + 1);
    assert!(!slot.settle(first, Ok("stale")));
    assert_eq!(slot.data, None);
    assert!(slot.settle(second, Ok("fresh")));
    assert_eq!(slot.data, Some("fresh"));
    assert!(!slot.loading);
    let third = slot.request(preview_key(Some("main"), true)).unwrap();
    assert!(slot.settle(third, Err("boom".into())));
    assert_eq!(slot.data, Some("fresh"));
    assert_eq!(slot.error.as_deref(), Some("boom"));
    slot.invalidate();
    assert!(slot.request(preview_key(Some("main"), true)).is_some());
}

#[test]
fn query_keys_tell_inputs_apart() {
    assert_eq!(preview_key(None, false), "0-");
    assert_eq!(preview_key(Some("main"), true), "1+main");
    assert_ne!(preview_key(Some("-"), false), preview_key(None, false));
    assert_eq!(turn_key("t1", 3, false), "03:t1");
    assert_eq!(turn_key("t1", -2, true), "1-2:t1");
}

#[test]
fn a_new_scope_resets_and_rereads() {
    assert_eq!(patch_refresh(None, "unstaged", None, None), (true, true));
    assert_eq!(patch_refresh(Some("unstaged"), "unstaged", Some("a"), Some("a")), (false, false));
    assert_eq!(patch_refresh(Some("unstaged"), "unstaged", Some("a"), Some("b")), (false, true));
    assert_eq!(patch_refresh(Some("turn:1"), "unstaged", Some("a"), Some("a")), (true, true));
    assert_eq!(patch_refresh(Some("x"), "x", None, Some("a")), (false, true));
}

#[test]
fn patch_files_sort_by_path_ignoring_case() {
    let paths = vec![
        "src/b.rs".to_string(),
        "README.md".to_string(),
        "Cargo.toml".to_string(),
        "readme.md".to_string(),
        "src/A.rs".to_string(),
    ];
    assert_eq!(patch_file_order(&paths), vec![2, 1, 3, 4, 0]);
}

#[test]
fn unparsable_patches_show_their_trimmed_lines() {
    assert_eq!(
        raw_patch_lines("\n\nBinary files differ\r\nsecond line\n\n"),
        vec!["Binary files differ".to_string(), "second line".to_string()]
    );
    assert!(raw_patch_lines("   \n ").is_empty());
}

#[test]
fn gutter_drags_follow_one_file() {
    let files = vec![file("a.rs", 5), file("b.rs", 5)];
    assert!(drag_start(true, &files, 0, 0, 1).is_none());
    assert!(drag_start(false, &files, 7, 0, 1).is_none());
    let mut drag = drag_start(false, &files, 0, 0, 1);
    let start = drag.unwrap();
    assert_eq!(start.anchor, start.head);
    assert!(drag_move(&mut drag, &files, 0, 0, 3, true));
    let moved = drag.unwrap();
    assert_eq!(moved.anchor, start.anchor);
    assert!(moved.head > moved.anchor);
    assert!(!drag_move(&mut drag, &files, 1, 0, 3, true));
    assert!(!drag_move(&mut drag, &files, 0, 0, 3, true));
    assert!(drag_move(&mut drag, &files, 0, 0, 4, false));
    assert!(drag.is_none());
    let mut none: Option<GutterDrag> = None;
    assert!(!drag_move(&mut none, &files, 0, 0, 1, true));
}

#[test]
fn comments_anchor_in_their_own_section_and_file() {
    assert!(comment_applies("unstaged", "a.rs", "unstaged", "a.rs", None));
    assert!(comment_applies("unstaged", "a.rs", "unstaged", "a.rs", Some("diff")));
    assert!(!comment_applies("unstaged", "a.rs", "unstaged", "a.rs", Some("rust")));
    assert!(!comment_applies("unstaged", "a.rs", "turn:1", "a.rs", None));
    assert!(!comment_applies("unstaged", "a.rs", "unstaged", "b.rs", None));
    assert!(matches!(
        annotation_removal(Some("d1"), "d1"),
        AnnotationRemoval::CancelDraft
    ));
    assert!(matches!(
        annotation_removal(Some("d1"), "c9"),
        AnnotationRemoval::RemoveComment
    ));
    assert!(matches!(annotation_removal(None, "d1"), AnnotationRemoval::RemoveComment));
    assert_eq!(comment_id(1700000000123, 4), "file-comment-1700000000123-4");
    let mut seq = 6u64;
    let id = next_comment_id(&mut seq);
    assert_eq!(seq, 7);
    assert!(id.starts_with("file-comment-") && id.ends_with("-7"));
}

#[test]
fn a_deep_link_reveals_once_per_request() {
    let files = vec![file("a.rs", 1), file("b.rs", 1)];
    let rows = vec![
        DiffRow::File { file: 0 },
        DiffRow::Line {
            file: 0,
            hunk: 0,
            line: 0,
        },
        DiffRow::File { file: 1 },
    ];
    assert_eq!(reveal_once(None, "b.rs", 3, &rows, &files), Some((2, 3)));
    assert_eq!(reveal_once(Some(3), "b.rs", 3, &rows, &files), None);
    assert_eq!(reveal_once(Some(2), "b.rs", 3, &rows, &files), Some((2, 3)));
    assert_eq!(reveal_once(None, "c.rs", 4, &rows, &files), None);
}

#[test]
fn the_last_local_status_of_a_batch_wins() {
    assert_eq!(
        last_local_status(vec![(true, Some(1)), (false, Some(9)), (true, Some(2)), (false, None)]),
        Some(2)
    );
    assert_eq!(last_local_status::<u8>(vec![(false, Some(1))]), None);
}

#[test]
fn echoed_optimistic_rows_are_dropped() {
    let optimistic = vec![("m1".to_string(), 'a'), ("m2".to_string(), 'b'), ("m3".to_string(), 'c')];
    assert_eq!(
        drop_acknowledged(optimistic, &vec!["m2".to_string(), "zz".to_string()]),
        vec![("m1".to_string(), 'a'), ("m3".to_string(), 'c')]
    );
}

#[test]
fn only_missing_attachment_urls_are_fetched() {
    let ids = vec![
        Some("a".to_string()),
        None,
        Some("b".to_string()),
        Some("c".to_string()),
        Some("a".to_string()),
    ];
    assert_eq!(
        attachment_ids_to_fetch(&ids, &vec!["b".to_string()], &vec!["c".to_string()]),
        vec!["a".to_string(), "a".to_string()]
    );
}

#[test]
fn enabled_skills_become_chips() {
    let provider = ServerProvider {
        instance_id: "p".into(),
        driver: "p".into(),
        display_name: None,
        enabled: true,
        status: ServerProviderState::Ready,
        availability: None,
        message: None,
        unavailable_reason: None,
        requires_new_thread_for_model_change: false,
        models: Vec::new(),
        version_advisory: None,
        slash_commands: Vec::new(),
        skills: vec![
            Skill {
                name: "review".into(),
                enabled: true,
                short_description: None,
                description: None,
            },
            Skill {
                name: "off".into(),
                enabled: false,
                short_description: None,
                description: None,
            },
        ],
    };
    assert_eq!(enabled_skill_names(Some(&provider)), vec!["review".to_string()]);
    assert!(enabled_skill_names(None).is_empty());
}

#[test]
fn exported_plans_end_in_one_line_break() {
    assert_eq!(exported_plan_text("# Plan\n- a  \n\n"), "# Plan\n- a\n");
    assert_eq!(exported_plan_text(""), "\n");
}
