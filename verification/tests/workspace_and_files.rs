use vitre_app::attachments::{
    append_token, attachment_size_label, attachment_url, file_context_path, file_context_token,
    file_token_from, infer_attachment_mime_type, stage_files, stage_pasted_images,
    PendingAttachment,
};
use vitre_app::changed_files::{
    changed_files_label, effective_expanded, scope_files_label, summary_for_message, CardLocal,
    CheckpointCard,
};
use vitre_app::drafts::{draft_file_name, draft_key, draft_model_label, draft_send_enabled};
use vitre_app::notices::{announce_provider_updates, describe_status, SidecarStatus};
use vitre_app::providers::{
    ModelSelection, ServerModel, ServerProvider, ServerProviderState, VersionAdvisory,
};
use vitre_app::shell::{
    draft_project_choice, open_project_root, project_latest_thread, search_root, shell_threads,
    thread_title,
    ProjectShell, ThreadShell,
};
use vitre_app::threads::{
    adopt_created_thread, implement_plan_failure, implement_plan_operation, implement_plan_prompt,
    implement_plan_title, plan_draft_thread, DraftCreate, InFlight,
};
use vitre_app::time::{
    format_short_timestamp, fresh_id, message_timestamp, relative_label, relative_time, same_date,
    short_pattern_for, short_pattern_of, short_timestamp_from, stamped_id,
};

fn provider(id: &str, enabled: bool, advisory: Option<VersionAdvisory>) -> ServerProvider {
    ServerProvider {
        instance_id: id.into(),
        driver: id.into(),
        display_name: None,
        enabled,
        status: ServerProviderState::Ready,
        availability: None,
        message: None,
        unavailable_reason: None,
        requires_new_thread_for_model_change: false,
        models: vec![ServerModel {
            slug: "m-5".into(),
            name: "M-5".into(),
            is_default: true,
        }],
        version_advisory: advisory,
        slash_commands: Vec::new(),
        skills: Vec::new(),
    }
}

fn thread(id: &str, project: &str, created: &str, archived: bool, worktree: Option<&str>) -> ThreadShell {
    ThreadShell {
        id: id.into(),
        project_id: project.into(),
        title: format!("title {id}"),
        created_at: created.into(),
        updated_at: created.into(),
        archived,
        worktree_path: worktree.map(str::to_string),
    }
}

fn project(id: &str, root: &str) -> ProjectShell {
    ProjectShell {
        id: id.into(),
        title: format!("project {id}"),
        workspace_root: root.into(),
        default_model_selection: None,
    }
}

#[test]
fn mime_types_follow_the_last_extension() {
    assert_eq!(infer_attachment_mime_type("shot.PNG"), "image/png");
    assert_eq!(infer_attachment_mime_type("a.b.JPEG"), "image/jpeg");
    assert_eq!(infer_attachment_mime_type("main.rs"), "text/x-rust");
    assert_eq!(infer_attachment_mime_type("app.TSX"), "application/typescript");
    assert_eq!(infer_attachment_mime_type("notes.txt"), "text/plain");
    assert_eq!(infer_attachment_mime_type("archive.tar.gz"), "application/octet-stream");
    assert_eq!(infer_attachment_mime_type("Makefile"), "application/octet-stream");
    assert_eq!(infer_attachment_mime_type("trailing."), "application/octet-stream");
}

#[test]
fn size_labels_below_a_megabyte_are_exact() {
    assert_eq!(attachment_size_label(512), Some("512 B".to_string()));
    assert_eq!(attachment_size_label(1023), Some("1023 B".to_string()));
    assert_eq!(attachment_size_label(2048), Some("2 KB".to_string()));
    assert_eq!(attachment_size_label(1048575), Some("1023 KB".to_string()));
    assert_eq!(attachment_size_label(1048576), None);
}

#[test]
fn read_files_become_data_url_attachments() {
    let mut pending: Vec<PendingAttachment> = Vec::new();
    let error = stage_files(
        &mut pending,
        vec![
            ("one.txt".into(), Ok(b"x".to_vec())),
            ("gone.md".into(), Err("No such file".into())),
            ("big.bin".into(), Ok(vec![0u8; 10 * 1024 * 1024 + 1])),
            ("pic.png".into(), Ok(vec![0x89, b'P', b'N', b'G'])),
        ],
    );
    assert_eq!(
        error,
        Some("'big.bin' exceeds the 10MB attachment limit.".to_string())
    );
    assert_eq!(pending.len(), 2);
    assert_eq!(pending[0].name, "one.txt");
    assert_eq!(pending[0].mime_type, "text/plain");
    assert_eq!(pending[0].size_bytes, 1);
    assert_eq!(pending[0].data_url, "data:text/plain;base64,eA==");
    assert!(!pending[0].is_image);
    assert_eq!(pending[1].data_url, "data:image/png;base64,iVBORw==");
    assert!(pending[1].is_image);

    let mut one: Vec<PendingAttachment> = Vec::new();
    assert_eq!(
        stage_files(&mut one, vec![("gone.md".into(), Err("denied".into()))]),
        Some("Could not read 'gone.md': denied".to_string())
    );
    assert!(stage_files(&mut one, Vec::new()).is_none());
}

#[test]
fn the_attachment_cap_stops_the_batch() {
    let mut pending: Vec<PendingAttachment> = Vec::new();
    let files: Vec<(String, Result<Vec<u8>, String>)> = (0..10)
        .map(|i| (format!("f{i}.txt"), Ok(vec![b'a'])))
        .collect();
    assert_eq!(
        stage_files(&mut pending, files),
        Some("You can attach up to 8 files per message.".to_string())
    );
    assert_eq!(pending.len(), 8);
    assert_eq!(pending[7].name, "f7.txt");
}

#[test]
fn pasted_images_are_numbered_by_position() {
    let mut pending: Vec<PendingAttachment> = Vec::new();
    stage_files(&mut pending, vec![("a.txt".into(), Ok(vec![b'a']))]);
    let error = stage_pasted_images(
        &mut pending,
        vec![
            ("image/png".into(), "png".into(), vec![1, 2, 3]),
            ("image/png".into(), "png".into(), vec![0; 10 * 1024 * 1024 + 1]),
            ("image/jpeg".into(), "jpg".into(), vec![4]),
        ],
    );
    assert_eq!(
        error,
        Some("Pasted image exceeds the 10MB attachment limit.".to_string())
    );
    assert_eq!(pending.len(), 3);
    assert_eq!(pending[1].name, "pasted-image-2.png");
    assert_eq!(pending[2].name, "pasted-image-3.jpg");
    assert_eq!(pending[2].mime_type, "image/jpeg");
    assert!(pending[2].is_image);
    assert_eq!(pending[1].data_url, "data:image/png;base64,AQID");
}

#[test]
fn attachment_urls_join_with_one_slash() {
    assert_eq!(
        attachment_url("http://127.0.0.1:4000//", "/attachments/a"),
        "http://127.0.0.1:4000/attachments/a"
    );
    assert_eq!(
        attachment_url("http://h", "attachments/a"),
        "http://h/attachments/a"
    );
}

#[test]
fn file_context_tokens_quote_awkward_paths() {
    assert_eq!(file_context_token("src/a.rs"), "@src/a.rs");
    assert_eq!(file_context_token("My Docs/a.md"), "@\"My Docs/a.md\"");
    assert_eq!(file_context_token("say\"hi\".txt"), "@\"say\\\"hi\\\".txt\"");
    assert_eq!(file_token_from("a b", "QUOTED"), "@QUOTED");
    assert_eq!(file_token_from("ab", "QUOTED"), "@ab");
    assert_eq!(file_context_path(Some("/w"), "/w", "a.rs"), "a.rs");
    assert_eq!(file_context_path(Some("/x"), "/w", "a.rs"), "/w/a.rs");
    assert_eq!(file_context_path(None, "/w", "/abs/a.rs"), "/abs/a.rs");
}

#[test]
fn appended_tokens_are_space_separated() {
    assert_eq!(append_token("", "@a.rs"), "@a.rs ");
    assert_eq!(append_token("look at", "@a.rs"), "look at @a.rs ");
    assert_eq!(append_token("look at\n", "@a.rs"), "look at\n@a.rs ");
}

#[test]
fn draft_files_are_named_by_url_safe_base64() {
    assert_eq!(draft_key(Some("t1"), Some("p1")), Some("t1".to_string()));
    assert_eq!(draft_key(None, Some("p1")), Some("project:p1".to_string()));
    assert_eq!(draft_key(None, None), None);
    assert_eq!(draft_file_name("env/thread/one"), "ZW52L3RocmVhZC9vbmU.json");
    assert_eq!(draft_file_name("project:p1"), "cHJvamVjdDpwMQ.json");
    assert!(!draft_file_name("a/b\\c//d").contains('/'));
}

#[test]
fn the_draft_landing_names_the_chosen_model() {
    let providers = vec![provider("helix", true, None)];
    let chosen = ModelSelection {
        instance_id: Some("helix".into()),
        model: Some("m-5".into()),
    };
    assert_eq!(draft_model_label(&providers, Some(&chosen)), "M-5");
    let other_instance = ModelSelection {
        instance_id: Some("orca".into()),
        model: Some("m-5".into()),
    };
    assert_eq!(draft_model_label(&providers, Some(&other_instance)), "m-5");
    let any_instance = ModelSelection {
        instance_id: None,
        model: Some("m-5".into()),
    };
    assert_eq!(draft_model_label(&providers, Some(&any_instance)), "M-5");
    assert_eq!(draft_model_label(&providers, None), "Choose model");
    assert!(draft_send_enabled(false, true, " hi ", 0));
    assert!(draft_send_enabled(false, true, "  ", 1));
    assert!(!draft_send_enabled(false, true, " \n ", 0));
    assert!(!draft_send_enabled(true, true, "hi", 0));
    assert!(!draft_send_enabled(false, false, "hi", 0));
}

#[test]
fn the_sidebar_lists_unarchived_threads_newest_first() {
    let threads = vec![
        thread("a", "p1", "2026-01-01", false, None),
        thread("b", "p1", "2026-01-03", true, None),
        thread("c", "p2", "2026-01-02", false, None),
        thread("d", "p2", "2026-01-02", false, None),
    ];
    assert_eq!(shell_threads(&threads), vec![2, 3, 0]);
    assert_eq!(thread_title(&threads, "c"), "title c");
    assert_eq!(thread_title(&threads, "zz"), "(untitled)");
}

#[test]
fn search_falls_back_through_thread_draft_and_first_project() {
    let threads = vec![
        thread("a", "p1", "1", false, Some("/wt/a")),
        thread("b", "p2", "2", false, None),
    ];
    let projects = vec![project("p1", "/p1"), project("p2", "/p2")];
    assert_eq!(open_project_root(&threads, &projects, Some("a")), Some("/wt/a".to_string()));
    assert_eq!(open_project_root(&threads, &projects, Some("b")), Some("/p2".to_string()));
    assert_eq!(
        search_root(Some("/chosen"), &threads, &projects, Some("a"), None),
        Some("/chosen".to_string())
    );
    assert_eq!(
        search_root(None, &threads, &projects, Some("b"), None),
        Some("/p2".to_string())
    );
    assert_eq!(
        search_root(None, &threads, &projects, None, Some("p2")),
        Some("/p2".to_string())
    );
    assert_eq!(
        search_root(None, &threads, &projects, Some("zz"), Some("nope")),
        Some("/p1".to_string())
    );
    assert_eq!(search_root(None, &threads, &[], None, None), None);
}

#[test]
fn a_new_draft_opens_on_the_last_visited_project() {
    let threads = vec![
        thread("a", "p1", "2026-01-01", false, None),
        thread("b", "p2", "2026-01-02", false, None),
        thread("c", "p3", "2026-01-03", false, None),
    ];
    let projects = vec![project("p9", "/p9")];
    assert_eq!(
        draft_project_choice(&threads, &[Some(5), Some(9), None], &projects),
        Some("p2".to_string())
    );
    assert_eq!(
        draft_project_choice(&threads, &[Some(5), None, Some(5)], &projects),
        Some("p1".to_string())
    );
    assert_eq!(
        draft_project_choice(&threads, &[None, None, None], &projects),
        Some("p9".to_string())
    );
}

#[test]
fn age_labels_use_whole_units() {
    assert_eq!(relative_label(-30), "now");
    assert_eq!(relative_label(59), "now");
    assert_eq!(relative_label(60), "1m");
    assert_eq!(relative_label(3599), "59m");
    assert_eq!(relative_label(7200), "2h");
    assert_eq!(relative_label(172_800), "2d");
    assert_eq!(relative_time("yesterday"), None);
    assert!(relative_time("2001-01-01T00:00:00Z").unwrap().ends_with('d'));
    assert_eq!(message_timestamp("not a time"), "not a time");
    // Long ago: whole days.
    assert!(message_timestamp("2001-02-03T04:05:06Z").ends_with('d'));
    assert_eq!(message_timestamp(&chrono::Utc::now().to_rfc3339()), "now");
}

#[test]
fn each_provider_update_is_announced_once() {
    let advisory = |latest: Option<&str>| {
        Some(VersionAdvisory {
            behind_latest: true,
            latest_version: latest.map(str::to_string),
        })
    };
    let providers = vec![
        provider("helix", true, advisory(Some("1.2.0"))),
        provider("orca", true, advisory(None)),
        provider("off", false, advisory(Some("9"))),
        provider("fresh", true, None),
    ];
    let mut seen = Vec::new();
    assert_eq!(
        announce_provider_updates(&providers, &mut seen),
        Some(
            "Provider updates available: helix (1.2.0), orca (latest). Open Settings → Providers to update."
                .to_string()
        )
    );
    assert_eq!(seen, vec!["helix:1.2.0".to_string(), "orca:latest".to_string()]);
    assert_eq!(announce_provider_updates(&providers, &mut seen), None);
}

#[test]
fn sidecar_status_lines() {
    assert_eq!(describe_status(&SidecarStatus::Idle), "sidecar: idle");
    assert_eq!(
        describe_status(&SidecarStatus::Starting { attempt: 2 }),
        "sidecar: starting (attempt 2)"
    );
    assert_eq!(
        describe_status(&SidecarStatus::Ready { port: 4173 }),
        "sidecar: 127.0.0.1:4173"
    );
    assert_eq!(
        describe_status(&SidecarStatus::Backoff { delay_ms: 500 }),
        "sidecar: restarting in 500ms"
    );
    assert_eq!(
        describe_status(&SidecarStatus::Stopped {
            reason: "exit 1".into()
        }),
        "sidecar: stopped (exit 1)"
    );
}

#[test]
fn a_request_in_flight_cannot_start_twice() {
    let mut in_flight = InFlight { keys: Vec::new() };
    let key = implement_plan_operation("thread-1", "plan-2");
    assert_eq!(key, "implement-plan:thread-1:plan-2");
    assert!(in_flight.insert(&key));
    assert!(!in_flight.insert(&key));
    in_flight.remove(&key);
    assert!(in_flight.insert(&key));
}

#[test]
fn implementing_a_plan_names_the_thread_after_it() {
    assert_eq!(implement_plan_title("# Ship it\n- step"), "Implement: Ship it");
    assert_eq!(implement_plan_title("- step only"), "Implement plan");
    assert_eq!(
        implement_plan_prompt("\n  do things \n"),
        "PLEASE IMPLEMENT THIS PLAN:\ndo things"
    );
    assert_eq!(
        implement_plan_failure(false, "offline"),
        "Could not create a thread for this plan: offline"
    );
    assert!(implement_plan_failure(true, "timeout").ends_with("before retrying: timeout"));
}

#[test]
fn a_draft_thread_needs_a_project_and_a_model() {
    let model = ModelSelection {
        instance_id: Some("helix".into()),
        model: Some("m-5".into()),
    };
    assert!(matches!(
        plan_draft_thread(None, None, &[], Some(&model), None, true, false),
        DraftCreate::Fail(m) if m == "No project yet — open a folder."
    ));
    let projects = vec![project("p1", "/p1")];
    assert!(matches!(
        plan_draft_thread(None, None, &projects, None, None, true, false),
        DraftCreate::Fail(m) if m == "No provider configured."
    ));
    assert!(matches!(
        plan_draft_thread(None, None, &projects, Some(&model), None, false, false),
        DraftCreate::Skip
    ));
    assert!(matches!(
        plan_draft_thread(None, None, &projects, Some(&model), None, true, true),
        DraftCreate::Skip
    ));
    let fallback = ModelSelection {
        instance_id: Some("helix".into()),
        model: Some("m-5".into()),
    };
    match plan_draft_thread(Some("p7"), Some("p1"), &projects, None, Some(fallback), true, false) {
        DraftCreate::Create { project_id, model } => {
            assert_eq!(project_id, "p7");
            assert_eq!(model.model.as_deref(), Some("m-5"));
        }
        _ => panic!("expected a creation"),
    }
    assert!(adopt_created_thread(false, Some("p1"), "p1"));
    assert!(!adopt_created_thread(true, Some("p1"), "p1"));
    assert!(!adopt_created_thread(false, Some("p2"), "p1"));
}

#[test]
fn folder_overrides_belong_to_one_tree_state() {
    let mut card = CardLocal::new(false);
    card.toggle_dir("src".into(), "k1");
    assert_eq!(card.get_override("src"), Some(true));
    card.toggle_dir("src".into(), "k1");
    assert_eq!(card.get_override("src"), Some(false));
    card.toggle_dir("lib".into(), "k1");
    assert_eq!(card.dir_overrides.len(), 2);
    // Overrides are kept in path order, whatever order they were made in.
    assert_eq!(card.dir_overrides[0].0, "lib");
    assert_eq!(card.dir_overrides[1].0, "src");
    card.toggle_dir("src".into(), "k2");
    assert_eq!(card.dir_overrides.len(), 1);
    assert_eq!(card.get_override("src"), Some(true));
    card.toggle_all_dirs();
    assert!(card.all_dirs_expanded);
    assert!(effective_expanded(Some(false), true, Some(&CardLocal::new(true))) == false);
    assert!(effective_expanded(None, true, Some(&CardLocal::new(true))));
    assert!(!effective_expanded(None, false, Some(&CardLocal::new(true))));
    assert!(!effective_expanded(None, true, None));
    assert_eq!(changed_files_label(1), "1 changed file");
    assert_eq!(changed_files_label(12), "12 changed files");
    assert_eq!(scope_files_label(0), "0 files");
    let cps = vec![
        CheckpointCard {
            turn_id: "t1".into(),
            assistant_message_id: Some("m1".into()),
        },
        CheckpointCard {
            turn_id: "t2".into(),
            assistant_message_id: Some("m1".into()),
        },
    ];
    assert_eq!(summary_for_message(&cps, "m1"), Some(1));
    assert_eq!(summary_for_message(&cps, "m2"), None);
}

#[test]
fn short_timestamp_keeps_unparsed_text_and_formats_dates() {
    assert_eq!(format_short_timestamp("yesterday"), "yesterday");
    let old = format_short_timestamp("2001-02-03T04:05:06Z");
    // Not today: month, day and time, e.g. "Feb 3, 04:05" in UTC.
    assert!(old.contains(", "));
    assert!(old.contains(':'));
    let now = chrono::Utc::now().to_rfc3339();
    let today = format_short_timestamp(&now);
    assert_eq!(today.len(), 5);
    assert!(today.contains(':'));
}

#[test]
fn opening_a_project_lands_on_its_newest_thread() {
    let threads = vec![
        thread("a", "p1", "2024-01-01T00:00:00Z", false, None),
        thread("b", "p1", "2024-03-01T00:00:00Z", true, None),
        thread("c", "p1", "2024-02-01T00:00:00Z", false, None),
        thread("d", "p2", "2024-04-01T00:00:00Z", false, None),
    ];
    // "b" is newer but archived; "c" is the newest live thread of p1.
    assert_eq!(project_latest_thread(&threads, "p1"), Some(2));
    assert_eq!(project_latest_thread(&threads, "p2"), Some(3));
    assert_eq!(project_latest_thread(&threads, "p3"), None);
}

#[test]
fn ids_carry_their_prefix_and_clock_reading() {
    assert_eq!(stamped_id("vitre-cmd", Some(42)), "vitre-cmd-42");
    assert_eq!(stamped_id("vitre-cmd", Some(-5)), "vitre-cmd--5");
    assert_eq!(stamped_id("vitre-cmd", None), "vitre-cmd-0");
    let id = fresh_id("icon-thread");
    assert!(id.starts_with("icon-thread-"));
    assert!(id["icon-thread-".len()..].parse::<i64>().is_ok());
}

#[test]
fn turn_labels_follow_the_day() {
    assert_eq!(short_pattern_for(true), "%H:%M");
    assert_eq!(short_pattern_for(false), "%b %-d, %H:%M");
    assert_eq!(short_pattern_of((2026, 1, 2), (2026, 1, 2)), "%H:%M");
    assert_eq!(short_pattern_of((2026, 1, 2), (2026, 1, 3)), "%b %-d, %H:%M");
    assert!(same_date((2026, 1, 2), (2026, 1, 2)));
    assert!(!same_date((2026, 1, 2), (2026, 1, 3)));
    let iso = "2026-01-02T03:04:05Z";
    assert_eq!(short_timestamp_from(iso, Some(((2026, 1, 2), (2026, 1, 2)))).len(), 5);
    let other = short_timestamp_from(iso, Some(((2026, 1, 2), (2026, 5, 2))));
    assert!(other.contains(", "));
    assert_eq!(short_timestamp_from(iso, None), iso);
}
