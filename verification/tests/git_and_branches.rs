use vitre_app::branches::{
    create_row_value, decode_pick, stop_session_first, BranchAction, BranchPages, BranchPick,
};
use vitre_app::git::{
    apply_progress_event, branch_update_needed, commit_submission, commit_summary, git_run_step,
    progress_elapsed_secs, progress_title, pull_note, resumed_options, settle_outcome,
    should_push_before_pr, split_progress_events, CommitFile, GitActivity, GitProgress,
    GitRunOptions, GitRunStep, GitStatusFacts, ProgressEvent,
};

fn progress(seq: u64) -> GitProgress {
    GitProgress {
        seq,
        title: "Committing...".into(),
        current_phase_label: None,
        last_output_line: None,
        phase_started_at: Some(0),
        hook_started_at: None,
    }
}

fn status(is_default_ref: bool, ref_name: Option<&str>) -> GitStatusFacts {
    GitStatusFacts {
        is_repo: true,
        has_working_tree_changes: true,
        is_default_ref,
        ref_name: ref_name.map(str::to_string),
        has_upstream: true,
        ahead_count: 0,
    }
}

fn options(skip: bool, from_dialog: bool) -> GitRunOptions {
    GitRunOptions {
        commit_message: None,
        skip_default_branch_prompt: skip,
        feature_branch: false,
        file_paths: None,
        from_commit_dialog: from_dialog,
    }
}

fn file(path: &str, insertions: i64, deletions: i64) -> CommitFile {
    CommitFile {
        path: path.into(),
        insertions,
        deletions,
    }
}

#[test]
fn a_stale_run_cannot_release_a_newer_one() {
    let mut activity = GitActivity {
        busy: false,
        action_seq: 4,
    };
    assert_eq!(activity.begin(), Some(5));
    assert_eq!(activity.begin(), None);
    assert!(!activity.finish(4));
    assert!(activity.busy);
    assert!(activity.finish(5));
    assert!(!activity.busy);
    assert_eq!(activity.action_seq, 5);
}

#[test]
fn only_this_runs_events_reach_the_toast() {
    let events: Vec<ProgressEvent<u32>> = vec![
        ProgressEvent::PhaseStarted {
            action_id: "act".into(),
            cwd: "/repo".into(),
            label: "Committing...".into(),
        },
        ProgressEvent::HookOutput {
            action_id: "other".into(),
            cwd: "/repo".into(),
            text: "ignored".into(),
        },
        ProgressEvent::HookOutput {
            action_id: "act".into(),
            cwd: "/elsewhere".into(),
            text: "ignored".into(),
        },
        ProgressEvent::ActionFinished {
            action_id: "act".into(),
            cwd: "/repo".into(),
            result: 7,
        },
        ProgressEvent::Unknown,
    ];
    let mut outcome: Option<Result<u32, String>> = None;
    let relevant = split_progress_events(events, "act", "/repo", &mut outcome);
    assert_eq!(relevant.len(), 1);
    assert!(matches!(&relevant[0], ProgressEvent::PhaseStarted { label, .. } if label == "Committing..."));
    assert_eq!(outcome, Some(Ok(7)));

    let failed: Vec<ProgressEvent<u32>> = vec![ProgressEvent::ActionFailed {
        action_id: "act".into(),
        cwd: "/repo".into(),
        message: "hook failed".into(),
    }];
    let mut outcome = Some(Ok(1));
    assert!(split_progress_events(failed, "act", "/repo", &mut outcome).is_empty());
    assert_eq!(outcome, Some(Err("hook failed".to_string())));
}

#[test]
fn a_settled_stream_without_a_result_reports_it() {
    assert_eq!(settle_outcome(Some(Ok::<u8, String>(3)), None), Ok(3));
    assert_eq!(
        settle_outcome::<u8>(None, Some("stream closed".into())),
        Err("stream closed".to_string())
    );
    assert_eq!(
        settle_outcome::<u8>(None, None),
        Err("Git action did not report a result.".to_string())
    );
}

#[test]
fn hook_events_rewrite_the_toast_title() {
    let mut slot = Some(progress(3));
    let phase: ProgressEvent<()> = ProgressEvent::PhaseStarted {
        action_id: "a".into(),
        cwd: "c".into(),
        label: "Pushing...".into(),
    };
    apply_progress_event(&mut slot, 3, &phase, 1000);
    let hook: ProgressEvent<()> = ProgressEvent::HookStarted {
        action_id: "a".into(),
        cwd: "c".into(),
        hook_name: "pre-push".into(),
    };
    apply_progress_event(&mut slot, 3, &hook, 2500);
    assert_eq!(slot.as_ref().unwrap().title, "Running pre-push...");
    assert_eq!(progress_elapsed_secs(slot.as_ref().unwrap(), 5600), Some(3));
    let output: ProgressEvent<()> = ProgressEvent::HookOutput {
        action_id: "a".into(),
        cwd: "c".into(),
        text: "checking".into(),
    };
    apply_progress_event(&mut slot, 3, &output, 2600);
    assert_eq!(slot.as_ref().unwrap().last_output_line.as_deref(), Some("checking"));
    let done: ProgressEvent<()> = ProgressEvent::HookFinished {
        action_id: "a".into(),
        cwd: "c".into(),
    };
    apply_progress_event(&mut slot, 3, &done, 3000);
    let p = slot.as_ref().unwrap();
    assert_eq!(p.title, "Pushing...");
    assert_eq!(p.hook_started_at, None);
    assert_eq!(progress_elapsed_secs(p, 900), Some(0));

    let mut other = Some(progress(9));
    apply_progress_event(&mut other, 3, &done, 0);
    assert_eq!(other.as_ref().unwrap().title, "Committing...");
    let mut fresh = Some(progress(1));
    apply_progress_event(&mut fresh, 1, &done, 0);
    assert_eq!(fresh.unwrap().title, "Committing...");
}

#[test]
fn the_toast_starts_with_the_first_stage() {
    assert_eq!(progress_title(&["Committing...".to_string()]), "Committing...");
    assert_eq!(progress_title(&[]), "Running git action...");
}

#[test]
fn the_default_branch_prompt_needs_a_known_branch() {
    let main = status(true, Some("main"));
    match git_run_step(&options(false, true), true, Some(&main)) {
        GitRunStep::ConfirmDefaultBranch { branch } => assert_eq!(branch, "main"),
        GitRunStep::Start { .. } => panic!("expected the prompt"),
    }
    assert!(matches!(
        git_run_step(&options(true, true), true, Some(&main)),
        GitRunStep::Start { close_commit_dialog: true }
    ));
    let detached = status(true, None);
    assert!(matches!(
        git_run_step(&options(false, false), true, Some(&detached)),
        GitRunStep::Start { close_commit_dialog: false }
    ));
    assert!(matches!(
        git_run_step(&options(false, false), false, Some(&main)),
        GitRunStep::Start { .. }
    ));
    let resumed = resumed_options(Some("msg".into()), None, true, true);
    assert!(resumed.skip_default_branch_prompt && resumed.feature_branch);
}

#[test]
fn a_pull_request_pushes_first_without_upstream_or_when_ahead() {
    assert!(should_push_before_pr(None));
    let mut s = status(false, Some("feature"));
    assert!(!should_push_before_pr(Some(&s)));
    s.ahead_count = 2;
    assert!(should_push_before_pr(Some(&s)));
    s.ahead_count = 0;
    s.has_upstream = false;
    assert!(should_push_before_pr(Some(&s)));
}

#[test]
fn the_commit_dialog_sums_the_selected_files() {
    let files = vec![file("a.rs", 3, 1), file("b.rs", 10, 4), file("c.rs", 1, 0)];
    let excluded = vec!["b.rs".to_string()];
    assert_eq!(commit_summary(&files, &excluded), (2, 3, 4, 1));
    assert_eq!(commit_summary(&files, &Vec::new()), (3, 3, 14, 5));
}

#[test]
fn the_commit_dialog_submits_a_subset_only_when_it_is_one() {
    let files = vec![file("a.rs", 1, 1), file("b.rs", 1, 1)];
    let (paths, message) = commit_submission(&files, &vec!["b.rs".to_string()], "  fix it \n").unwrap();
    assert_eq!(paths, Some(vec!["a.rs".to_string()]));
    assert_eq!(message, Some("fix it".to_string()));
    let (paths, message) = commit_submission(&files, &Vec::new(), "   ").unwrap();
    assert_eq!(paths, None);
    assert_eq!(message, None);
    assert!(commit_submission(&files, &vec!["a.rs".into(), "b.rs".into()], "x").is_none());
}

#[test]
fn pull_results_name_the_ref() {
    assert_eq!(
        pull_note("main", true, Some("origin/main")),
        ("Pulled".to_string(), "Updated main from origin/main".to_string())
    );
    assert_eq!(
        pull_note("main", true, None),
        ("Pulled".to_string(), "Updated main from upstream".to_string())
    );
    assert_eq!(
        pull_note("dev", false, None),
        (
            "Already up to date".to_string(),
            "dev is already synchronized.".to_string()
        )
    );
    assert!(!branch_update_needed(Some("feat"), "feat"));
    assert!(branch_update_needed(Some("main"), "feat"));
    assert!(branch_update_needed(None, "feat"));
}

#[test]
fn ref_pages_drop_answers_of_an_earlier_generation() {
    let mut pages: BranchPages<&str> = BranchPages::new();
    let first = pages.refresh();
    assert!(pages.initial_pending);
    assert_eq!(pages.cursors, vec![None]);
    assert!(pages.apply_page(first, 0, Some("page0")));
    assert!(!pages.initial_pending && pages.has_loaded);
    assert_eq!(pages.pages, vec![Some("page0")]);

    assert_eq!(pages.load_next(Some(40), false), Some(1));
    assert!(pages.fetching_next);
    assert_eq!(pages.load_next(Some(80), false), None);
    let second = pages.refresh();
    assert!(!pages.initial_pending);
    assert!(!pages.apply_page(first, 0, Some("stale")));
    assert_eq!(pages.pages, vec![None]);
    assert!(pages.apply_page(second, 0, None));
    assert_eq!(pages.load_next(None, false), None);
    assert_eq!(pages.load_next(Some(40), true), None);
    assert_eq!(pages.load_next(Some(40), false), Some(1));
    assert!(pages.apply_page(second, 1, Some("page1")));
    assert!(!pages.fetching_next);
    assert_eq!(pages.load_next(Some(40), false), None);
    assert!(pages.trigger_disabled(true));
    assert!(pages.set_query("feat".into()));
    assert!(!pages.set_query("feat".into()));
}

#[test]
fn the_create_row_value_round_trips() {
    let value = create_row_value("feature/x");
    assert_eq!(value, "__create_new_branch__:feature/x");
    match decode_pick(&value) {
        BranchPick::Create(name) => assert_eq!(name, "feature/x"),
        BranchPick::Existing(_) => panic!("expected a create row"),
    }
    match decode_pick("main") {
        BranchPick::Existing(name) => assert_eq!(name, "main"),
        BranchPick::Create(_) => panic!("expected an existing ref"),
    }
}

#[test]
fn a_failed_checkout_restores_the_previous_label() {
    let mut action = BranchAction {
        optimistic: Some("old".into()),
        pending: false,
    };
    let previous = action.begin("feat".into()).unwrap();
    assert_eq!(action.optimistic.as_deref(), Some("feat"));
    assert!(action.begin("other".into()).is_none());
    action.finish(Err(()), previous);
    assert_eq!(action.optimistic.as_deref(), Some("old"));
    assert!(!action.pending);
    let previous = action.begin("feat".into()).unwrap();
    action.finish(Ok("feat-sanitized".into()), previous);
    assert_eq!(action.optimistic.as_deref(), Some("feat-sanitized"));
    action.observe_current(Some("main"));
    assert_eq!(action.optimistic.as_deref(), Some("feat-sanitized"));
    action.observe_current(Some("feat-sanitized"));
    assert_eq!(action.optimistic, None);
}

#[test]
fn a_worktree_change_stops_the_session_first() {
    assert!(stop_session_first(true, Some("/wt"), None));
    assert!(!stop_session_first(true, Some("/wt"), Some("/wt")));
    assert!(!stop_session_first(false, Some("/wt"), None));
    assert!(!stop_session_first(true, None, None));
}
