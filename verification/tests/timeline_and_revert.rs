use vitre_app::revert::{chronological_order, revert_turn_counts, CheckpointRef, TimelineMessage};
use vitre_app::smoothing::{settle_displayed, smoothing_tick};
use vitre_app::timeline::{
    anchor_row, fold_latest_turn, insert_plan_rows, remeasure_runs, shared_prefix, timeline_rows,
    timeline_splice, DerivedTimelineRow, LatestTurn, TimelineRow, TurnPhase,
};

fn msg(id: &str, is_user: bool, created_at: &str) -> TimelineMessage {
    TimelineMessage {
        id: id.to_string(),
        is_user,
        created_at: created_at.to_string(),
    }
}

fn cp(assistant: Option<&str>, turn_count: i64) -> CheckpointRef {
    CheckpointRef {
        assistant_message_id: assistant.map(str::to_string),
        turn_count,
    }
}

#[test]
fn timeline_rows_number_toggles_and_folds_in_order() {
    let derived = vec![
        DerivedTimelineRow::Message { message_index: 0 },
        DerivedTimelineRow::WorkToggle {
            group_id: "g1".into(),
            hidden_count: 3,
            expanded: false,
            only_tool_entries: true,
        },
        DerivedTimelineRow::Work { entry_index: 2 },
        DerivedTimelineRow::TurnFold {
            turn_id: "t1".into(),
            label: "Worked for 5s".into(),
            expanded: true,
        },
        DerivedTimelineRow::WorkToggle {
            group_id: "g2".into(),
            hidden_count: 1,
            expanded: true,
            only_tool_entries: false,
        },
        DerivedTimelineRow::Working,
    ];
    let (rows, toggles, folds) = timeline_rows(&derived);
    assert_eq!(
        rows,
        vec![
            TimelineRow::Message(0),
            TimelineRow::WorkToggle(0),
            TimelineRow::Work(2),
            TimelineRow::TurnFold(0),
            TimelineRow::WorkToggle(1),
            TimelineRow::Running,
        ]
    );
    assert_eq!(toggles.len(), 2);
    assert_eq!(toggles[0].group_id, "g1");
    assert_eq!(toggles[0].hidden_count, 3);
    assert_eq!(toggles[1].group_id, "g2");
    assert!(toggles[1].expanded);
    assert_eq!(folds.len(), 1);
    assert_eq!(folds[0].turn_id, "t1");
    assert_eq!(folds[0].label, "Worked for 5s");
}

#[test]
fn proposed_plan_rows_go_before_the_running_row() {
    let rows = vec![TimelineRow::Message(0), TimelineRow::Running];
    assert_eq!(
        insert_plan_rows(&rows, 2),
        vec![
            TimelineRow::Message(0),
            TimelineRow::ProposedPlan(0),
            TimelineRow::ProposedPlan(1),
            TimelineRow::Running,
        ]
    );
    let idle = vec![TimelineRow::Message(0), TimelineRow::Message(1)];
    assert_eq!(
        insert_plan_rows(&idle, 1),
        vec![
            TimelineRow::Message(0),
            TimelineRow::Message(1),
            TimelineRow::ProposedPlan(0),
        ]
    );
    assert_eq!(insert_plan_rows(&idle, 0), idle);
}

#[test]
fn a_new_latest_turn_folds_the_previous_one() {
    let mut expanded = vec!["a".to_string(), "b".to_string()];
    let mut prev = Some(LatestTurn {
        turn_id: "a".into(),
        phase: TurnPhase::Settled,
    });
    let latest = LatestTurn {
        turn_id: "c".into(),
        phase: TurnPhase::Running,
    };
    fold_latest_turn(&mut expanded, &mut prev, Some(&latest));
    assert_eq!(expanded, vec!["b".to_string()]);
    assert_eq!(prev.as_ref().map(|p| p.turn_id.as_str()), Some("c"));
}

#[test]
fn an_interrupted_running_turn_stays_expanded() {
    let mut expanded: Vec<String> = Vec::new();
    let mut prev = Some(LatestTurn {
        turn_id: "t".into(),
        phase: TurnPhase::Running,
    });
    let latest = LatestTurn {
        turn_id: "t".into(),
        phase: TurnPhase::Interrupted,
    };
    fold_latest_turn(&mut expanded, &mut prev, Some(&latest));
    assert_eq!(expanded, vec!["t".to_string()]);
    assert_eq!(prev.map(|p| p.phase), Some(TurnPhase::Interrupted));
    let mut untouched = vec!["x".to_string()];
    let mut none: Option<LatestTurn> = None;
    fold_latest_turn(&mut untouched, &mut none, None);
    assert_eq!(untouched, vec!["x".to_string()]);
    assert!(none.is_none());
}

#[test]
fn streaming_tail_is_spliced_not_reset() {
    let previous = vec![
        TimelineRow::Message(0),
        TimelineRow::Message(1),
        TimelineRow::Running,
    ];
    let next = vec![
        TimelineRow::Message(0),
        TimelineRow::Message(1),
        TimelineRow::Message(2),
    ];
    let shared = shared_prefix(&previous, &next);
    assert_eq!(shared, 2);
    assert_eq!(timeline_splice(3, 3, shared), Some((2, 3, 1)));
    assert_eq!(timeline_splice(2, 2, 2), None);
    assert_eq!(shared_prefix(&next, &next), 3);
}

#[test]
fn only_rows_whose_fingerprint_moved_are_remeasured() {
    let previous = vec![1u64, 2, 3, 4, 5];
    let next = vec![1u64, 9, 9, 4, 7, 8];
    assert_eq!(remeasure_runs(&previous, &next, 5), vec![(1, 3), (4, 5)]);
    assert_eq!(remeasure_runs(&previous, &previous, 5), Vec::<(usize, usize)>::new());
    assert_eq!(remeasure_runs(&previous, &next, 2), vec![(1, 2)]);
}

#[test]
fn the_send_anchor_finds_the_message_row() {
    let rows = vec![
        TimelineRow::Work(0),
        TimelineRow::Message(1),
        TimelineRow::Message(0),
    ];
    let ids = vec!["m0".to_string(), "m1".to_string()];
    assert_eq!(anchor_row(&rows, &ids, "m0"), Some(2));
    assert_eq!(anchor_row(&rows, &ids, "m1"), Some(1));
    assert_eq!(anchor_row(&rows, &ids, "zz"), None);
}

#[test]
fn messages_are_ordered_by_time_then_list_position() {
    let messages = vec![
        msg("b", false, "2026-01-01T00:00:02Z"),
        msg("a", true, "2026-01-01T00:00:01Z"),
        msg("c", true, "2026-01-01T00:00:02Z"),
    ];
    assert_eq!(chronological_order(&messages), vec![1, 0, 2]);
}

#[test]
fn a_user_message_reverts_to_the_checkpoint_before_the_next_assistant_turn() {
    let messages = vec![
        msg("a2", false, "2026-01-01T00:00:04Z"),
        msg("u1", true, "2026-01-01T00:00:01Z"),
        msg("a1", false, "2026-01-01T00:00:02Z"),
        msg("u2", true, "2026-01-01T00:00:03Z"),
    ];
    let checkpoints = vec![cp(Some("a1"), 1), cp(Some("a2"), 3)];
    assert_eq!(
        revert_turn_counts(&messages, &checkpoints),
        vec![None, Some(0), None, Some(2)]
    );
}

#[test]
fn revert_search_stops_at_the_next_user_message_and_later_checkpoints_win() {
    let messages = vec![
        msg("u1", true, "1"),
        msg("u2", true, "2"),
        msg("a1", false, "3"),
    ];
    let checkpoints = vec![cp(Some("a1"), 5), cp(None, 9), cp(Some("a1"), 7)];
    assert_eq!(
        revert_turn_counts(&messages, &checkpoints),
        vec![None, Some(6), None]
    );
    let zero = vec![msg("u", true, "1"), msg("a", false, "2")];
    assert_eq!(revert_turn_counts(&zero, &[cp(Some("a"), 0)]), vec![Some(0), None]);
}

#[test]
fn smoothing_reveals_eighteen_characters_per_tick() {
    let target = "0123456789abcdefghijklmnopqrstuvwxyz";
    let (shown, changed, lagging) = smoothing_tick("", target);
    assert_eq!(shown, "0123456789abcdefgh");
    assert!(changed && lagging);
    let (shown, changed, lagging) = smoothing_tick(&shown, target);
    assert_eq!(shown, target);
    assert!(changed && !lagging);
    let (same, changed, lagging) = smoothing_tick(target, target);
    assert_eq!(same, target);
    assert!(!changed && !lagging);
}

#[test]
fn a_rewritten_stream_replaces_the_shown_text() {
    let (shown, changed, lagging) = smoothing_tick("hello", "help me");
    assert_eq!(shown, "help me");
    assert!(changed && !lagging);
    assert_eq!(
        settle_displayed(Some("hel"), "hello", true),
        ("hel".to_string(), true)
    );
    assert_eq!(
        settle_displayed(Some("xyz"), "hello", true),
        ("hello".to_string(), false)
    );
    assert_eq!(
        settle_displayed(Some("he"), "hello", false),
        ("hello".to_string(), false)
    );
    assert_eq!(settle_displayed(None, "hi", true), ("hi".to_string(), false));
}
