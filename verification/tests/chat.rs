use vitre_app::composer::{active_composer_token, active_mention_token, ComposerTriggerKind};
use vitre_app::inline::{parse_user_inline_segments, ThreadId, UserInlineSegment};
use vitre_app::interaction::{resolve_interaction_mode, ProviderInteractionMode};
use vitre_app::menu::format_mention;
use vitre_app::plan::{
    collapsed_plan_markdown, plan_filename, proposed_plan_title, should_collapse_user_message,
};
use vitre_app::table::{table_to_csv, TableData};

#[test]
fn interaction_mode_round_trip_does_not_reuse_stale_detail_state() {
    let (build, plan) = (ProviderInteractionMode::Default, ProviderInteractionMode::Plan);
    assert_eq!(
        resolve_interaction_mode(Some(&plan), Some(&build), Some(&build)),
        plan
    );
    assert_eq!(
        resolve_interaction_mode(None, Some(&plan), Some(&build)),
        plan
    );
    assert_eq!(
        resolve_interaction_mode(Some(&build), Some(&plan), Some(&plan)),
        build
    );
    assert_eq!(
        resolve_interaction_mode(None, Some(&build), Some(&plan)),
        build
    );
    assert_eq!(
        resolve_interaction_mode(None, Some(&build), Some(&build)),
        build
    );
    assert_eq!(resolve_interaction_mode(None, None, Some(&plan)), plan);
    assert_eq!(resolve_interaction_mode(None, None, None), build);
}

#[test]
fn parses_known_skill_and_thread_chips_without_eating_surrounding_text() {
    let skills = vec!["review".to_string()];
    assert_eq!(
        parse_user_inline_segments(
            "Ask $review about [#Rust port](t3code://thread/thread-2) next",
            &skills,
        ),
        vec![
            UserInlineSegment::Text("Ask ".into()),
            UserInlineSegment::Skill("review".into()),
            UserInlineSegment::Text(" about ".into()),
            UserInlineSegment::Thread {
                label: "Rust port".into(),
                id: ThreadId("thread-2".into()),
            },
            UserInlineSegment::Text(" next".into()),
        ]
    );
}

#[test]
fn leaves_unknown_skills_as_plain_text() {
    assert_eq!(
        parse_user_inline_segments("use $missing", &[]),
        vec![UserInlineSegment::Text("use $missing".into())]
    );
}

#[test]
fn mention_token_at_start_and_after_whitespace() {
    assert_eq!(active_mention_token("@src", 4), Some((0, "src".to_string())));
    assert_eq!(
        active_mention_token("fix @cra", 8),
        Some((4, "cra".to_string()))
    );
    assert_eq!(active_mention_token("fix @cra", 4), None);
    assert_eq!(active_mention_token("@src tail", 2), Some((0, "s".into())));
}

#[test]
fn mention_token_rejects_non_tokens() {
    assert_eq!(active_mention_token("plain text", 5), None);
    assert_eq!(active_mention_token("user@host", 9), None);
    assert_eq!(active_mention_token("@\"quoted", 8), None);
    assert_eq!(active_mention_token("", 0), None);
    assert_eq!(active_mention_token("@src ", 5), None);
}

#[test]
fn mention_token_survives_multibyte_boundaries() {
    let text = "日本 @é";
    assert_eq!(
        active_mention_token(text, text.len()),
        Some((7, "é".to_string()))
    );
}

#[test]
fn composer_triggers_cover_commands_threads_and_skills() {
    assert_eq!(
        active_composer_token("try /mod", 8),
        Some((ComposerTriggerKind::Slash, 4, "mod".into()))
    );
    assert_eq!(
        active_composer_token("see #rust", 9),
        Some((ComposerTriggerKind::Thread, 4, "rust".into()))
    );
    assert_eq!(
        active_composer_token("use $review", 11),
        Some((ComposerTriggerKind::Skill, 4, "review".into()))
    );
    assert_eq!(active_composer_token("#", 1), None);
    assert_eq!(active_composer_token("## heading", 2), None);
}

#[test]
fn table_csv_quotes_special_cells() {
    let table = TableData {
        headers: vec!["name".into(), "note".into()],
        rows: vec![vec!["Vitre".into(), "glass, fast \"native\"".into()]],
    };
    assert_eq!(
        table_to_csv(&table),
        "name,note\nVitre,\"glass, fast \"\"native\"\"\""
    );
}

#[test]
fn proposed_plan_helpers_are_stable() {
    let plan = "# Ship the glass UI\n\n1. Build\n2. Verify\n3. Package\n4. Test\n5. Review\n6. Sign\n7. Release\n8. Celebrate\n9. Follow up";
    assert_eq!(
        proposed_plan_title(plan).as_deref(),
        Some("Ship the glass UI")
    );
    assert_eq!(plan_filename(plan), "ship-the-glass-ui.md");
    assert!(collapsed_plan_markdown(plan).ends_with('…'));
}

#[test]
fn long_user_message_threshold_matches_electron() {
    assert!(!should_collapse_user_message("short prompt"));
    assert!(should_collapse_user_message(&"x".repeat(601)));
    assert!(should_collapse_user_message(&["x"; 9].join("\n")));
}

#[test]
fn mention_formatting_quotes_spaces() {
    assert_eq!(format_mention("src/app.ts"), "@src/app.ts ");
    assert_eq!(format_mention("My Docs/a.md"), "@\"My Docs/a.md\" ");
}
