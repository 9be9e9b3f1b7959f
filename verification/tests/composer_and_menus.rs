use vitre_app::interaction::ProviderInteractionMode;
use vitre_app::menu::{
    apply_mention_results, clamped_selection, cycle_index, skill_menu_items, slash_menu_items,
    splice_token, suggestion_replacement, sync_mention, thread_detail, thread_menu_items,
    ComposerMenuItem, MentionEntry, MentionState, SuggestionEffect,
};
use vitre_app::providers::{ServerProvider, ServerProviderState, Skill, SlashCommand};
use vitre_app::settings::{picker_start_selection, prompt_with_effort, upsert_model_option};
use vitre_app::shell::{ProjectShell, ThreadShell};
use vitre_app::providers::ModelSelection;

fn provider() -> ServerProvider {
    ServerProvider {
        instance_id: "helix".into(),
        driver: "helix".into(),
        display_name: None,
        enabled: true,
        status: ServerProviderState::Ready,
        availability: None,
        message: None,
        unavailable_reason: None,
        requires_new_thread_for_model_change: false,
        models: Vec::new(),
        version_advisory: None,
        slash_commands: vec![
            SlashCommand {
                name: "Review".into(),
                description: None,
                input_hint: Some("Paths to review".into()),
            },
            SlashCommand {
                name: "compact".into(),
                description: Some("Summarize the thread".into()),
                input_hint: None,
            },
            SlashCommand {
                name: "init".into(),
                description: None,
                input_hint: None,
            },
        ],
        skills: vec![
            Skill {
                name: "deploy".into(),
                enabled: true,
                short_description: None,
                description: Some("Ship to production".into()),
            },
            Skill {
                name: "debug".into(),
                enabled: false,
                short_description: Some("Find bugs".into()),
                description: None,
            },
        ],
    }
}

fn thread(id: &str, project: &str, title: &str, created: &str, updated: &str) -> ThreadShell {
    ThreadShell {
        id: id.into(),
        project_id: project.into(),
        title: title.into(),
        created_at: created.into(),
        updated_at: updated.into(),
        archived: false,
        worktree_path: None,
    }
}

fn project(id: &str, title: &str, root: &str) -> ProjectShell {
    ProjectShell {
        id: id.into(),
        title: title.into(),
        workspace_root: root.into(),
        default_model_selection: None,
    }
}

fn names(items: &[ComposerMenuItem]) -> Vec<String> {
    items
        .iter()
        .map(|item| match item {
            ComposerMenuItem::Model => "model".to_string(),
            ComposerMenuItem::InteractionMode(ProviderInteractionMode::Plan) => "plan".into(),
            ComposerMenuItem::InteractionMode(ProviderInteractionMode::Default) => "default".into(),
            ComposerMenuItem::ProviderCommand { name, description } => format!("/{name}: {description}"),
            ComposerMenuItem::Thread { id, .. } => format!("#{id}"),
            ComposerMenuItem::Skill { name, description } => format!("${name}: {description}"),
        })
        .collect()
}

#[test]
fn slash_menu_lists_builtins_then_matching_commands() {
    let p = provider();
    assert_eq!(
        names(&slash_menu_items("", Some(&p))),
        vec![
            "model",
            "plan",
            "default",
            "/Review: Paths to review",
            "/compact: Summarize the thread",
            "/init: Run provider command",
        ]
    );
    assert_eq!(names(&slash_menu_items(" PL ", Some(&p))), vec!["plan"]);
    assert_eq!(
        names(&slash_menu_items("rev", Some(&p))),
        vec!["/Review: Paths to review"]
    );
    assert_eq!(
        names(&slash_menu_items("thread", Some(&p))),
        vec!["/compact: Summarize the thread"]
    );
    assert_eq!(names(&slash_menu_items("zzz", None)), Vec::<String>::new());
}

#[test]
fn skill_menu_lists_enabled_matching_skills() {
    let p = provider();
    assert_eq!(
        names(&skill_menu_items("", Some(&p))),
        vec!["$deploy: Ship to production"]
    );
    assert_eq!(
        names(&skill_menu_items("PRODUCTION", Some(&p))),
        vec!["$deploy: Ship to production"]
    );
    assert!(skill_menu_items("bug", Some(&p)).is_empty());
    assert!(skill_menu_items("", None).is_empty());
}

#[test]
fn the_highlight_wraps_around_the_list() {
    assert_eq!(cycle_index(0, 3, -1), 2);
    assert_eq!(cycle_index(2, 3, 1), 0);
    assert_eq!(cycle_index(1, 3, 7), 2);
    assert_eq!(cycle_index(1, 3, -7), 0);
    assert_eq!(cycle_index(0, 0, 1), 0);
    assert_eq!(cycle_index(cycle_index(1, 5, 3), 5, -3), 1);
    assert_eq!(clamped_selection(Some(4), 2), 1);
    assert_eq!(clamped_selection(Some(1), 2), 1);
    assert_eq!(clamped_selection(Some(3), 0), 0);
    assert_eq!(clamped_selection(None, 5), 0);
}

#[test]
fn picked_suggestions_insert_their_tokens() {
    let (text, effect) = suggestion_replacement(&ComposerMenuItem::Thread {
        id: "t-1".into(),
        title: "Fix [a] bug]".into(),
        detail: String::new(),
    });
    assert_eq!(text, "[#Fix [a\\] bug\\]](t3code://thread/t-1) ");
    assert!(matches!(effect, SuggestionEffect::Nothing));
    let (text, _) = suggestion_replacement(&ComposerMenuItem::ProviderCommand {
        name: "compact".into(),
        description: String::new(),
    });
    assert_eq!(text, "/compact ");
    let (text, _) = suggestion_replacement(&ComposerMenuItem::Skill {
        name: "deploy".into(),
        description: String::new(),
    });
    assert_eq!(text, "$deploy ");
    let (text, effect) = suggestion_replacement(&ComposerMenuItem::Model);
    assert_eq!(text, "");
    assert!(matches!(effect, SuggestionEffect::OpenModelPicker));
    let (_, effect) = suggestion_replacement(&ComposerMenuItem::InteractionMode(
        ProviderInteractionMode::Plan,
    ));
    assert!(matches!(
        effect,
        SuggestionEffect::SetInteractionMode(ProviderInteractionMode::Plan)
    ));
}

#[test]
fn a_token_is_spliced_by_byte_offsets() {
    assert_eq!(
        splice_token("fix @cra tail", 4, 8, "@crate/x "),
        Some(("fix @crate/x  tail".to_string(), 13))
    );
    assert_eq!(
        splice_token("日本 @é", 7, 10, "@été "),
        Some(("日本 @été ".to_string(), 14))
    );
    assert_eq!(splice_token("abc", 2, 1, "x"), None);
    assert_eq!(splice_token("abc", 1, 9, "x"), None);
}

#[test]
fn mention_searches_are_generation_guarded() {
    let mut mention: Option<MentionState> = None;
    let mut generation = 0u64;
    assert!(sync_mention(&mut mention, &mut generation, Some((4, "src".into()))));
    assert_eq!(generation, 1);
    assert!(!sync_mention(&mut mention, &mut generation, Some((4, "src".into()))));
    assert_eq!(generation, 1);
    apply_mention_results(
        &mut mention,
        1,
        Some(vec![
            MentionEntry {
                path: "src/a.rs".into(),
                is_directory: false,
            },
            MentionEntry {
                path: "src/b.rs".into(),
                is_directory: false,
            },
        ]),
    );
    let m = mention.as_ref().unwrap();
    assert_eq!(m.results.len(), 2);
    assert!(!m.loading);
    assert!(sync_mention(&mut mention, &mut generation, Some((4, "sr".into()))));
    let m = mention.as_mut().unwrap();
    assert_eq!(m.results.len(), 2);
    assert!(m.loading);
    m.selected = 1;
    apply_mention_results(&mut mention, 1, None);
    assert_eq!(mention.as_ref().unwrap().results.len(), 2);
    apply_mention_results(
        &mut mention,
        2,
        Some(vec![MentionEntry {
            path: "src".into(),
            is_directory: true,
        }]),
    );
    assert_eq!(mention.as_ref().unwrap().selected, 0);
    assert!(!sync_mention(&mut mention, &mut generation, Some((4, String::new()))));
    assert!(mention.as_ref().unwrap().results.is_empty());
    assert!(!sync_mention(&mut mention, &mut generation, None));
    assert!(mention.is_none());
}

#[test]
fn thread_suggestions_rank_prefix_then_project_then_recency() {
    let threads = vec![
        thread("t1", "p1", "Crust refactor", "2026-01-01T00:00:00Z", "2026-03-05T00:00:00Z"),
        thread("t2", "p2", "Rust port", "2026-01-02T00:00:00Z", "2026-03-01T00:00:00Z"),
        thread("t3", "p1", "rusty tools", "2026-01-03T00:00:00Z", "2026-02-01T00:00:00Z"),
        thread("t4", "p1", "Docs", "2026-01-04T00:00:00Z", "2026-03-09T00:00:00Z"),
    ];
    let projects = vec![project("p1", "Vitre", "/vitre"), project("p2", "Other", "/other")];
    let items = thread_menu_items("ru", &threads, &projects, Some("p1"));
    assert_eq!(names(&items), vec!["#t3", "#t2", "#t1"]);
    match &items[0] {
        ComposerMenuItem::Thread { title, detail, .. } => {
            assert_eq!(title, "rusty tools");
            assert!(detail.starts_with("Vitre · "));
        }
        _ => panic!("expected a thread item"),
    }
    let all = thread_menu_items("", &threads, &projects, None);
    assert_eq!(names(&all), vec!["#t4", "#t1", "#t2", "#t3"]);
    assert_eq!(
        thread_detail(Some("Vitre".into()), Some("5m".into())),
        "Vitre · 5m"
    );
    assert_eq!(thread_detail(None, Some("5m".into())), "5m");
    assert_eq!(thread_detail(None, None), "");
}

#[test]
fn ultrathink_prefix_is_added_once_and_removed() {
    assert_eq!(prompt_with_effort("plan it", "ultrathink"), "Ultrathink:\nplan it");
    assert_eq!(
        prompt_with_effort("Ultrathink:\nplan it", "ULTRATHINK"),
        "Ultrathink:\nplan it"
    );
    assert_eq!(prompt_with_effort("Ultrathink: plan it", "high"), "plan it");
    assert_eq!(prompt_with_effort("   ", "ultrathink"), "Ultrathink:\n");
    assert_eq!(prompt_with_effort("plan it", "low"), "plan it");
}

#[test]
fn a_model_option_is_set_once() {
    let options = vec![
        (Some("effort".to_string()), 1),
        (None, 2),
        (Some("fast".to_string()), 3),
        (Some("effort".to_string()), 4),
    ];
    assert_eq!(
        upsert_model_option(options, "effort".into(), 9),
        vec![(None, 2), (Some("fast".to_string()), 3), (Some("effort".to_string()), 9)]
    );
}

#[test]
fn the_picker_starts_on_the_threads_model() {
    let thread_sel = ModelSelection {
        instance_id: Some("helix".into()),
        model: Some("m1".into()),
    };
    let partial = ModelSelection {
        instance_id: None,
        model: Some("x".into()),
    };
    let draft = ModelSelection {
        instance_id: Some("orca".into()),
        model: Some("large".into()),
    };
    assert_eq!(
        picker_start_selection(Some(&thread_sel), Some(&draft), None, None),
        Some(("helix".to_string(), "m1".to_string()))
    );
    assert_eq!(
        picker_start_selection(Some(&partial), Some(&draft), None, None),
        Some(("orca".to_string(), "large".to_string()))
    );
    assert_eq!(
        picker_start_selection(None, None, None, Some(("a".into(), "b".into()))),
        Some(("a".to_string(), "b".to_string()))
    );
}
