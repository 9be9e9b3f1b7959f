use vitre_app::changed_files::CardLocal;
use vitre_app::fingerprint::{
    row_content_hash, AttachmentKey, CardState, ChangedFileStat, MessageRole, PlanFacts,
    RowContent, WorkFacts,
};
use vitre_app::timeline::{TurnFoldData, WorkToggleData};

fn message(role: MessageRole, text: &str, card: Option<CardState>) -> RowContent {
    RowContent::Message {
        id: "m1".to_string(),
        role,
        text: text.to_string(),
        streaming: true,
        attachments: Some(vec![AttachmentKey::Image {
            id: "a1".to_string(),
            name: "shot.png".to_string(),
        }]),
        has_revert: false,
        card,
    }
}

fn card(additions: u64, persisted: Option<bool>) -> CardState {
    CardState {
        turn_id: "t1".to_string(),
        files: vec![ChangedFileStat {
            path: "src/lib.rs".to_string(),
            additions,
            deletions: 2,
        }],
        is_latest: true,
        has_thread_key: true,
        persisted,
        local: Some(CardLocal::new(true)),
    }
}

fn work(expanded: bool, body: Option<&str>) -> RowContent {
    RowContent::Work(WorkFacts {
        id: "w1".to_string(),
        heading: "Ran tests".to_string(),
        preview: "cargo test".to_string(),
        expanded,
        body: body.map(|b| b.to_string()),
    })
}

#[test]
fn running_row_fingerprint_is_constant() {
    assert_eq!(
        row_content_hash(&RowContent::Running),
        row_content_hash(&RowContent::Running)
    );
    assert_ne!(
        row_content_hash(&RowContent::Running),
        row_content_hash(&RowContent::Plan(None))
    );
}

#[test]
fn missing_row_fingerprint_is_zero() {
    assert_eq!(row_content_hash(&RowContent::Missing), 0);
}

#[test]
fn streaming_text_changes_message_fingerprint() {
    let a = row_content_hash(&message(MessageRole::Assistant, "Hel", None));
    let b = row_content_hash(&message(MessageRole::Assistant, "Hello", None));
    assert_ne!(a, b);
    assert_eq!(a, row_content_hash(&message(MessageRole::Assistant, "Hel", None)));
}

#[test]
fn only_assistant_messages_fold_in_their_card() {
    let user_a = row_content_hash(&message(MessageRole::User, "hi", Some(card(1, None))));
    let user_b = row_content_hash(&message(MessageRole::User, "hi", None));
    assert_eq!(user_a, user_b);
    let asst_a = row_content_hash(&message(MessageRole::Assistant, "hi", Some(card(1, None))));
    let asst_b = row_content_hash(&message(MessageRole::Assistant, "hi", Some(card(5, None))));
    let asst_c = row_content_hash(&message(MessageRole::Assistant, "hi", None));
    assert_ne!(asst_a, asst_b);
    assert_ne!(asst_a, asst_c);
}

#[test]
fn card_expansion_choice_changes_fingerprint() {
    let open = row_content_hash(&message(MessageRole::Assistant, "x", Some(card(1, Some(true)))));
    let shut = row_content_hash(&message(MessageRole::Assistant, "x", Some(card(1, Some(false)))));
    // No kept choice on the latest turn of a card that opened itself: open.
    let auto = row_content_hash(&message(MessageRole::Assistant, "x", Some(card(1, None))));
    assert_ne!(open, shut);
    assert_eq!(open, auto);
}

#[test]
fn collapsed_work_body_text_does_not_change_fingerprint() {
    assert_eq!(
        row_content_hash(&work(false, Some("first output"))),
        row_content_hash(&work(false, Some("second output")))
    );
    assert_ne!(
        row_content_hash(&work(false, Some("output"))),
        row_content_hash(&work(false, None))
    );
    assert_ne!(
        row_content_hash(&work(true, Some("first output"))),
        row_content_hash(&work(true, Some("second output")))
    );
}

#[test]
fn toggle_fold_and_plan_rows_track_their_fields() {
    let toggle = |hidden: usize| {
        row_content_hash(&RowContent::WorkToggle(WorkToggleData {
            group_id: "g".to_string(),
            hidden_count: hidden,
            expanded: false,
            only_tool_entries: true,
        }))
    };
    assert_ne!(toggle(3), toggle(4));
    let fold = |expanded: bool| {
        row_content_hash(&RowContent::TurnFold(TurnFoldData {
            turn_id: "t".to_string(),
            label: "Worked for 5s".to_string(),
            expanded,
        }))
    };
    assert_ne!(fold(true), fold(false));
    let plan = |expanded: bool| {
        row_content_hash(&RowContent::Plan(Some(PlanFacts {
            id: "p".to_string(),
            markdown: "# Plan".to_string(),
            expanded,
        })))
    };
    assert_ne!(plan(true), plan(false));
}

#[test]
fn folder_overrides_hash_in_path_order() {
    let with_local = |order: &[&str]| {
        let mut local = CardLocal::new(false);
        for dir in order {
            local.toggle_dir(dir.to_string(), "tree");
        }
        let mut c = card(1, None);
        c.local = Some(local);
        row_content_hash(&message(MessageRole::Assistant, "x", Some(c)))
    };
    assert_eq!(with_local(&["src", "lib", "docs"]), with_local(&["docs", "src", "lib"]));
    assert_ne!(with_local(&["src", "lib"]), with_local(&["src"]));
}
