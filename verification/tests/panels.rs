use vitre_app::diff::{count_labels, split_hunk_rows, DiffRow, PatchLine, PatchLineKind};
use vitre_app::providers::{
    provider_picker_ready, provider_picker_visible, ServerProvider, ServerProviderAvailability,
    ServerProviderState,
};

fn line(kind: PatchLineKind) -> PatchLine {
    PatchLine {
        kind,
        content: String::new(),
        old_line: None,
        new_line: None,
    }
}

fn provider_fixture(
    id: &str,
    enabled: bool,
    status: ServerProviderState,
    availability: Option<ServerProviderAvailability>,
) -> ServerProvider {
    ServerProvider {
        instance_id: id.to_string(),
        driver: id.to_string(),
        display_name: None,
        enabled,
        status,
        availability,
        message: None,
        unavailable_reason: None,
        requires_new_thread_for_model_change: false,
        models: Vec::new(),
        version_advisory: None,
        slash_commands: Vec::new(),
        skills: Vec::new(),
    }
}

#[test]
fn model_picker_shows_enabled_providers_but_only_uses_ready_models() {
    let orca = provider_fixture("orcaAgent", true, ServerProviderState::Ready, None);
    let remote = provider_fixture(
        "remoteCustom",
        true,
        ServerProviderState::Ready,
        Some(ServerProviderAvailability::Available),
    );
    let grok = provider_fixture(
        "grok",
        true,
        ServerProviderState::Error,
        Some(ServerProviderAvailability::Unavailable),
    );
    let cursor = provider_fixture("cursor", false, ServerProviderState::Disabled, None);

    assert!(provider_picker_visible(&orca));
    assert!(provider_picker_ready(&orca));
    assert!(provider_picker_ready(&remote));
    assert!(provider_picker_visible(&grok));
    assert!(!provider_picker_ready(&grok));
    assert!(!provider_picker_visible(&cursor));
    assert!(!provider_picker_ready(&cursor));
}

#[test]
fn split_rows_zip_change_runs_and_mirror_context() {
    let lines = vec![
        line(PatchLineKind::Context),
        line(PatchLineKind::Del),
        line(PatchLineKind::Del),
        line(PatchLineKind::Add),
        line(PatchLineKind::Context),
        line(PatchLineKind::Add),
    ];
    let rows = split_hunk_rows(0, 0, &lines);
    assert_eq!(
        rows,
        vec![
            DiffRow::SplitLine {
                file: 0,
                hunk: 0,
                left: Some(0),
                right: Some(0)
            },
            DiffRow::SplitLine {
                file: 0,
                hunk: 0,
                left: Some(1),
                right: Some(3)
            },
            DiffRow::SplitLine {
                file: 0,
                hunk: 0,
                left: Some(2),
                right: None
            },
            DiffRow::SplitLine {
                file: 0,
                hunk: 0,
                left: Some(4),
                right: Some(4)
            },
            DiffRow::SplitLine {
                file: 0,
                hunk: 0,
                left: None,
                right: Some(5)
            },
        ]
    );
}

#[test]
fn count_labels_follow_electron_edge_rules() {
    assert_eq!(count_labels(3, 2), (Some("-2".into()), Some("+3".into())));
    assert_eq!(count_labels(3, 0), (None, Some("+3".into())));
    assert_eq!(count_labels(0, 2), (Some("-2".into()), None));
    assert_eq!(count_labels(0, 0), (Some("-0".into()), Some("+0".into())));
}
