//! Verified core of the Vitre chat client: composer parsing, inline chips,
//! plan helpers, diff-row layout, provider picker rules and the small state
//! machines that drive the chat view.

pub mod assets;
pub mod attachments;
pub mod branches;
pub mod changed_files;
pub mod composer;
pub mod diff;
pub mod diff_panel;
pub mod diff_state;
pub mod drafts;
pub mod fingerprint;
pub mod git;
pub mod inline;
pub mod interaction;
pub mod menu;
pub mod overlays;
pub mod picker;
pub mod notices;
pub mod order;
pub mod plan;
pub mod providers;
pub mod rebuild;
pub mod revert;
pub mod sending;
pub mod settings;
pub mod shell;
pub mod smoothing;
pub mod table;
pub mod text;
pub mod threads;
pub mod time;
pub mod timeline;
pub mod warm_roots;
