//! The overlays that one chord opens and closes: the quick search (file
//! or content mode), the command palette and the settings surface.

use vstd::prelude::*;

verus! {

/// What the quick search searches.
#[derive(Debug, Clone, Copy, PartialEq, Eq, Structural)]
pub enum QuickSearchMode {
    Open,
    Content,
}

/// What pressing an overlay's chord does.
#[derive(Debug, Clone, Copy, PartialEq, Eq, Structural)]
pub enum OverlayAction {
    /// Nothing is up: open the overlay.
    Open,
    /// The same overlay is up: close it.
    Close,
    /// The overlay is up in another mode: switch it to the requested one.
    Switch,
}

/// The quick-search chord for `requested` while the search is up in
/// `open` (or not up).
pub fn quick_search_toggle(open: Option<QuickSearchMode>, requested: QuickSearchMode) -> (r:
    OverlayAction)
    ensures
        r == match open {
            None => OverlayAction::Open,
            Some(m) => if m == requested {
                OverlayAction::Close
            } else {
                OverlayAction::Switch
            },
        },
{
    match open {
        None => OverlayAction::Open,
        Some(m) => if m == requested {
            OverlayAction::Close
        } else {
            OverlayAction::Switch
        },
    }
}

/// The chord of an overlay with one mode (the palette, the settings).
pub fn overlay_toggle(is_open: bool) -> (r: OverlayAction)
    ensures
        r == if is_open {
            OverlayAction::Close
        } else {
            OverlayAction::Open
        },
{
    if is_open {
        OverlayAction::Close
    } else {
        OverlayAction::Open
    }
}

} // verus!
