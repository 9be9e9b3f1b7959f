//! Vitre's asset source: the fork's icon set plus the Lucide icons the
//! chat uses that the fork does not ship. This module decides which asset
//! paths are served from the vendored set and names each vendored icon.

use vstd::prelude::*;

use crate::text;

verus! {

/// The asset source: vendored icons first, the component library's after.
pub struct VitreAssets;

/// The vendored icons, usable wherever an icon name is expected.
#[derive(Debug, Clone, Copy, PartialEq, Eq, Structural)]
pub enum VitreIcon {
    ChevronsDownUp,
    CloudUpload,
    Columns2,
    FileDiff,
    FolderGit,
    GitBranchPlus,
    GitCommitHorizontal,
    GitPullRequest,
    Files,
    Info,
    Pilcrow,
    Rows3,
    SquareSplitHorizontal,
    SquareSplitVertical,
    TextSearch,
    Trash2,
    WrapText,
}

/// Number of vendored icon files.
pub const EXTRA_ICON_COUNT: usize = 17;

/// The asset path of the `i`-th vendored icon file.
pub open spec fn extra_icon_path_spec(i: int) -> Seq<char> {
    if i == 0 {
        "icons/chevrons-down-up.svg"@
    } else if i == 1 {
        "icons/cloud-upload.svg"@
    } else if i == 2 {
        "icons/columns-2.svg"@
    } else if i == 3 {
        "icons/git-branch-plus.svg"@
    } else if i == 4 {
        "icons/git-commit-horizontal.svg"@
    } else if i == 5 {
        "icons/git-pull-request.svg"@
    } else if i == 6 {
        "icons/file-diff.svg"@
    } else if i == 7 {
        "icons/folder-git.svg"@
    } else if i == 8 {
        "icons/info.svg"@
    } else if i == 9 {
        "icons/files.svg"@
    } else if i == 10 {
        "icons/pilcrow.svg"@
    } else if i == 11 {
        "icons/rows-3.svg"@
    } else if i == 12 {
        "icons/square-split-horizontal.svg"@
    } else if i == 13 {
        "icons/square-split-vertical.svg"@
    } else if i == 14 {
        "icons/text-search.svg"@
    } else if i == 15 {
        "icons/trash-2.svg"@
    } else {
        "icons/wrap-text.svg"@
    }
}

/// The asset path of the `i`-th vendored icon file.
pub fn extra_icon_path(i: usize) -> (p: &'static str)
    requires
        i < EXTRA_ICON_COUNT,
    ensures
        p@ == extra_icon_path_spec(i as int),
{
    match i {
        0 => "icons/chevrons-down-up.svg",
        1 => "icons/cloud-upload.svg",
        2 => "icons/columns-2.svg",
        3 => "icons/git-branch-plus.svg",
        4 => "icons/git-commit-horizontal.svg",
        5 => "icons/git-pull-request.svg",
        6 => "icons/file-diff.svg",
        7 => "icons/folder-git.svg",
        8 => "icons/info.svg",
        9 => "icons/files.svg",
        10 => "icons/pilcrow.svg",
        11 => "icons/rows-3.svg",
        12 => "icons/square-split-horizontal.svg",
        13 => "icons/square-split-vertical.svg",
        14 => "icons/text-search.svg",
        15 => "icons/trash-2.svg",
        _ => "icons/wrap-text.svg",
    }
}

/// The asset path an icon is loaded from.
pub open spec fn icon_path(icon: VitreIcon) -> Seq<char> {
    match icon {
        VitreIcon::ChevronsDownUp => "icons/chevrons-down-up.svg"@,
        VitreIcon::CloudUpload => "icons/cloud-upload.svg"@,
        VitreIcon::Columns2 => "icons/columns-2.svg"@,
        VitreIcon::FileDiff => "icons/file-diff.svg"@,
        VitreIcon::FolderGit => "icons/folder-git.svg"@,
        VitreIcon::GitBranchPlus => "icons/git-branch-plus.svg"@,
        VitreIcon::GitCommitHorizontal => "icons/git-commit-horizontal.svg"@,
        VitreIcon::GitPullRequest => "icons/git-pull-request.svg"@,
        VitreIcon::Files => "icons/files.svg"@,
        VitreIcon::Info => "icons/info.svg"@,
        VitreIcon::Pilcrow => "icons/pilcrow.svg"@,
        VitreIcon::Rows3 => "icons/rows-3.svg"@,
        VitreIcon::SquareSplitHorizontal => "icons/square-split-horizontal.svg"@,
        VitreIcon::SquareSplitVertical => "icons/square-split-vertical.svg"@,
        VitreIcon::TextSearch => "icons/text-search.svg"@,
        VitreIcon::Trash2 => "icons/trash-2.svg"@,
        VitreIcon::WrapText => "icons/wrap-text.svg"@,
    }
}

/// Two facts that tell the icon paths apart: length and seventh character.
pub open spec fn icon_key(icon: VitreIcon) -> (nat, char) {
    match icon {
        VitreIcon::ChevronsDownUp => (26, 'c'),
        VitreIcon::CloudUpload => (22, 'c'),
        VitreIcon::Columns2 => (19, 'c'),
        VitreIcon::FileDiff => (19, 'f'),
        VitreIcon::FolderGit => (20, 'f'),
        VitreIcon::GitBranchPlus => (25, 'g'),
        VitreIcon::GitCommitHorizontal => (31, 'g'),
        VitreIcon::GitPullRequest => (26, 'g'),
        VitreIcon::Files => (15, 'f'),
        VitreIcon::Info => (14, 'i'),
        VitreIcon::Pilcrow => (17, 'p'),
        VitreIcon::Rows3 => (16, 'r'),
        VitreIcon::SquareSplitHorizontal => (33, 's'),
        VitreIcon::SquareSplitVertical => (31, 's'),
        VitreIcon::TextSearch => (21, 't'),
        VitreIcon::Trash2 => (17, 't'),
        VitreIcon::WrapText => (19, 'w'),
    }
}

proof fn lemma_icon_path_shape(a: VitreIcon)
    ensures
        icon_path(a).len() == icon_key(a).0,
        icon_path(a)[6] == icon_key(a).1,
        icon_path(a).take(6) == "icons/"@,
        icon_path(a).skip(icon_path(a).len() - 4) == ".svg"@,
{
    reveal_strlit("icons/");
    reveal_strlit(".svg");
    match a {
        VitreIcon::ChevronsDownUp => {
            reveal_strlit("icons/chevrons-down-up.svg");
            assert(icon_path(a).take(6) =~= "icons/"@);
            assert(icon_path(a).skip(22) =~= ".svg"@);
        },
        VitreIcon::CloudUpload => {
            reveal_strlit("icons/cloud-upload.svg");
            assert(icon_path(a).take(6) =~= "icons/"@);
            assert(icon_path(a).skip(18) =~= ".svg"@);
        },
        VitreIcon::Columns2 => {
            reveal_strlit("icons/columns-2.svg");
            assert(icon_path(a).take(6) =~= "icons/"@);
            assert(icon_path(a).skip(15) =~= ".svg"@);
        },
        VitreIcon::FileDiff => {
            reveal_strlit("icons/file-diff.svg");
            assert(icon_path(a).take(6) =~= "icons/"@);
            assert(icon_path(a).skip(15) =~= ".svg"@);
        },
        VitreIcon::FolderGit => {
            reveal_strlit("icons/folder-git.svg");
            assert(icon_path(a).take(6) =~= "icons/"@);
            assert(icon_path(a).skip(16) =~= ".svg"@);
        },
        VitreIcon::GitBranchPlus => {
            reveal_strlit("icons/git-branch-plus.svg");
            assert(icon_path(a).take(6) =~= "icons/"@);
            assert(icon_path(a).skip(21) =~= ".svg"@);
        },
        VitreIcon::GitCommitHorizontal => {
            reveal_strlit("icons/git-commit-horizontal.svg");
            assert(icon_path(a).take(6) =~= "icons/"@);
            assert(icon_path(a).skip(27) =~= ".svg"@);
        },
        VitreIcon::GitPullRequest => {
            reveal_strlit("icons/git-pull-request.svg");
            assert(icon_path(a).take(6) =~= "icons/"@);
            assert(icon_path(a).skip(22) =~= ".svg"@);
        },
        VitreIcon::Files => {
            reveal_strlit("icons/files.svg");
            assert(icon_path(a).take(6) =~= "icons/"@);
            assert(icon_path(a).skip(11) =~= ".svg"@);
        },
        VitreIcon::Info => {
            reveal_strlit("icons/info.svg");
            assert(icon_path(a).take(6) =~= "icons/"@);
            assert(icon_path(a).skip(10) =~= ".svg"@);
        },
        VitreIcon::Pilcrow => {
            reveal_strlit("icons/pilcrow.svg");
            assert(icon_path(a).take(6) =~= "icons/"@);
            assert(icon_path(a).skip(13) =~= ".svg"@);
        },
        VitreIcon::Rows3 => {
            reveal_strlit("icons/rows-3.svg");
            assert(icon_path(a).take(6) =~= "icons/"@);
            assert(icon_path(a).skip(12) =~= ".svg"@);
        },
        VitreIcon::SquareSplitHorizontal => {
            reveal_strlit("icons/square-split-horizontal.svg");
            assert(icon_path(a).take(6) =~= "icons/"@);
            assert(icon_path(a).skip(29) =~= ".svg"@);
        },
        VitreIcon::SquareSplitVertical => {
            reveal_strlit("icons/square-split-vertical.svg");
            assert(icon_path(a).take(6) =~= "icons/"@);
            assert(icon_path(a).skip(27) =~= ".svg"@);
        },
        VitreIcon::TextSearch => {
            reveal_strlit("icons/text-search.svg");
            assert(icon_path(a).take(6) =~= "icons/"@);
            assert(icon_path(a).skip(17) =~= ".svg"@);
        },
        VitreIcon::Trash2 => {
            reveal_strlit("icons/trash-2.svg");
            assert(icon_path(a).take(6) =~= "icons/"@);
            assert(icon_path(a).skip(13) =~= ".svg"@);
        },
        VitreIcon::WrapText => {
            reveal_strlit("icons/wrap-text.svg");
            assert(icon_path(a).take(6) =~= "icons/"@);
            assert(icon_path(a).skip(15) =~= ".svg"@);
        },
    }
}

/// Every icon is an SVG file under `icons/`, and no two icons share a path.
pub proof fn law_icon_paths_distinct(a: VitreIcon, b: VitreIcon)
    ensures
        icon_path(a).take(6) == "icons/"@,
        icon_path(a).skip(icon_path(a).len() - 4) == ".svg"@,
        a != b ==> icon_path(a) != icon_path(b),
{
    lemma_icon_path_shape(a);
    lemma_icon_path_shape(b);
    if a != b {
        assert(icon_key(a) != icon_key(b));
        if icon_path(a) == icon_path(b) {
            assert(icon_path(a)[6] == icon_path(b)[6]);
        }
    }
}

impl VitreIcon {
    /// The asset path this icon is loaded from.
    pub fn path(self) -> (p: &'static str)
        ensures
            p@ == icon_path(self),
    {
        match self {
            VitreIcon::ChevronsDownUp => "icons/chevrons-down-up.svg",
            VitreIcon::CloudUpload => "icons/cloud-upload.svg",
            VitreIcon::Columns2 => "icons/columns-2.svg",
            VitreIcon::FileDiff => "icons/file-diff.svg",
            VitreIcon::FolderGit => "icons/folder-git.svg",
            VitreIcon::GitBranchPlus => "icons/git-branch-plus.svg",
            VitreIcon::GitCommitHorizontal => "icons/git-commit-horizontal.svg",
            VitreIcon::GitPullRequest => "icons/git-pull-request.svg",
            VitreIcon::Files => "icons/files.svg",
            VitreIcon::Info => "icons/info.svg",
            VitreIcon::Pilcrow => "icons/pilcrow.svg",
            VitreIcon::Rows3 => "icons/rows-3.svg",
            VitreIcon::SquareSplitHorizontal => "icons/square-split-horizontal.svg",
            VitreIcon::SquareSplitVertical => "icons/square-split-vertical.svg",
            VitreIcon::TextSearch => "icons/text-search.svg",
            VitreIcon::Trash2 => "icons/trash-2.svg",
            VitreIcon::WrapText => "icons/wrap-text.svg",
        }
    }
}

/// Index of the first vendored icon file with this path, from `i` on.
pub open spec fn extra_icon_index_from(path: Seq<char>, i: int) -> Option<int>
    decreases EXTRA_ICON_COUNT - i,
{
    if i < 0 || i >= EXTRA_ICON_COUNT {
        None
    } else if extra_icon_path_spec(i) == path {
        Some(i)
    } else {
        extra_icon_index_from(path, i + 1)
    }
}

impl VitreAssets {
    /// The vendored icon file served for `path`, if it is one; every other
    /// path goes to the component library's assets.
    pub fn extra_icon_index(&self, path: &str) -> (r: Option<usize>)
        ensures
            match r {
                Some(i) => extra_icon_index_from(path@, 0) == Some(i as int),
                None => extra_icon_index_from(path@, 0) is None,
            },
    {
        let mut i: usize = 0;
        while i < EXTRA_ICON_COUNT
            invariant
                i <= EXTRA_ICON_COUNT,
                extra_icon_index_from(path@, 0) == extra_icon_index_from(path@, i as int),
            decreases EXTRA_ICON_COUNT - i,
        {
            if text::str_eq(extra_icon_path(i), path) {
                return Some(i);
            }
            i += 1;
        }
        None
    }
}

proof fn lemma_found_from(p: Seq<char>, i: int, j: int)
    requires
        0 <= i <= j < EXTRA_ICON_COUNT,
        extra_icon_path_spec(j) == p,
    ensures
        extra_icon_index_from(p, i) is Some,
    decreases j - i,
{
    if extra_icon_path_spec(i) != p {
        lemma_found_from(p, i + 1, j);
    }
}

/// Every vendored icon is served by the asset source itself: its path is
/// one of the vendored files.
pub proof fn law_every_icon_is_vendored(icon: VitreIcon)
    ensures
        extra_icon_index_from(icon_path(icon), 0) is Some,
{
    let j: int = match icon {
        VitreIcon::ChevronsDownUp => 0,
        VitreIcon::CloudUpload => 1,
        VitreIcon::Columns2 => 2,
        VitreIcon::FileDiff => 6,
        VitreIcon::FolderGit => 7,
        VitreIcon::GitBranchPlus => 3,
        VitreIcon::GitCommitHorizontal => 4,
        VitreIcon::GitPullRequest => 5,
        VitreIcon::Files => 9,
        VitreIcon::Info => 8,
        VitreIcon::Pilcrow => 10,
        VitreIcon::Rows3 => 11,
        VitreIcon::SquareSplitHorizontal => 12,
        VitreIcon::SquareSplitVertical => 13,
        VitreIcon::TextSearch => 14,
        VitreIcon::Trash2 => 15,
        VitreIcon::WrapText => 16,
    };
    lemma_found_from(icon_path(icon), 0, j);
}

} // verus!
