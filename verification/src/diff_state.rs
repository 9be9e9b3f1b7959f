//! The diff panel's data flow: query slots that drop stale answers, when a
//! patch is re-read, the order of a patch's files, the raw-line fallback,
//! the review-comment gutter drag and drafts, and the once-per-request
//! deep-link reveal.

use vstd::prelude::*;

use crate::attachments;
use crate::diff::{self, DiffRow, GutterDrag, PatchFile};
use crate::diff_panel;
use crate::order;
use crate::text;
use crate::time;

verus! {

/// One query of the panel (a diff preview or a turn diff): the input it
/// was issued for, and the answer. `D` is the answer's data.
pub struct QuerySlot<D> {
    pub key: Option<String>,
    pub loading: bool,
    pub data: Option<D>,
    pub error: Option<String>,
    pub generation: u64,
}

impl<D> QuerySlot<D> {
    pub fn new() -> (r: Self)
        ensures
            r.key is None,
            !r.loading,
            r.data is None,
            r.error is None,
            r.generation == 0,
    {
        QuerySlot { key: None, loading: false, data: None, error: None, generation: 0 }
    }

    /// Ask for the data of input `key`: nothing to do when that input is
    /// already asked for; otherwise a new generation starts loading.
    pub fn request(&mut self, key: String) -> (r: Option<u64>)
        requires
            old(self).generation < u64::MAX,
        ensures
            match r {
                Some(g) => {
                    &&& !(old(self).key matches Some(k) && k@ == key@)
                    &&& g == old(self).generation + 1
                    &&& final(self).generation == g
                    &&& final(self).key == Some(key)
                    &&& final(self).loading
                    &&& final(self).data == old(self).data
                    &&& final(self).error == old(self).error
                },
                None => (old(self).key matches Some(k) && k@ == key@) && *final(self) == *old(self),
            },
    {
        let same = match &self.key {
            Some(k) => text::str_eq(k.as_str(), key.as_str()),
            None => false,
        };
        if same {
            return None;
        }
        self.key = Some(key);
        self.loading = true;
        self.generation = self.generation + 1;
        Some(self.generation)
    }

    /// An answer arrived for generation `generation`. Answers of an older
    /// generation are dropped; otherwise loading ends and the data or the
    /// error is recorded (an error keeps the earlier data).
    pub fn settle(&mut self, generation: u64, result: Result<D, String>) -> (counted: bool)
        ensures
            counted == (generation == old(self).generation),
            !counted ==> *final(self) == *old(self),
            counted ==> {
                &&& !final(self).loading
                &&& final(self).key == old(self).key
                &&& final(self).generation == old(self).generation
                &&& match result {
                    Ok(d) => final(self).data == Some(d) && final(self).error is None,
                    Err(m) => final(self).data == old(self).data && final(self).error == Some(m),
                }
            },
    {
        if generation != self.generation {
            return false;
        }
        self.loading = false;
        match result {
            Ok(d) => {
                self.data = Some(d);
                self.error = None;
            },
            Err(m) => {
                self.error = Some(m);
            },
        }
        true
    }

    /// Forget the input, so the next request refetches.
    pub fn invalidate(&mut self)
        ensures
            final(self).key is None,
            final(self).generation == old(self).generation,
            final(self).loading == old(self).loading,
            final(self).data == old(self).data,
            final(self).error == old(self).error,
    {
        self.key = None;
    }
}

/// The query input of a diff preview: whitespace flag, then the base ref
/// (or none).
pub open spec fn preview_key_spec(base_ref: Option<Seq<char>>, ignore_whitespace: bool) -> Seq<char> {
    seq![if ignore_whitespace { '1' } else { '0' }] + match base_ref {
        Some(b) => seq!['+'] + b,
        None => seq!['-'],
    }
}

pub fn preview_key(base_ref: Option<&str>, ignore_whitespace: bool) -> (r: String)
    ensures
        r@ == preview_key_spec(
            match base_ref {
                Some(b) => Some(b@),
                None => None,
            },
            ignore_whitespace,
        ),
{
    let mut v: Vec<char> = Vec::new();
    v.push(if ignore_whitespace { '1' } else { '0' });
    match base_ref {
        Some(b) => {
            v.push('+');
            text::push_literal(&mut v, b);
        },
        None => {
            v.push('-');
        },
    }
    text::string_from(&v)
}

/// Two preview inputs ask for the same data exactly when their keys agree.
pub proof fn law_preview_keys_are_exact(
    a: Option<Seq<char>>,
    wa: bool,
    b: Option<Seq<char>>,
    wb: bool,
)
    ensures
        (preview_key_spec(a, wa) == preview_key_spec(b, wb)) == (a == b && wa == wb),
{
    let ka = preview_key_spec(a, wa);
    let kb = preview_key_spec(b, wb);
    if ka == kb {
        assert(ka[0] == kb[0]);
        assert(ka[1] == kb[1]);
        match (a, b) {
            (Some(x), Some(y)) => {
                assert(ka.skip(2) =~= x);
                assert(kb.skip(2) =~= y);
            },
            _ => {},
        }
    }
}

/// The query input of a turn diff: whitespace flag, the turn count, then
/// the turn id.
pub open spec fn turn_key_spec(turn_id: Seq<char>, turn_count: i64, ignore_whitespace: bool) -> Seq<char> {
    seq![if ignore_whitespace { '1' } else { '0' }] + text::signed_decimal(turn_count as int)
        + seq![':'] + turn_id
}

pub fn turn_key(turn_id: &str, turn_count: i64, ignore_whitespace: bool) -> (r: String)
    ensures
        r@ == turn_key_spec(turn_id@, turn_count, ignore_whitespace),
{
    let mut v: Vec<char> = Vec::new();
    v.push(if ignore_whitespace { '1' } else { '0' });
    text::push_signed_decimal(&mut v, turn_count);
    v.push(':');
    text::push_literal(&mut v, turn_id);
    let s = text::string_from(&v);
    assert(v@ =~= turn_key_spec(turn_id@, turn_count, ignore_whitespace));
    s
}

/// What a patch refresh does: a new review scope resets the collapse
/// state and the rows; the patch is re-read when the scope or its text
/// changed.
pub fn patch_refresh(
    collapse_scope: Option<&str>,
    scope: &str,
    old_patch: Option<&str>,
    new_patch: Option<&str>,
) -> (r: (bool, bool))
    ensures
        r.0 == !(collapse_scope matches Some(c) && c@ == scope@),
        r.1 == (r.0 || !match (old_patch, new_patch) {
            (Some(a), Some(b)) => a@ == b@,
            (None, None) => true,
            _ => false,
        }),
{
    let scope_changed = match collapse_scope {
        Some(c) => !text::str_eq(c, scope),
        None => true,
    };
    let same_patch = match (old_patch, new_patch) {
        (Some(a), Some(b)) => text::str_eq(a, b),
        (None, None) => true,
        _ => false,
    };
    (scope_changed, scope_changed || !same_patch)
}

pub open spec fn lower_keys(paths: Seq<String>) -> Seq<Seq<char>> {
    paths.map_values(|p: String| attachments::unicode_lower(p@))
}

/// The order a patch's files are shown in: by path, ignoring case (Unicode
/// lower case); equal paths keep the patch's order.
pub fn patch_file_order(paths: &[String]) -> (r: Vec<usize>)
    ensures
        order::ordered_asc(lower_keys(paths@), r@),
{
    let mut keys: Vec<Vec<char>> = Vec::new();
    let mut i: usize = 0;
    while i < paths.len()
        invariant
            i <= paths@.len(),
            keys@.len() == i,
            forall|k: int| 0 <= k < i ==> keys@[k]@ == attachments::unicode_lower(paths@[k]@),
        decreases paths@.len() - i,
    {
        let lowered = attachments::to_lowercase(paths[i].as_str());
        keys.push(text::chars_of(lowered.as_str()));
        i += 1;
    }
    assert(order::keys_view(keys@) =~= lower_keys(paths@));
    order::stable_order_asc(&keys)
}

/// The raw lines shown when a patch has no parsable file: the trimmed
/// text's lines.
pub fn raw_patch_lines(patch: &str) -> (r: Vec<String>)
    ensures
        r@.map_values(|s: String| s@) == text::lines(text::trim(patch@)),
{
    let v = text::chars_of(patch);
    let (a, b) = text::trim_range(&v, 0, v.len());
    assert(v@.subrange(0, v@.len() as int) =~= v@);
    let t = text::chars_of(text::string_of(&v, a, b).as_str());
    let ranges = text::line_ranges(&t);
    let mut out: Vec<String> = Vec::new();
    let mut i: usize = 0;
    while i < ranges.len()
        invariant
            i <= ranges@.len(),
            ranges@.len() == text::lines(t@).len(),
            forall|k: int|
                #![trigger ranges@[k]]
                0 <= k < ranges@.len() ==> (ranges@[k].0 <= ranges@[k].1 && ranges@[k].1
                    <= t@.len() && text::lines(t@)[k] == t@.subrange(
                    ranges@[k].0 as int,
                    ranges@[k].1 as int,
                )),
            out@.map_values(|s: String| s@) == text::lines(t@).take(i as int),
        decreases ranges@.len() - i,
    {
        let (lo, hi) = ranges[i];
        let ghost before = out@.map_values(|s: String| s@);
        out.push(text::string_of(&t, lo, hi));
        assert(out@.map_values(|s: String| s@) =~= before.push(text::lines(t@)[i as int]));
        assert(text::lines(t@).take(i + 1) =~= text::lines(t@).take(i as int).push(
            text::lines(t@)[i as int],
        ));
        i += 1;
    }
    assert(text::lines(t@).take(text::lines(t@).len() as int) =~= text::lines(t@));
    out
}

/// A gutter press starts a drag over one file's review rows, unless a
/// draft comment is open or the file is unknown.
pub fn drag_start(draft_open: bool, files: &[PatchFile], file: usize, hunk: usize, line: usize) -> (r:
    Option<GutterDrag>)
    requires
        file < files@.len() ==> diff::flat_index(files@[file as int], hunk as int, line as int)
            <= usize::MAX,
    ensures
        match r {
            Some(d) => !draft_open && file < files@.len() && d.file == file && d.anchor == d.head
                && d.anchor == diff::flat_index(files@[file as int], hunk as int, line as int),
            None => draft_open || file >= files@.len(),
        },
{
    if draft_open || file >= files.len() {
        return None;
    }
    let flat = diff::flat_row_index(&files[file], hunk, line);
    Some(GutterDrag { file, anchor: flat, head: flat })
}

/// The pointer moved over a row of `file` with the left button
/// (`pressed`) or without it: a release outside the panel abandons the
/// drag; over the drag's file the head follows. Returns whether anything
/// changed.
pub fn drag_move(
    drag: &mut Option<GutterDrag>,
    files: &[PatchFile],
    file: usize,
    hunk: usize,
    line: usize,
    pressed: bool,
) -> (changed: bool)
    requires
        file < files@.len() ==> diff::flat_index(files@[file as int], hunk as int, line as int)
            <= usize::MAX,
    ensures
        match *old(drag) {
            None => *final(drag) is None && !changed,
            Some(d) => if !pressed {
                *final(drag) is None && changed
            } else if file < files@.len() && d.file == file && d.head != diff::flat_index(
                files@[file as int],
                hunk as int,
                line as int,
            ) {
                changed && (*final(drag) matches Some(n) && n.file == d.file && n.anchor
                    == d.anchor && n.head == diff::flat_index(
                    files@[file as int],
                    hunk as int,
                    line as int,
                ))
            } else {
                !changed && *final(drag) == *old(drag)
            },
        },
{
    let Some(d) = *drag else {
        return false;
    };
    if !pressed {
        *drag = None;
        return true;
    }
    if file >= files.len() {
        return false;
    }
    let flat = diff::flat_row_index(&files[file], hunk, line);
    if d.file == file && d.head != flat {
        *drag = Some(GutterDrag { file: d.file, anchor: d.anchor, head: flat });
        true
    } else {
        false
    }
}

/// A persisted review comment is anchored in the shown patch: same review
/// section, same file, and a diff fence (or none).
pub open spec fn comment_applies_spec(
    section: Seq<char>,
    path: Seq<char>,
    comment_section: Seq<char>,
    comment_path: Seq<char>,
    fence: Option<Seq<char>>,
) -> bool {
    comment_section == section && comment_path == path && match fence {
        Some(f) => f == "diff"@,
        None => true,
    }
}

pub fn comment_applies(
    section: &str,
    path: &str,
    comment_section: &str,
    comment_path: &str,
    fence: Option<&str>,
) -> (b: bool)
    ensures
        b == comment_applies_spec(
            section@,
            path@,
            comment_section@,
            comment_path@,
            match fence {
                Some(f) => Some(f@),
                None => None,
            },
        ),
{
    text::str_eq(comment_section, section) && text::str_eq(comment_path, path) && match fence {
        Some(f) => text::str_eq(f, "diff"),
        None => true,
    }
}

/// What removing an annotation does.
pub enum AnnotationRemoval {
    /// The open draft is cancelled in the panel.
    CancelDraft,
    /// A persisted comment is removed from the composer.
    RemoveComment,
}

pub fn annotation_removal(draft_id: Option<&str>, entry_id: &str) -> (r: AnnotationRemoval)
    ensures
        r is CancelDraft <==> (draft_id matches Some(d) && d@ == entry_id@),
{
    match draft_id {
        Some(d) => if text::str_eq(d, entry_id) {
            AnnotationRemoval::CancelDraft
        } else {
            AnnotationRemoval::RemoveComment
        },
        None => AnnotationRemoval::RemoveComment,
    }
}

/// The id of a new draft comment.
pub open spec fn comment_id_spec(millis: i64, seq: u64) -> Seq<char> {
    "file-comment-"@ + text::signed_decimal(millis as int) + "-"@ + text::decimal(seq as nat)
}

pub fn comment_id(millis: i64, seq: u64) -> (r: String)
    ensures
        r@ == comment_id_spec(millis, seq),
{
    let mut v = text::chars_of("file-comment-");
    let ghost v0 = v@;
    text::push_signed_decimal(&mut v, millis);
    let ghost v1 = v@;
    v.push('-');
    let ghost v2 = v@;
    text::push_decimal(&mut v, seq);
    proof {
        reveal_strlit("-");
        assert(v0 == "file-comment-"@);
        assert(v1 == v0 + text::signed_decimal(millis as int));
        assert(v2 =~= v1 + "-"@);
        assert(v@ == v2 + text::decimal(seq as nat));
        assert(v@ =~= comment_id_spec(millis, seq));
    }
    text::string_from(&v)
}

/// Number the next draft comment and name it after the current time.
pub fn next_comment_id(draft_seq: &mut u64) -> (r: String)
    requires
        *old(draft_seq) < u64::MAX,
    ensures
        *final(draft_seq) == *old(draft_seq) + 1,
        exists|millis: i64| r@ == comment_id_spec(millis, *final(draft_seq)),
{
    *draft_seq = *draft_seq + 1;
    let millis = time::now_millis();
    comment_id(millis, *draft_seq)
}

/// The deep-link reveal for request `request_id` of `path`: scroll to the
/// file's header row at most once per request, and keep waiting while the
/// file has not appeared. Returns the row and the request it settles.
pub fn reveal_once(
    applied: Option<u64>,
    path: &str,
    request_id: u64,
    rows: &Vec<DiffRow>,
    files: &[PatchFile],
) -> (r: Option<(usize, u64)>)
    ensures
        applied == Some(request_id) ==> r is None,
        applied != Some(request_id) ==> match r {
            Some((i, id)) => id == request_id && i < rows@.len() && diff_panel::is_header_of(
                rows@[i as int],
                files@,
                path@,
            ) && forall|j: int|
                0 <= j < i ==> !diff_panel::is_header_of(#[trigger] rows@[j], files@, path@),
            None => forall|j: int|
                0 <= j < rows@.len() ==> !diff_panel::is_header_of(#[trigger] rows@[j], files@, path@),
        },
{
    if applied == Some(request_id) {
        return None;
    }
    match diff_panel::reveal_target(rows, files, path) {
        Some(i) => Some((i, request_id)),
        None => None,
    }
}

/// Which side of a status stream the panel keeps: the last local status of
/// a batch (`None` when the batch carried none).
pub fn last_local_status<L>(events: Vec<(bool, Option<L>)>) -> (r: Option<L>)
    ensures
        r == last_local_spec(events@, events@.len() as int),
{
    let ghost all = events@;
    let total = events.len();
    let mut rest = events;
    let mut last: Option<L> = None;
    let mut taken: usize = 0;
    while rest.len() > 0
        invariant
            all.len() == total,
            taken <= total,
            rest@ == all.skip(taken as int),
            last == last_local_spec(all, taken as int),
        decreases rest@.len(),
    {
        let (is_local, status) = rest.remove(0);
        proof {
            assert(all[taken as int] == (is_local, status));
        }
        if is_local {
            if let Some(s) = status {
                last = Some(s);
            }
        }
        taken += 1;
        assert(rest@ =~= all.skip(taken as int));
    }
    last
}

/// The last local status among the first `n` events (`(is_local,
/// status)`).
pub open spec fn last_local_spec<L>(events: Seq<(bool, Option<L>)>, n: int) -> Option<L>
    decreases n,
{
    if n <= 0 || n > events.len() {
        None
    } else if events[n - 1].0 && events[n - 1].1 is Some {
        events[n - 1].1
    } else {
        last_local_spec(events, n - 1)
    }
}

} // verus!
