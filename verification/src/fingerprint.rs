//! Timeline row fingerprints. The virtual list caches each row's measured
//! height; after a rebuild, a surviving row is remeasured exactly when its
//! fingerprint changed. The fingerprint folds in everything that can change
//! a row's height (over-hashing only costs a remeasure, under-hashing
//! leaves a stale height), and nothing that cannot: the ticking "Working
//! for Ns" row hashes to a constant.
//!
//! Each value is written to a `DefaultHasher` as its own write: a tag byte
//! per row kind, a string as its UTF-8 bytes then `0xff`, a flag as one
//! byte, a count as eight little-endian bytes.

use vstd::prelude::*;

use std::collections::hash_map::DefaultHasher;
use std::hash::Hasher;
use vstd::std_specs::hash::DefaultHasherAdditionalSpecFns;
use vstd::utf8::encode_utf8;

use crate::changed_files::{self, CardLocal};
use crate::timeline::{TurnFoldData, WorkToggleData};

verus! {

/// Who wrote a message.
pub enum MessageRole {
    User,
    Assistant,
    System,
}

/// What a message attachment contributes to its row's height.
pub enum AttachmentKey {
    Image { id: String, name: String },
    File { id: String, name: String },
    /// An attachment of a kind this client does not know, by its text.
    Other { text: String },
}

/// One file of a checkpoint's changed-files list.
pub struct ChangedFileStat {
    pub path: String,
    pub additions: u64,
    pub deletions: u64,
}

/// The changed-files card under an assistant message.
pub struct CardState {
    pub turn_id: String,
    pub files: Vec<ChangedFileStat>,
    /// The card belongs to the thread's latest turn.
    pub is_latest: bool,
    /// The thread has a key under which expansion choices are kept.
    pub has_thread_key: bool,
    /// The kept expansion choice, if any.
    pub persisted: Option<bool>,
    /// The card's local folder state, once it has shown.
    pub local: Option<CardLocal>,
}

/// A proposed plan row.
pub struct PlanFacts {
    pub id: String,
    pub markdown: String,
    pub expanded: bool,
}

/// A work-log entry row.
pub struct WorkFacts {
    pub id: String,
    pub heading: String,
    pub preview: String,
    pub expanded: bool,
    /// The entry's expanded body, when it has one.
    pub body: Option<String>,
}

/// A timeline row with the content its height depends on.
pub enum RowContent {
    /// The row's index points past the list it indexes.
    Missing,
    Message {
        id: String,
        role: MessageRole,
        text: String,
        streaming: bool,
        attachments: Option<Vec<AttachmentKey>>,
        /// The message offers a revert.
        has_revert: bool,
        /// For an assistant message: its changed-files card, if a
        /// checkpoint is bound to it.
        card: Option<CardState>,
    },
    /// A proposed plan row; `None` when the plan is gone.
    Plan(Option<PlanFacts>),
    Work(WorkFacts),
    WorkToggle(WorkToggleData),
    TurnFold(TurnFoldData),
    Running,
}

pub open spec fn byte_write(b: u8) -> Seq<Seq<u8>> {
    seq![seq![b]]
}

pub open spec fn bool_write(b: bool) -> Seq<Seq<u8>> {
    byte_write(
        if b {
            1u8
        } else {
            0u8
        },
    )
}

pub open spec fn str_write(s: Seq<char>) -> Seq<Seq<u8>> {
    seq![encode_utf8(s), seq![0xffu8]]
}

/// The `k` low bytes of `n`, least significant first.
pub open spec fn le_bytes(n: nat, k: nat) -> Seq<u8>
    decreases k,
{
    if k == 0 {
        seq![]
    } else {
        seq![(n % 256) as u8] + le_bytes(n / 256, (k - 1) as nat)
    }
}

pub open spec fn u64_write(n: u64) -> Seq<Seq<u8>> {
    seq![le_bytes(n as nat, 8)]
}

pub open spec fn role_byte(r: MessageRole) -> u8 {
    match r {
        MessageRole::User => 0,
        MessageRole::Assistant => 1,
        MessageRole::System => 2,
    }
}

pub open spec fn attachment_writes(a: AttachmentKey) -> Seq<Seq<u8>> {
    match a {
        AttachmentKey::Image { id, name } => byte_write(0) + str_write(id@) + str_write(name@),
        AttachmentKey::File { id, name } => byte_write(1) + str_write(id@) + str_write(name@),
        AttachmentKey::Other { text } => str_write(text@),
    }
}

pub open spec fn attachments_writes(atts: Seq<AttachmentKey>) -> Seq<Seq<u8>>
    decreases atts.len(),
{
    if atts.len() == 0 {
        seq![]
    } else {
        attachments_writes(atts.drop_last()) + attachment_writes(atts.last())
    }
}

pub open spec fn files_writes(fs: Seq<ChangedFileStat>) -> Seq<Seq<u8>>
    decreases fs.len(),
{
    if fs.len() == 0 {
        seq![]
    } else {
        files_writes(fs.drop_last()) + str_write(fs.last().path@) + u64_write(fs.last().additions)
            + u64_write(fs.last().deletions)
    }
}

pub open spec fn overrides_writes(ovs: Seq<(String, bool)>) -> Seq<Seq<u8>>
    decreases ovs.len(),
{
    if ovs.len() == 0 {
        seq![]
    } else {
        overrides_writes(ovs.drop_last()) + str_write(ovs.last().0@) + bool_write(ovs.last().1)
    }
}

/// Whether the card shows expanded: the kept choice, else open on the
/// latest turn when the card opened itself.
pub open spec fn card_expanded(c: CardState) -> bool {
    match c.persisted {
        Some(p) => p,
        None => c.is_latest && match c.local {
            Some(l) => l.auto_expanded,
            None => false,
        },
    }
}

pub open spec fn card_writes(card: Option<CardState>) -> Seq<Seq<u8>> {
    match card {
        None => bool_write(false),
        Some(c) => bool_write(true) + str_write(c.turn_id@) + files_writes(c.files@) + bool_write(
            c.is_latest,
        ) + (if c.has_thread_key {
            bool_write(card_expanded(c))
        } else {
            seq![]
        }) + local_writes(c.local),
    }
}

/// The card's folder state: the toggle-all switch, the tree state of the
/// overrides, and the overrides.
pub open spec fn local_writes(local: Option<CardLocal>) -> Seq<Seq<u8>> {
    match local {
        Some(l) => bool_write(l.all_dirs_expanded) + str_write(l.overrides_key@) + overrides_writes(
            l.dir_overrides@,
        ),
        None => seq![],
    }
}

/// The writes that make a row's fingerprint.
pub open spec fn row_writes(c: RowContent) -> Seq<Seq<u8>> {
    match c {
        RowContent::Missing => seq![],
        RowContent::Message { id, role, text, streaming, attachments, has_revert, card } => byte_write(
            0,
        ) + str_write(id@) + byte_write(role_byte(role)) + str_write(text@) + bool_write(streaming)
            + match attachments {
            Some(v) => attachments_writes(v@),
            None => seq![],
        } + bool_write(has_revert) + if role is Assistant {
            card_writes(card)
        } else {
            seq![]
        },
        RowContent::Plan(p) => byte_write(5) + match p {
            Some(p) => str_write(p.id@) + str_write(p.markdown@) + bool_write(p.expanded),
            None => seq![],
        },
        RowContent::Work(w) => byte_write(1) + str_write(w.id@) + str_write(w.heading@) + str_write(
            w.preview@,
        ) + bool_write(w.expanded) + if w.expanded {
            match w.body {
                Some(b) => byte_write(1) + str_write(b@),
                None => byte_write(0),
            }
        } else {
            bool_write(w.body is Some)
        },
        RowContent::WorkToggle(t) => byte_write(3) + str_write(t.group_id@) + u64_write(
            t.hidden_count as u64,
        ) + bool_write(t.expanded) + bool_write(t.only_tool_entries),
        RowContent::TurnFold(f) => byte_write(4) + str_write(f.turn_id@) + str_write(f.label@)
            + bool_write(f.expanded),
        RowContent::Running => byte_write(2),
    }
}

/// A row's fingerprint: 0 for a row whose index points past its list, else
/// the hash of its writes.
pub open spec fn fingerprint(c: RowContent) -> u64 {
    if c is Missing {
        0
    } else {
        DefaultHasher::spec_finish(row_writes(c))
    }
}

/// A collapsed work entry's body is not shown, so its fingerprint depends
/// only on whether it has one: changing the body text of a collapsed entry
/// never forces a remeasure.
pub proof fn law_collapsed_work_ignores_body(w: WorkFacts, body: Option<String>)
    requires
        !w.expanded,
        (w.body is Some) == (body is Some),
    ensures
        fingerprint(RowContent::Work(w)) == fingerprint(
            RowContent::Work(WorkFacts { body: body, ..w }),
        ),
{
    assert(row_writes(RowContent::Work(w)) =~= row_writes(
        RowContent::Work(WorkFacts { body: body, ..w }),
    ));
}

fn write_byte(h: &mut DefaultHasher, b: u8)
    ensures
        final(h)@ == old(h)@ + byte_write(b),
{
    let buf: [u8; 1] = [b];
    h.write(&buf);
    assert(buf@ =~= seq![b]);
    assert(h@ =~= old(h)@ + byte_write(b));
}

fn write_bool(h: &mut DefaultHasher, b: bool)
    ensures
        final(h)@ == old(h)@ + bool_write(b),
{
    write_byte(
        h,
        if b {
            1
        } else {
            0
        },
    );
}

fn write_str(h: &mut DefaultHasher, s: &str)
    ensures
        final(h)@ == old(h)@ + str_write(s@),
{
    h.write(s.as_bytes());
    write_byte(h, 0xff);
    assert(h@ =~= old(h)@ + str_write(s@));
}

proof fn lemma_le_bytes_step(n: nat, k: nat)
    requires
        k > 0,
    ensures
        le_bytes(n, k) == seq![(n % 256) as u8] + le_bytes(n / 256, (k - 1) as nat),
{
}

fn write_u64(h: &mut DefaultHasher, n: u64)
    ensures
        final(h)@ == old(h)@ + u64_write(n),
{
    let mut v: Vec<u8> = Vec::new();
    let mut m: u64 = n;
    let mut k: usize = 0;
    while k < 8
        invariant
            k <= 8,
            v@ + le_bytes(m as nat, (8 - k) as nat) == le_bytes(n as nat, 8),
        decreases 8 - k,
    {
        let ghost before = v@;
        proof {
            lemma_le_bytes_step(m as nat, (8 - k) as nat);
        }
        let low: u8 = (m % 256) as u8;
        v.push(low);
        assert(v@ + le_bytes((m / 256) as nat, (8 - k - 1) as nat) =~= before + (seq![low]
            + le_bytes((m / 256) as nat, (8 - k - 1) as nat)));
        m = m / 256;
        k = k + 1;
    }
    assert(v@ =~= le_bytes(n as nat, 8));
    h.write(v.as_slice());
    assert(h@ =~= old(h)@ + u64_write(n));
}

fn write_attachments(h: &mut DefaultHasher, atts: &Vec<AttachmentKey>)
    ensures
        final(h)@ == old(h)@ + attachments_writes(atts@),
{
    let mut i: usize = 0;
    while i < atts.len()
        invariant
            i <= atts@.len(),
            h@ == old(h)@ + attachments_writes(atts@.take(i as int)),
        decreases atts@.len() - i,
    {
        let ghost pre = h@;
        match &atts[i] {
            AttachmentKey::Image { id, name } => {
                write_byte(h, 0);
                write_str(h, id.as_str());
                write_str(h, name.as_str());
            },
            AttachmentKey::File { id, name } => {
                write_byte(h, 1);
                write_str(h, id.as_str());
                write_str(h, name.as_str());
            },
            AttachmentKey::Other { text } => {
                write_str(h, text.as_str());
            },
        }
        assert(h@ =~= pre + attachment_writes(atts@[i as int]));
        assert(atts@.take(i + 1).drop_last() =~= atts@.take(i as int));
        assert(h@ =~= old(h)@ + attachments_writes(atts@.take(i + 1)));
        i += 1;
    }
    assert(atts@.take(i as int) =~= atts@);
}

fn write_files(h: &mut DefaultHasher, fs: &Vec<ChangedFileStat>)
    ensures
        final(h)@ == old(h)@ + files_writes(fs@),
{
    let mut i: usize = 0;
    while i < fs.len()
        invariant
            i <= fs@.len(),
            h@ == old(h)@ + files_writes(fs@.take(i as int)),
        decreases fs@.len() - i,
    {
        let ghost pre = h@;
        write_str(h, fs[i].path.as_str());
        write_u64(h, fs[i].additions);
        write_u64(h, fs[i].deletions);
        assert(fs@.take(i + 1).drop_last() =~= fs@.take(i as int));
        assert(h@ =~= old(h)@ + files_writes(fs@.take(i + 1)));
        i += 1;
    }
    assert(fs@.take(i as int) =~= fs@);
}

fn write_overrides(h: &mut DefaultHasher, ovs: &Vec<(String, bool)>)
    ensures
        final(h)@ == old(h)@ + overrides_writes(ovs@),
{
    let mut i: usize = 0;
    while i < ovs.len()
        invariant
            i <= ovs@.len(),
            h@ == old(h)@ + overrides_writes(ovs@.take(i as int)),
        decreases ovs@.len() - i,
    {
        write_str(h, ovs[i].0.as_str());
        write_bool(h, ovs[i].1);
        assert(ovs@.take(i + 1).drop_last() =~= ovs@.take(i as int));
        assert(h@ =~= old(h)@ + overrides_writes(ovs@.take(i + 1)));
        i += 1;
    }
    assert(ovs@.take(i as int) =~= ovs@);
}

/// Fold an assistant message's changed-files card into `h`: whether a
/// checkpoint is bound, its turn and files, whether it is the latest turn,
/// its expansion (when the thread keeps choices) and its folder state.
pub fn hash_card(h: &mut DefaultHasher, card: &Option<CardState>)
    ensures
        final(h)@ == old(h)@ + card_writes(*card),
{
    match card {
        None => write_bool(h, false),
        Some(c) => {
            let ghost start = h@;
            write_bool(h, true);
            write_str(h, c.turn_id.as_str());
            let ghost p1 = bool_write(true) + str_write(c.turn_id@);
            assert(h@ =~= start + p1);
            write_files(h, &c.files);
            write_bool(h, c.is_latest);
            let ghost p2 = p1 + files_writes(c.files@) + bool_write(c.is_latest);
            assert(h@ =~= start + p2);
            let ghost mid = h@;
            if c.has_thread_key {
                let e = changed_files::effective_expanded(c.persisted, c.is_latest, c.local.as_ref());
                write_bool(h, e);
            }
            let ghost p3 = p2 + (if c.has_thread_key {
                bool_write(card_expanded(*c))
            } else {
                seq![]
            });
            assert(h@ =~= start + p3);
            let ghost mid2 = h@;
            match &c.local {
                Some(l) => {
                    write_bool(h, l.all_dirs_expanded);
                    write_str(h, l.overrides_key.as_str());
                    write_overrides(h, &l.dir_overrides);
                    assert(h@ =~= mid2 + (bool_write(l.all_dirs_expanded) + str_write(
                        l.overrides_key@,
                    ) + overrides_writes(l.dir_overrides@)));
                },
                None => {},
            }
            let ghost p4 = local_writes(c.local);
            assert(h@ =~= mid2 + p4);
            assert(card_writes(*card) == p3 + p4);
            assert(h@ =~= start + (p3 + p4));
        },
    }
}

/// The fingerprint of one timeline row.
pub fn row_content_hash(content: &RowContent) -> (r: u64)
    ensures
        r == fingerprint(*content),
{
    let mut h = DefaultHasher::new();
    match content {
        RowContent::Missing => {
            return 0;
        },
        RowContent::Message { id, role, text, streaming, attachments, has_revert, card } => {
            write_byte(&mut h, 0);
            write_str(&mut h, id.as_str());
            let rb: u8 = match role {
                MessageRole::User => 0,
                MessageRole::Assistant => 1,
                MessageRole::System => 2,
            };
            write_byte(&mut h, rb);
            write_str(&mut h, text.as_str());
            write_bool(&mut h, *streaming);
            let ghost p1 = byte_write(0) + str_write(id@) + byte_write(role_byte(*role)) + str_write(
                text@,
            ) + bool_write(*streaming);
            assert(h@ =~= p1);
            match attachments {
                Some(v) => write_attachments(&mut h, v),
                None => {},
            }
            write_bool(&mut h, *has_revert);
            let ghost p2 = p1 + match attachments {
                Some(v) => attachments_writes(v@),
                None => seq![],
            } + bool_write(*has_revert);
            assert(h@ =~= p2);
            let ghost mid = h@;
            match role {
                MessageRole::Assistant => hash_card(&mut h, card),
                _ => {},
            }
            let ghost p3 = if role is Assistant {
                card_writes(*card)
            } else {
                seq![]
            };
            assert(h@ =~= mid + p3);
            assert(row_writes(*content) == p2 + p3);
            assert(h@ =~= row_writes(*content));
        },
        RowContent::Plan(p) => {
            write_byte(&mut h, 5);
            match p {
                Some(p) => {
                    write_str(&mut h, p.id.as_str());
                    write_str(&mut h, p.markdown.as_str());
                    write_bool(&mut h, p.expanded);
                },
                None => {},
            }
            assert(h@ =~= row_writes(*content));
        },
        RowContent::Work(w) => {
            write_byte(&mut h, 1);
            write_str(&mut h, w.id.as_str());
            write_str(&mut h, w.heading.as_str());
            write_str(&mut h, w.preview.as_str());
            write_bool(&mut h, w.expanded);
            if w.expanded {
                match &w.body {
                    Some(b) => {
                        write_byte(&mut h, 1);
                        write_str(&mut h, b.as_str());
                    },
                    None => write_byte(&mut h, 0),
                }
            } else {
                write_bool(&mut h, w.body.is_some());
            }
            assert(h@ =~= row_writes(*content));
        },
        RowContent::WorkToggle(t) => {
            write_byte(&mut h, 3);
            write_str(&mut h, t.group_id.as_str());
            write_u64(&mut h, t.hidden_count as u64);
            write_bool(&mut h, t.expanded);
            write_bool(&mut h, t.only_tool_entries);
            assert(h@ =~= row_writes(*content));
        },
        RowContent::TurnFold(f) => {
            write_byte(&mut h, 4);
            write_str(&mut h, f.turn_id.as_str());
            write_str(&mut h, f.label.as_str());
            write_bool(&mut h, f.expanded);
            assert(h@ =~= row_writes(*content));
        },
        RowContent::Running => {
            write_byte(&mut h, 2);
            assert(h@ =~= row_writes(*content));
        },
    }
    h.finish()
}

/// The fingerprints of a rebuilt timeline, one per row.
pub fn row_fingerprints(contents: &Vec<RowContent>) -> (r: Vec<u64>)
    ensures
        r@.len() == contents@.len(),
        forall|i: int| 0 <= i < contents@.len() ==> r@[i] == fingerprint(#[trigger] contents@[i]),
{
    let mut out: Vec<u64> = Vec::new();
    let mut i: usize = 0;
    while i < contents.len()
        invariant
            i <= contents@.len(),
            out@.len() == i,
            forall|j: int| 0 <= j < i ==> out@[j] == fingerprint(#[trigger] contents@[j]),
        decreases contents@.len() - i,
    {
        out.push(row_content_hash(&contents[i]));
        i += 1;
    }
    out
}

} // verus!
