//! Interaction modes, the send decision of the composer, the pending
//! user-input question flow and the two-step checkpoint revert.

use vstd::prelude::*;

use crate::text;

verus! {

/// How the provider should treat a turn: plain build mode or plan mode.
#[derive(Clone, Copy, PartialEq, Eq, Debug, Structural)]
pub enum ProviderInteractionMode {
    Default,
    Plan,
}

/// The mode a thread's toolbar shows and its next turn uses: an
/// unacknowledged click first, then the shell's mode, then the detail
/// projection's, else build mode.
pub fn resolve_interaction_mode(
    pending: Option<&ProviderInteractionMode>,
    shell: Option<&ProviderInteractionMode>,
    detail: Option<&ProviderInteractionMode>,
) -> (r: ProviderInteractionMode)
    ensures
        r == match pending {
            Some(m) => *m,
            None => match shell {
                Some(m) => *m,
                None => match detail {
                    Some(m) => *m,
                    None => ProviderInteractionMode::Default,
                },
            },
        },
{
    match pending {
        Some(m) => *m,
        None => match shell {
            Some(m) => *m,
            None => match detail {
                Some(m) => *m,
                None => ProviderInteractionMode::Default,
            },
        },
    }
}

/// Whether a mode click may be written now: nothing is in flight and the
/// mode actually changes.
pub fn should_request_mode_change(
    pending_in_flight: bool,
    current: ProviderInteractionMode,
    requested: ProviderInteractionMode,
) -> (b: bool)
    ensures
        b == (!pending_in_flight && current != requested),
{
    !pending_in_flight && current != requested
}

/// A pending mode write: the thread and the mode clicked.
pub open spec fn pending_view(p: Option<(String, ProviderInteractionMode)>) -> Option<
    (Seq<char>, ProviderInteractionMode),
> {
    match p {
        Some((t, m)) => Some((t@, m)),
        None => None,
    }
}

/// A click on mode `requested` for `thread`, whose mode now reads as
/// `current`: the pending write after it, and whether a write is sent.
/// Writes are serialized until the shell acknowledges the last click.
pub open spec fn mode_request(
    p: Option<(Seq<char>, ProviderInteractionMode)>,
    thread: Seq<char>,
    current: ProviderInteractionMode,
    requested: ProviderInteractionMode,
) -> (Option<(Seq<char>, ProviderInteractionMode)>, bool) {
    if p is None && current != requested {
        (Some((thread, requested)), true)
    } else {
        (p, false)
    }
}

/// The one unacknowledged interaction-mode write, if any.
pub struct PendingModeWrite {
    pub pending: Option<(String, ProviderInteractionMode)>,
}

impl PendingModeWrite {
    pub fn new() -> (r: Self)
        ensures
            r.pending is None,
    {
        PendingModeWrite { pending: None }
    }

    /// A click on a mode: send a write only when none is in flight and
    /// the mode differs from the current one.
    pub fn request(
        &mut self,
        thread: &str,
        current: ProviderInteractionMode,
        requested: ProviderInteractionMode,
    ) -> (dispatch: bool)
        ensures
            (pending_view(final(self).pending), dispatch) == mode_request(
                pending_view(old(self).pending),
                thread@,
                current,
                requested,
            ),
    {
        if should_request_mode_change(self.pending.is_some(), current, requested) {
            self.pending = Some((text::string_from(&text::chars_of(thread)), requested));
            true
        } else {
            false
        }
    }

    /// The shell now reports `shell_mode` for the pending write's thread:
    /// an acknowledged write is no longer pending.
    pub fn observe_shell(&mut self, shell_mode: Option<ProviderInteractionMode>)
        ensures
            pending_view(final(self).pending) == match pending_view(old(self).pending) {
                Some((t, m)) => if shell_mode == Some(m) {
                    None
                } else {
                    Some((t, m))
                },
                None => None,
            },
    {
        let acknowledged = match (&self.pending, shell_mode) {
            (Some((_, m)), Some(s)) => *m == s,
            _ => false,
        };
        if acknowledged {
            self.pending = None;
        }
    }

    /// A write for `thread` and `mode` failed: it stops being pending only
    /// when it is still the pending one. Returns whether it was.
    pub fn fail(&mut self, thread: &str, mode: ProviderInteractionMode) -> (cleared: bool)
        ensures
            cleared == (pending_view(old(self).pending) == Some((thread@, mode))),
            pending_view(final(self).pending) == if cleared {
                None
            } else {
                pending_view(old(self).pending)
            },
    {
        let cleared = match &self.pending {
            Some((t, m)) => mode_failure_clears_pending(Some((t.as_str(), *m)), thread, mode),
            None => false,
        };
        if cleared {
            self.pending = None;
        }
        cleared
    }
}

/// At most one unacknowledged mode write is in flight: of two clicks with
/// no acknowledgement or failure between them, at most one sends a write.
pub proof fn law_one_mode_write_in_flight(
    p: Option<(Seq<char>, ProviderInteractionMode)>,
    t1: Seq<char>,
    c1: ProviderInteractionMode,
    r1: ProviderInteractionMode,
    t2: Seq<char>,
    c2: ProviderInteractionMode,
    r2: ProviderInteractionMode,
)
    ensures
        !(mode_request(p, t1, c1, r1).1 && mode_request(mode_request(p, t1, c1, r1).0, t2, c2, r2).1),
{
}

/// After a failed mode write, whether the pending selection is the failed
/// request's own and may be cleared. A failure that arrives for an earlier
/// request (another thread, or a superseded mode) leaves it alone.
pub fn mode_failure_clears_pending(
    pending: Option<(&str, ProviderInteractionMode)>,
    failed_thread: &str,
    failed_mode: ProviderInteractionMode,
) -> (b: bool)
    ensures
        b == match pending {
            Some((t, m)) => t@ == failed_thread@ && m == failed_mode,
            None => false,
        },
{
    match pending {
        Some((t, m)) => text::str_eq(t, failed_thread) && m == failed_mode,
        None => false,
    }
}

/// The prompt sent when only files were attached.
pub open spec fn image_only_prompt() -> Seq<char> {
    "[User attached one or more files without additional text. Respond using the conversation context and the attached file(s).]"@
}

pub open spec fn implement_plan_header() -> Seq<char> {
    "PLEASE IMPLEMENT THIS PLAN:\n"@
}

/// What the composer's send action does.
pub enum SendPlan {
    /// Nothing to send, or the composer belongs to a pending request.
    Ignore,
    /// The text was exactly `/plan` or `/default`: switch modes, send nothing.
    SwitchMode(ProviderInteractionMode),
    /// Start a turn with this prompt and mode; `implements_plan` when the
    /// turn implements the thread's actionable proposed plan.
    Start { prompt: String, mode: ProviderInteractionMode, implements_plan: bool },
}

/// What a send does, as a value over character sequences.
pub enum SendPlanView {
    Ignore,
    SwitchMode(ProviderInteractionMode),
    Start { prompt: Seq<char>, mode: ProviderInteractionMode, implements_plan: bool },
}

impl View for SendPlan {
    type V = SendPlanView;

    open spec fn view(&self) -> SendPlanView {
        match self {
            SendPlan::Ignore => SendPlanView::Ignore,
            SendPlan::SwitchMode(m) => SendPlanView::SwitchMode(*m),
            SendPlan::Start { prompt, mode, implements_plan } => SendPlanView::Start {
                prompt: prompt@,
                mode: *mode,
                implements_plan: *implements_plan,
            },
        }
    }
}

/// The inputs a send decision reads.
pub struct SendInput {
    /// The composer's text.
    pub composer: String,
    pub has_attachments: bool,
    pub has_terminal_contexts: bool,
    pub has_review_comments: bool,
    /// The markdown of the thread's actionable (not yet implemented) plan.
    pub actionable_plan: Option<String>,
    /// The mode the thread currently resolves to.
    pub selected_mode: ProviderInteractionMode,
    /// An earlier send still awaits the server's acknowledgement.
    pub dispatch_in_flight: bool,
    /// An approval or user-input request is pending on the thread.
    pub request_pending: bool,
}

pub open spec fn send_plan(i: SendInput) -> SendPlanView {
    let raw = text::trim(i.composer@);
    let no_context = !i.has_attachments && !i.has_terminal_contexts && !i.has_review_comments;
    if i.dispatch_in_flight || i.request_pending {
        SendPlanView::Ignore
    } else if no_context && text::lower(raw) == "/plan"@ {
        SendPlanView::SwitchMode(ProviderInteractionMode::Plan)
    } else if no_context && text::lower(raw) == "/default"@ {
        SendPlanView::SwitchMode(ProviderInteractionMode::Default)
    } else if raw.len() == 0 && no_context && i.actionable_plan is None {
        SendPlanView::Ignore
    } else {
        match i.actionable_plan {
            Some(md) => if raw.len() == 0 {
                SendPlanView::Start {
                    prompt: implement_plan_header() + text::trim(md@),
                    mode: ProviderInteractionMode::Default,
                    implements_plan: true,
                }
            } else {
                SendPlanView::Start {
                    prompt: raw,
                    mode: ProviderInteractionMode::Plan,
                    implements_plan: false,
                }
            },
            None => if raw.len() == 0 && i.has_attachments {
                SendPlanView::Start {
                    prompt: image_only_prompt(),
                    mode: i.selected_mode,
                    implements_plan: false,
                }
            } else {
                SendPlanView::Start { prompt: raw, mode: i.selected_mode, implements_plan: false }
            },
        }
    }
}

/// `v[lo..hi]` lower-cased equals `lit`.
fn lower_range_eq(v: &Vec<char>, lo: usize, hi: usize, lit: &str) -> (b: bool)
    requires
        lo <= hi <= v@.len(),
    ensures
        b == (text::lower(v@.subrange(lo as int, hi as int)) == lit@),
{
    let l = text::chars_of(lit);
    if hi - lo != l.len() {
        assert(text::lower(v@.subrange(lo as int, hi as int)).len() != lit@.len());
        return false;
    }
    let mut i: usize = 0;
    while i < l.len()
        invariant
            lo <= hi <= v@.len(),
            hi - lo == l@.len(),
            l@ == lit@,
            i <= l@.len(),
            forall|j: int| 0 <= j < i ==> text::lower_char(v@[lo + j]) == l@[j],
        decreases l@.len() - i,
    {
        if text::lower_char_exec(v[lo + i]) != l[i] {
            assert(text::lower(v@.subrange(lo as int, hi as int))[i as int] != l@[i as int]);
            return false;
        }
        i += 1;
    }
    assert(text::lower(v@.subrange(lo as int, hi as int)) =~= lit@);
    true
}

/// Decide what pressing send does with the composer's current contents.
pub fn plan_send(input: &SendInput) -> (r: SendPlan)
    ensures
        r@ == send_plan(*input),
{
    if input.dispatch_in_flight || input.request_pending {
        return SendPlan::Ignore;
    }
    let v = text::chars_of(input.composer.as_str());
    let (a, b) = text::trim_range(&v, 0, v.len());
    assert(v@.subrange(0, v@.len() as int) =~= v@);
    let ghost raw = text::trim(input.composer@);
    let no_context = !input.has_attachments && !input.has_terminal_contexts
        && !input.has_review_comments;
    if no_context && lower_range_eq(&v, a, b, "/plan") {
        return SendPlan::SwitchMode(ProviderInteractionMode::Plan);
    }
    if no_context && lower_range_eq(&v, a, b, "/default") {
        return SendPlan::SwitchMode(ProviderInteractionMode::Default);
    }
    let empty = a == b;
    if empty && no_context && input.actionable_plan.is_none() {
        return SendPlan::Ignore;
    }
    match &input.actionable_plan {
        Some(md) => {
            if empty {
                let mut out: Vec<char> = Vec::new();
                text::push_literal(&mut out, "PLEASE IMPLEMENT THIS PLAN:\n");
                let m = text::chars_of(md.as_str());
                let (x, y) = text::trim_range(&m, 0, m.len());
                assert(m@.subrange(0, m@.len() as int) =~= m@);
                text::push_range(&mut out, &m, x, y);
                SendPlan::Start {
                    prompt: text::string_from(&out),
                    mode: ProviderInteractionMode::Default,
                    implements_plan: true,
                }
            } else {
                SendPlan::Start {
                    prompt: text::string_of(&v, a, b),
                    mode: ProviderInteractionMode::Plan,
                    implements_plan: false,
                }
            }
        },
        None => {
            if empty && input.has_attachments {
                let mut out: Vec<char> = Vec::new();
                text::push_literal(
                    &mut out,
                    "[User attached one or more files without additional text. Respond using the conversation context and the attached file(s).]",
                );
                SendPlan::Start {
                    prompt: text::string_from(&out),
                    mode: input.selected_mode,
                    implements_plan: false,
                }
            } else {
                SendPlan::Start {
                    prompt: text::string_of(&v, a, b),
                    mode: input.selected_mode,
                    implements_plan: false,
                }
            }
        },
    }
}

/// One question of a pending user-input request.
pub struct Question {
    pub id: String,
    pub multi_select: bool,
}

/// The front pending user-input request.
pub struct PendingUserInput {
    pub request_id: String,
    pub questions: Vec<Question>,
}

/// Draft answers for the front request: the question shown and the labels
/// picked per question id.
pub struct InputDraft {
    pub request_id: String,
    pub question_index: usize,
    pub selections: Vec<(String, Vec<String>)>,
}

pub open spec fn labels_view(v: Seq<String>) -> Seq<Seq<char>> {
    v.map_values(|s: String| s@)
}

pub open spec fn selections_view(sel: Seq<(String, Vec<String>)>) -> Seq<
    (Seq<char>, Seq<Seq<char>>),
> {
    sel.map_values(|e: (String, Vec<String>)| (e.0@, labels_view(e.1@)))
}

/// Index of the first entry keyed `key`, from `i` on.
pub open spec fn find_key_from(sel: Seq<(Seq<char>, Seq<Seq<char>>)>, key: Seq<char>, i: int) -> Option<
    int,
>
    decreases sel.len() - i,
{
    if i < 0 || i >= sel.len() {
        None
    } else if sel[i].0 == key {
        Some(i)
    } else {
        find_key_from(sel, key, i + 1)
    }
}

/// The labels picked for question `key`.
pub open spec fn labels_for(sel: Seq<(Seq<char>, Seq<Seq<char>>)>, key: Seq<char>) -> Seq<
    Seq<char>,
> {
    match find_key_from(sel, key, 0) {
        Some(i) => sel[i].1,
        None => seq![],
    }
}

/// The selections with question `key` now holding `labels`.
pub open spec fn with_labels(
    sel: Seq<(Seq<char>, Seq<Seq<char>>)>,
    key: Seq<char>,
    labels: Seq<Seq<char>>,
) -> Seq<(Seq<char>, Seq<Seq<char>>)> {
    match find_key_from(sel, key, 0) {
        Some(i) => sel.update(i, (key, labels)),
        None => sel.push((key, labels)),
    }
}

/// Index of the first `label` in `labels`, from `i` on.
pub open spec fn find_label_from(labels: Seq<Seq<char>>, label: Seq<char>, i: int) -> Option<int>
    decreases labels.len() - i,
{
    if i < 0 || i >= labels.len() {
        None
    } else if labels[i] == label {
        Some(i)
    } else {
        find_label_from(labels, label, i + 1)
    }
}

/// A multi-select click: drop the label if picked, else append it.
pub open spec fn toggled(labels: Seq<Seq<char>>, label: Seq<char>) -> Seq<Seq<char>> {
    match find_label_from(labels, label, 0) {
        Some(i) => labels.remove(i),
        None => labels.push(label),
    }
}

/// The question index the panel shows, clamped to the last question.
pub open spec fn shown_question(draft_index: nat, count: nat) -> nat {
    if draft_index < count {
        draft_index
    } else {
        (count - 1) as nat
    }
}

/// The draft for `request_id`: the current one when it belongs to that
/// request, else a fresh one.
pub fn draft_for_request(draft: Option<InputDraft>, request_id: &str) -> (d: InputDraft)
    ensures
        match draft {
            Some(old) => if old.request_id@ == request_id@ {
                d == old
            } else {
                d.request_id@ == request_id@ && d.question_index == 0 && d.selections@.len() == 0
            },
            None => d.request_id@ == request_id@ && d.question_index == 0
                && d.selections@.len() == 0,
        },
{
    match draft {
        Some(old) => {
            if text::str_eq(old.request_id.as_str(), request_id) {
                old
            } else {
                InputDraft {
                    request_id: text::string_from(&text::chars_of(request_id)),
                    question_index: 0,
                    selections: Vec::new(),
                }
            }
        },
        None => InputDraft {
            request_id: text::string_from(&text::chars_of(request_id)),
            question_index: 0,
            selections: Vec::new(),
        },
    }
}

/// One answer of a submitted request.
pub enum Answer {
    /// Multi-select questions answer with every picked label.
    Labels(Vec<String>),
    /// Single-select questions answer with the picked label.
    Label(String),
    /// A single-select question with nothing picked.
    Empty,
}

pub enum AnswerView {
    Labels(Seq<Seq<char>>),
    Label(Seq<char>),
    Empty,
}

impl View for Answer {
    type V = AnswerView;

    open spec fn view(&self) -> AnswerView {
        match self {
            Answer::Labels(v) => AnswerView::Labels(labels_view(v@)),
            Answer::Label(l) => AnswerView::Label(l@),
            Answer::Empty => AnswerView::Empty,
        }
    }
}

pub open spec fn answer_for(q: Question, sel: Seq<(Seq<char>, Seq<Seq<char>>)>) -> AnswerView {
    let labels = labels_for(sel, q.id@);
    if q.multi_select {
        AnswerView::Labels(labels)
    } else if labels.len() > 0 {
        AnswerView::Label(labels[0])
    } else {
        AnswerView::Empty
    }
}

/// Where advancing the question flow lands.
pub enum Advance {
    /// The panel moved to this question.
    Next(usize),
    /// The last question was answered: submit these answers, in question
    /// order, keyed by question id.
    Submit(Vec<(String, Answer)>),
}

fn find_key(sel: &Vec<(String, Vec<String>)>, key: &String) -> (r: Option<usize>)
    ensures
        match r {
            Some(i) => find_key_from(selections_view(sel@), key@, 0) == Some(i as int) && i
                < sel@.len(),
            None => find_key_from(selections_view(sel@), key@, 0) is None,
        },
{
    let ghost sv = selections_view(sel@);
    let mut i: usize = 0;
    while i < sel.len()
        invariant
            sv == selections_view(sel@),
            i <= sel@.len(),
            find_key_from(sv, key@, 0) == find_key_from(sv, key@, i as int),
        decreases sel@.len() - i,
    {
        assert(sv[i as int].0 == sel@[i as int].0@);
        if text::str_eq(sel[i].0.as_str(), key.as_str()) {
            return Some(i);
        }
        i += 1;
    }
    None
}

fn clone_strings(v: &Vec<String>) -> (r: Vec<String>)
    ensures
        labels_view(r@) == labels_view(v@),
{
    let mut r: Vec<String> = Vec::new();
    let mut i: usize = 0;
    while i < v.len()
        invariant
            i <= v@.len(),
            labels_view(r@) == labels_view(v@.take(i as int)),
        decreases v@.len() - i,
    {
        let ghost before = r@;
        let c = text::string_from(&text::chars_of(v[i].as_str()));
        assert(c@ == v@[i as int]@);
        r.push(c);
        assert(v@.take(i + 1) =~= v@.take(i as int).push(v@[i as int]));
        assert(r@ =~= before.push(c));
        assert(labels_view(r@) =~= labels_view(before).push(c@));
        assert(labels_view(v@.take(i + 1)) =~= labels_view(v@.take(i as int)).push(v@[i as int]@));
        i += 1;
    }
    assert(v@.take(v@.len() as int) =~= v@);
    r
}

/// Move to the next question, or, from the last one, produce the answers
/// to submit (`Next` leaves `question_index` on the new question).
pub fn advance_user_input(draft: &mut InputDraft, pending: &PendingUserInput) -> (r: Advance)
    requires
        pending.questions@.len() > 0,
    ensures
        ({
            let shown = shown_question(
                old(draft).question_index as nat,
                pending.questions@.len(),
            );
            match r {
                Advance::Next(i) => shown + 1 < pending.questions@.len() && i == shown + 1
                    && final(draft).question_index == i && final(draft).request_id
                    == old(draft).request_id && final(draft).selections == old(draft).selections,
                Advance::Submit(answers) => shown + 1 >= pending.questions@.len() && *final(draft) == *old(draft) && answers@.len() == pending.questions@.len() && forall|j: int|
                    0 <= j < answers@.len() ==> (#[trigger] answers@[j]).0@
                        == pending.questions@[j].id@ && answers@[j].1@ == answer_for(
                        pending.questions@[j],
                        selections_view(old(draft).selections@),
                    ),
            }
        }),
{
    let count = pending.questions.len();
    let index = if draft.question_index < count {
        draft.question_index
    } else {
        count - 1
    };
    if index + 1 < count {
        draft.question_index = index + 1;
        return Advance::Next(index + 1);
    }
    let mut answers: Vec<(String, Answer)> = Vec::new();
    let mut j: usize = 0;
    while j < count
        invariant
            count == pending.questions@.len(),
            j <= count,
            answers@.len() == j,
            forall|k: int|
                0 <= k < j ==> (#[trigger] answers@[k]).0@ == pending.questions@[k].id@
                    && answers@[k].1@ == answer_for(
                    pending.questions@[k],
                    selections_view(draft.selections@),
                ),
        decreases count - j,
    {
        let q = &pending.questions[j];
        let labels: Vec<String> = match find_key(&draft.selections, &q.id) {
            Some(i) => {
                assert(selections_view(draft.selections@)[i as int].1 == labels_view(
                    draft.selections@[i as int].1@,
                ));
                clone_strings(&draft.selections[i].1)
            },
            None => Vec::new(),
        };
        assert(labels_view(labels@) == labels_for(selections_view(draft.selections@), q.id@));
        let answer = if q.multi_select {
            Answer::Labels(labels)
        } else if labels.len() > 0 {
            Answer::Label(text::string_from(&text::chars_of(labels[0].as_str())))
        } else {
            Answer::Empty
        };
        let id = text::string_from(&text::chars_of(q.id.as_str()));
        answers.push((id, answer));
        j += 1;
    }
    Advance::Submit(answers)
}

/// What a click on an option of the shown question did.
pub enum OptionClick {
    /// The request's response is already in flight.
    Ignored,
    /// A multi-select question's picks changed.
    Toggled,
    /// A single-select question was answered and the flow advanced.
    Advanced(Advance),
}

fn find_label(labels: &Vec<String>, label: &String) -> (r: Option<usize>)
    ensures
        match r {
            Some(i) => find_label_from(labels_view(labels@), label@, 0) == Some(i as int) && i
                < labels@.len(),
            None => find_label_from(labels_view(labels@), label@, 0) is None,
        },
{
    let ghost lv = labels_view(labels@);
    let mut i: usize = 0;
    while i < labels.len()
        invariant
            lv == labels_view(labels@),
            i <= labels@.len(),
            find_label_from(lv, label@, 0) == find_label_from(lv, label@, i as int),
        decreases labels@.len() - i,
    {
        if text::str_eq(labels[i].as_str(), label.as_str()) {
            return Some(i);
        }
        i += 1;
    }
    None
}

/// Store `labels` as the picks of question `key`.
fn set_labels(sel: &mut Vec<(String, Vec<String>)>, key: &String, labels: Vec<String>)
    ensures
        selections_view(final(sel)@) == with_labels(
            selections_view(old(sel)@),
            key@,
            labels_view(labels@),
        ),
{
    let k = text::string_from(&text::chars_of(key.as_str()));
    match find_key(sel, key) {
        Some(i) => {
            sel.set(i, (k, labels));
            assert(selections_view(final(sel)@) =~= selections_view(old(sel)@).update(
                i as int,
                (key@, labels_view(labels@)),
            ));
        },
        None => {
            sel.push((k, labels));
            assert(selections_view(final(sel)@) =~= selections_view(old(sel)@).push(
                (key@, labels_view(labels@)),
            ));
        },
    }
}

/// A click on option `label` of the shown question: multi-select questions
/// toggle it; single-select questions take it as their answer and advance.
pub fn toggle_user_input_option(
    draft: &mut InputDraft,
    pending: &PendingUserInput,
    responding: bool,
    label: &String,
) -> (r: OptionClick)
    requires
        pending.questions@.len() > 0,
    ensures
        ({
            let q = pending.questions@[shown_question(
                old(draft).question_index as nat,
                pending.questions@.len(),
            ) as int];
            let picked = labels_for(selections_view(old(draft).selections@), q.id@);
            if responding {
                r is Ignored && *final(draft) == *old(draft)
            } else if q.multi_select {
                r is Toggled && final(draft).request_id == old(draft).request_id
                    && final(draft).question_index == old(draft).question_index
                    && selections_view(final(draft).selections@) == with_labels(
                    selections_view(old(draft).selections@),
                    q.id@,
                    toggled(picked, label@),
                )
            } else {
                r is Advanced && selections_view(final(draft).selections@) == with_labels(
                    selections_view(old(draft).selections@),
                    q.id@,
                    seq![label@],
                ) && final(draft).request_id == old(draft).request_id
            }
        }),
{
    if responding {
        return OptionClick::Ignored;
    }
    let count = pending.questions.len();
    let index = if draft.question_index < count {
        draft.question_index
    } else {
        count - 1
    };
    let q = &pending.questions[index];
    let mut labels: Vec<String> = match find_key(&draft.selections, &q.id) {
        Some(i) => {
            assert(selections_view(draft.selections@)[i as int].1 == labels_view(
                draft.selections@[i as int].1@,
            ));
            clone_strings(&draft.selections[i].1)
        },
        None => Vec::new(),
    };
    assert(labels_view(labels@) == labels_for(selections_view(draft.selections@), q.id@));
    let own = text::string_from(&text::chars_of(label.as_str()));
    if q.multi_select {
        let ghost before = labels_view(labels@);
        match find_label(&labels, label) {
            Some(p) => {
                labels.remove(p);
                assert(labels_view(labels@) =~= before.remove(p as int));
            },
            None => {
                labels.push(own);
                assert(labels_view(labels@) =~= before.push(label@));
            },
        }
        set_labels(&mut draft.selections, &q.id, labels);
        OptionClick::Toggled
    } else {
        let mut one: Vec<String> = Vec::new();
        one.push(own);
        assert(labels_view(one@) =~= seq![label@]);
        set_labels(&mut draft.selections, &q.id, one);
        let a = advance_user_input(draft, pending);
        OptionClick::Advanced(a)
    }
}

/// What a click on a user message's revert button did.
#[derive(Clone, Copy, PartialEq, Eq, Debug, Structural)]
pub enum RevertClick {
    /// A revert is already running.
    Ignored,
    /// First click: the button now asks for confirmation.
    Armed,
    /// Confirmed, but a turn is running: interrupt it first.
    Blocked,
    /// Confirmed but not connected: the confirmation is dropped.
    Dropped,
    /// Confirmed: dispatch the checkpoint revert.
    Dispatch,
}

/// The two-step revert: the first click on a message arms its button, a
/// second click on the same message confirms. `armed` is updated to the
/// message that now awaits confirmation.
pub fn revert_click(
    reverting: bool,
    armed: &mut Option<String>,
    message_id: &str,
    connected: bool,
    turn_running: bool,
) -> (r: RevertClick)
    ensures
        ({
            let same = match *old(armed) {
                Some(m) => m@ == message_id@,
                None => false,
            };
            if reverting {
                r == RevertClick::Ignored && *final(armed) == *old(armed)
            } else if !same {
                r == RevertClick::Armed && final(armed).is_some() && final(armed).unwrap()@
                    == message_id@
            } else {
                final(armed).is_none() && r == if !connected {
                    RevertClick::Dropped
                } else if turn_running {
                    RevertClick::Blocked
                } else {
                    RevertClick::Dispatch
                }
            }
        }),
{
    if reverting {
        return RevertClick::Ignored;
    }
    let same = match armed {
        Some(m) => text::str_eq(m.as_str(), message_id),
        None => false,
    };
    if !same {
        *armed = Some(text::string_from(&text::chars_of(message_id)));
        return RevertClick::Armed;
    }
    *armed = None;
    if !connected {
        RevertClick::Dropped
    } else if turn_running {
        RevertClick::Blocked
    } else {
        RevertClick::Dispatch
    }
}

/// Whether a failed send may put its text and context back: only when the
/// user has not typed or attached anything since.
pub fn rollback_restores_composer(
    composer_empty: bool,
    has_attachments: bool,
    has_review_comments: bool,
    has_terminal_contexts: bool,
) -> (b: bool)
    ensures
        b == (composer_empty && !has_attachments && !has_review_comments
            && !has_terminal_contexts),
{
    composer_empty && !has_attachments && !has_review_comments && !has_terminal_contexts
}

} // verus!
