//! Per-thread composer drafts: the key a draft is stored under, the file
//! name it is written to (URL-safe base64 of the key, so any key is a
//! plain file name), and the draft landing page's model label and send
//! button.

use vstd::prelude::*;

use base64::Engine;

use crate::providers::{ModelSelection, ServerProvider};
use crate::text;

verus! {

/// The URL-safe, unpadded base64 text of `id`'s UTF-8 bytes.
pub uninterp spec fn base64_url_safe(id: Seq<char>) -> Seq<char>;

/// A character of the URL-safe base64 alphabet.
pub open spec fn url_safe_char(c: char) -> bool {
    ('A' <= c && c <= 'Z') || ('a' <= c && c <= 'z') || ('0' <= c && c <= '9') || c == '-' || c
        == '_'
}

/// `base64::engine::general_purpose::URL_SAFE_NO_PAD.encode` of the text's
/// bytes. Claimed: the text depends on the input alone and uses only the
/// URL-safe alphabet (`A-Z a-z 0-9 - _`, no padding). The length bound
/// keeps the output size computation from overflowing.
#[verifier::external_body]
fn encode_url_safe(id: &str) -> (r: String)
    requires
        text::byte_len(id@) <= isize::MAX,
    ensures
        r@ == base64_url_safe(id@),
        forall|i: int| 0 <= i < r@.len() ==> url_safe_char(#[trigger] r@[i]),
{
    base64::engine::general_purpose::URL_SAFE_NO_PAD.encode(id)
}

/// The key a draft is stored under: the open thread's id, else
/// `project:<id>` for a new-thread draft.
pub open spec fn draft_key_spec(thread: Option<Seq<char>>, project: Option<Seq<char>>) -> Option<
    Seq<char>,
> {
    match thread {
        Some(t) => Some(t),
        None => match project {
            Some(p) => Some("project:"@ + p),
            None => None,
        },
    }
}

pub fn draft_key(thread: Option<&str>, project: Option<&str>) -> (r: Option<String>)
    ensures
        match r {
            Some(k) => draft_key_spec(
                match thread {
                    Some(t) => Some(t@),
                    None => None,
                },
                match project {
                    Some(p) => Some(p@),
                    None => None,
                },
            ) == Some(k@),
            None => thread is None && project is None,
        },
{
    match thread {
        Some(t) => Some(text::string_from(&text::chars_of(t))),
        None => match project {
            Some(p) => {
                let mut k = String::from_str("project:");
                text::push_str(&mut k, p);
                Some(k)
            },
            None => None,
        },
    }
}

/// The file a draft is written to.
pub open spec fn draft_file_name_spec(id: Seq<char>) -> Seq<char> {
    base64_url_safe(id) + ".json"@
}

/// The draft file name for `id`. It never holds a path separator, so
/// opaque ids with slashes stay inside the drafts directory.
pub fn draft_file_name(id: &str) -> (r: String)
    requires
        text::byte_len(id@) <= isize::MAX,
    ensures
        r@ == draft_file_name_spec(id@),
        forall|i: int| 0 <= i < r@.len() ==> r@[i] != '/' && r@[i] != '\\',
{
    let mut name = encode_url_safe(id);
    let ghost enc = name@;
    text::push_str(&mut name, ".json");
    proof {
        reveal_strlit(".json");
        assert forall|i: int| 0 <= i < name@.len() implies name@[i] != '/' && name@[i] != '\\' by {
            if i < enc.len() {
                assert(url_safe_char(enc[i]));
            }
        }
    }
    name
}

/// The first (provider, model) whose slug is `slug` and, when an instance
/// is named, whose provider is that instance; from provider `pi`, model
/// `mi` on.
pub open spec fn model_info_from(
    ps: Seq<ServerProvider>,
    slug: Seq<char>,
    instance: Option<Seq<char>>,
    pi: int,
    mi: int,
) -> Option<(int, int)>
    decreases ps.len() - pi, if pi < ps.len() {
        ps[pi].models@.len() - mi
    } else {
        0
    },
{
    if pi < 0 || pi >= ps.len() || mi < 0 {
        None
    } else if mi >= ps[pi].models@.len() {
        model_info_from(ps, slug, instance, pi + 1, 0)
    } else if ps[pi].models@[mi].slug@ == slug && match instance {
        Some(id) => id == ps[pi].instance_id@,
        None => true,
    } {
        Some((pi, mi))
    } else {
        model_info_from(ps, slug, instance, pi, mi + 1)
    }
}

pub open spec fn instance_view(m: ModelSelection) -> Option<Seq<char>> {
    match m.instance_id {
        Some(i) => Some(i@),
        None => None,
    }
}

/// A model button's label: the chosen model's name, else its slug, else
/// `fallback`.
pub open spec fn model_label_with(ps: Seq<ServerProvider>, model: Option<ModelSelection>, fallback: Seq<
    char,
>) -> Seq<char> {
    match model {
        Some(m) => match m.model {
            Some(slug) => match model_info_from(ps, slug@, instance_view(m), 0, 0) {
                Some((pi, mi)) => ps[pi].models@[mi].name@,
                None => slug@,
            },
            None => fallback,
        },
        None => fallback,
    }
}

/// The draft landing's model button label: the chosen model's name, else
/// its slug, else an invitation to choose.
pub open spec fn model_label_spec(ps: Seq<ServerProvider>, model: Option<ModelSelection>) -> Seq<char> {
    model_label_with(ps, model, "Choose model"@)
}

/// The open thread's model button label: the chosen model's name, else its
/// slug, else `Model`.
pub fn thread_model_label(providers: &[ServerProvider], model: Option<&ModelSelection>) -> (r: String)
    ensures
        r@ == model_label_with(
            providers@,
            match model {
                Some(m) => Some(*m),
                None => None,
            },
            "Model"@,
        ),
{
    model_label(providers, model, "Model")
}

pub fn draft_model_label(providers: &[ServerProvider], model: Option<&ModelSelection>) -> (r: String)
    ensures
        r@ == model_label_spec(
            providers@,
            match model {
                Some(m) => Some(*m),
                None => None,
            },
        ),
{
    model_label(providers, model, "Choose model")
}

fn model_label(providers: &[ServerProvider], model: Option<&ModelSelection>, fallback: &str) -> (r: String)
    ensures
        r@ == model_label_with(
            providers@,
            match model {
                Some(m) => Some(*m),
                None => None,
            },
            fallback@,
        ),
{
    let Some(m) = model else {
        return text::string_from(&text::chars_of(fallback));
    };
    let Some(slug) = &m.model else {
        return text::string_from(&text::chars_of(fallback));
    };
    let ghost inst = instance_view(*m);
    let mut pi: usize = 0;
    while pi < providers.len()
        invariant
            pi <= providers@.len(),
            model == Some(m),
            m.model == Some(*slug),
            inst == instance_view(*m),
            model_info_from(providers@, slug@, inst, 0, 0) == model_info_from(
                providers@,
                slug@,
                inst,
                pi as int,
                0,
            ),
        decreases providers@.len() - pi,
    {
        let p = &providers[pi];
        let mut mi: usize = 0;
        while mi < p.models.len()
            invariant
                pi < providers@.len(),
                *p == providers@[pi as int],
                mi <= p.models@.len(),
                model == Some(m),
                m.model == Some(*slug),
                inst == instance_view(*m),
                model_info_from(providers@, slug@, inst, 0, 0) == model_info_from(
                    providers@,
                    slug@,
                    inst,
                    pi as int,
                    mi as int,
                ),
            decreases p.models@.len() - mi,
        {
            let instance_ok = match &m.instance_id {
                Some(id) => text::str_eq(id.as_str(), p.instance_id.as_str()),
                None => true,
            };
            if text::str_eq(p.models[mi].slug.as_str(), slug.as_str()) && instance_ok {
                return text::string_from(&text::chars_of(p.models[mi].name.as_str()));
            }
            mi += 1;
        }
        pi += 1;
    }
    text::string_from(&text::chars_of(slug.as_str()))
}

/// The open thread's send button is live: no approval or question is
/// waiting, and there is text, an attachment, a terminal context, a review
/// comment, or an actionable plan to implement.
pub fn thread_send_enabled(
    approval_pending: bool,
    input_pending: bool,
    text: &str,
    attachments: usize,
    terminal_contexts: usize,
    review_comments: usize,
    actionable_plan: bool,
) -> (b: bool)
    ensures
        b == (!approval_pending && !input_pending && (text::trim(text@).len() > 0 || attachments > 0
            || terminal_contexts > 0 || review_comments > 0 || actionable_plan)),
{
    let v = text::chars_of(text);
    let (a, z) = text::trim_range(&v, 0, v.len());
    assert(v@.subrange(0, v@.len() as int) =~= v@);
    !approval_pending && !input_pending && (a < z || attachments > 0 || terminal_contexts > 0
        || review_comments > 0 || actionable_plan)
}

/// The draft landing's send button is live: not already creating, a
/// project chosen, and some text or an attachment.
pub fn draft_send_enabled(creating: bool, has_project: bool, text: &str, attachments: usize) -> (b:
    bool)
    ensures
        b == (!creating && has_project && !(text::trim(text@).len() == 0 && attachments == 0)),
{
    let v = text::chars_of(text);
    let (a, z) = text::trim_range(&v, 0, v.len());
    assert(v@.subrange(0, v@.len() as int) =~= v@);
    let blank = a == z;
    !creating && has_project && !(blank && attachments == 0)
}

} // verus!
