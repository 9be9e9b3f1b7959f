//! Provider instances in the model picker: which are shown, selectable and
//! ready, their labels and tooltips, the default model of a new thread,
//! model favorites, and when a model change is locked.

use vstd::prelude::*;

use crate::text;

verus! {

/// A provider instance's probe status.
#[derive(Clone, Copy, PartialEq, Eq, Debug, Structural)]
pub enum ServerProviderState {
    Ready,
    Warning,
    Error,
    Disabled,
    /// Any other status the server reports (still probing, unknown).
    Unknown,
}

#[derive(Clone, Copy, PartialEq, Eq, Debug, Structural)]
pub enum ServerProviderAvailability {
    Available,
    Unavailable,
}

/// One model a provider offers.
pub struct ServerModel {
    pub slug: String,
    pub name: String,
    pub is_default: bool,
}

/// The version advisory of a provider's CLI.
pub struct VersionAdvisory {
    pub behind_latest: bool,
    pub latest_version: Option<String>,
}

/// A provider slash command.
pub struct SlashCommand {
    pub name: String,
    pub description: Option<String>,
    pub input_hint: Option<String>,
}

/// A provider skill.
pub struct Skill {
    pub name: String,
    pub enabled: bool,
    pub short_description: Option<String>,
    pub description: Option<String>,
}

/// What the picker and composer read of a configured provider instance.
pub struct ServerProvider {
    pub instance_id: String,
    pub driver: String,
    pub display_name: Option<String>,
    pub enabled: bool,
    pub status: ServerProviderState,
    pub availability: Option<ServerProviderAvailability>,
    pub message: Option<String>,
    pub unavailable_reason: Option<String>,
    pub requires_new_thread_for_model_change: bool,
    pub models: Vec<ServerModel>,
    pub version_advisory: Option<VersionAdvisory>,
    pub slash_commands: Vec<SlashCommand>,
    pub skills: Vec<Skill>,
}

/// A model choice: the provider instance and the model slug, when set.
pub struct ModelSelection {
    pub instance_id: Option<String>,
    pub model: Option<String>,
}

pub open spec fn provider_visible(p: ServerProvider) -> bool {
    p.enabled
}

pub open spec fn provider_selectable(p: ServerProvider) -> bool {
    p.enabled && p.availability != Some(ServerProviderAvailability::Unavailable)
}

pub open spec fn provider_ready(p: ServerProvider) -> bool {
    provider_selectable(p) && p.status == ServerProviderState::Ready
}

/// Whether this provider locks the model once a conversation started.
pub fn provider_requires_new_thread(provider: &ServerProvider) -> (b: bool)
    ensures
        b == provider.requires_new_thread_for_model_change,
{
    provider.requires_new_thread_for_model_change
}

/// Every configured, enabled instance stays in the picker rail, even when
/// its CLI is currently unavailable.
pub fn provider_picker_visible(provider: &ServerProvider) -> (b: bool)
    ensures
        b == provider_visible(*provider),
{
    provider.enabled
}

pub fn provider_picker_selectable(provider: &ServerProvider) -> (b: bool)
    ensures
        b == provider_selectable(*provider),
{
    provider.enabled && !matches!(provider.availability, Some(ServerProviderAvailability::Unavailable))
}

/// Only ready and available instances contribute selectable model rows.
pub fn provider_picker_ready(provider: &ServerProvider) -> (b: bool)
    ensures
        b == provider_ready(*provider),
{
    provider_picker_selectable(provider) && provider.status == ServerProviderState::Ready
}

pub open spec fn display_name_spec(p: ServerProvider) -> Seq<char> {
    match p.display_name {
        Some(n) => n@,
        None => p.instance_id@,
    }
}

fn copy_string(s: &String) -> (r: String)
    ensures
        r@ == s@,
{
    text::string_from(&text::chars_of(s.as_str()))
}

/// The provider's display name, else its instance id.
pub fn provider_display_name(provider: &ServerProvider) -> (r: String)
    ensures
        r@ == display_name_spec(*provider),
{
    match &provider.display_name {
        Some(n) => copy_string(n),
        None => copy_string(&provider.instance_id),
    }
}

pub open spec fn em_dash_sep() -> Seq<char> {
    seq![' ', '\u{2014}', ' ']
}

/// The rail tooltip: the name alone when ready; otherwise why not.
pub open spec fn tooltip_spec(p: ServerProvider) -> Seq<char> {
    let label = display_name_spec(p);
    if provider_ready(p) {
        label
    } else if !p.enabled || p.status == ServerProviderState::Disabled {
        label + em_dash_sep() + "Disabled in settings."@
    } else {
        let kind = if p.status == ServerProviderState::Error {
            "Unavailable"@
        } else if p.status == ServerProviderState::Warning {
            "Limited"@
        } else {
            "Not ready"@
        };
        let message = match p.message {
            Some(m) => Some(m@),
            None => match p.unavailable_reason {
                Some(r) => Some(r@),
                None => None,
            },
        };
        match message {
            Some(m) => label + em_dash_sep() + kind + ". "@ + m,
            None => label + em_dash_sep() + kind + "."@,
        }
    }
}

pub fn provider_picker_tooltip(provider: &ServerProvider) -> (r: String)
    ensures
        r@ == tooltip_spec(*provider),
{
    let label = provider_display_name(provider);
    if provider_picker_ready(provider) {
        return label;
    }
    let mut v = text::chars_of(label.as_str());
    v.push(' ');
    v.push('\u{2014}');
    v.push(' ');
    if !provider.enabled || provider.status == ServerProviderState::Disabled {
        text::push_literal(&mut v, "Disabled in settings.");
        return text::string_from(&v);
    }
    if provider.status == ServerProviderState::Error {
        text::push_literal(&mut v, "Unavailable");
    } else if provider.status == ServerProviderState::Warning {
        text::push_literal(&mut v, "Limited");
    } else {
        text::push_literal(&mut v, "Not ready");
    }
    let message = match &provider.message {
        Some(m) => Some(m),
        None => match &provider.unavailable_reason {
            Some(r) => Some(r),
            None => None,
        },
    };
    match message {
        Some(m) => {
            text::push_literal(&mut v, ". ");
            text::push_literal(&mut v, m.as_str());
        },
        None => {
            text::push_literal(&mut v, ".");
        },
    }
    text::string_from(&v)
}

/// The favorites key of a model: instance id and slug, NUL-separated.
pub open spec fn favorite_key(instance: Seq<char>, model: Seq<char>) -> Seq<char> {
    instance + seq!['\0'] + model
}

pub fn model_favorite_key(instance_id: &str, model: &str) -> (r: String)
    ensures
        r@ == favorite_key(instance_id@, model@),
{
    let mut v = text::chars_of(instance_id);
    v.push('\0');
    text::push_literal(&mut v, model);
    text::string_from(&v)
}

/// A selection's instance id and model slug, when both are set.
pub fn model_selection_identity(selection: &ModelSelection) -> (r: Option<(String, String)>)
    ensures
        match r {
            Some((i, m)) => selection.instance_id matches Some(si) && selection.model matches Some(
                sm,
            ) && i@ == si@ && m@ == sm@,
            None => selection.instance_id is None || selection.model is None,
        },
{
    match (&selection.instance_id, &selection.model) {
        (Some(i), Some(m)) => Some((copy_string(i), copy_string(m))),
        _ => None,
    }
}

/// Index of the first provider in `ps[from..]` satisfying the picker's
/// readiness rule.
pub open spec fn first_ready_from(ps: Seq<ServerProvider>, from: int) -> Option<int>
    decreases ps.len() - from,
{
    if from < 0 || from >= ps.len() {
        None
    } else if provider_ready(ps[from]) {
        Some(from)
    } else {
        first_ready_from(ps, from + 1)
    }
}

/// Index of the first selectable, non-erroring provider from `from` on.
pub open spec fn first_fallback_from(ps: Seq<ServerProvider>, from: int) -> Option<int>
    decreases ps.len() - from,
{
    if from < 0 || from >= ps.len() {
        None
    } else if provider_selectable(ps[from]) && ps[from].status != ServerProviderState::Error {
        Some(from)
    } else {
        first_fallback_from(ps, from + 1)
    }
}

pub fn first_ready(providers: &[ServerProvider]) -> (r: Option<usize>)
    ensures
        match r {
            Some(i) => first_ready_from(providers@, 0) == Some(i as int) && i < providers@.len(),
            None => first_ready_from(providers@, 0) is None,
        },
{
    let mut i: usize = 0;
    while i < providers.len()
        invariant
            i <= providers@.len(),
            first_ready_from(providers@, 0) == first_ready_from(providers@, i as int),
        decreases providers@.len() - i,
    {
        if provider_picker_ready(&providers[i]) {
            return Some(i);
        }
        i += 1;
    }
    None
}

fn first_fallback(providers: &[ServerProvider]) -> (r: Option<usize>)
    ensures
        match r {
            Some(i) => first_fallback_from(providers@, 0) == Some(i as int) && i
                < providers@.len(),
            None => first_fallback_from(providers@, 0) is None,
        },
{
    let mut i: usize = 0;
    while i < providers.len()
        invariant
            i <= providers@.len(),
            first_fallback_from(providers@, 0) == first_fallback_from(providers@, i as int),
        decreases providers@.len() - i,
    {
        if provider_picker_selectable(&providers[i]) && providers[i].status
            != ServerProviderState::Error {
            return Some(i);
        }
        i += 1;
    }
    None
}

/// Index of the first default model from `from` on.
pub open spec fn first_default_model_from(ms: Seq<ServerModel>, from: int) -> Option<int>
    decreases ms.len() - from,
{
    if from < 0 || from >= ms.len() {
        None
    } else if ms[from].is_default {
        Some(from)
    } else {
        first_default_model_from(ms, from + 1)
    }
}

pub open spec fn has_model(p: ServerProvider, slug: Seq<char>) -> bool {
    exists|j: int| 0 <= j < p.models@.len() && p.models@[j].slug@ == slug
}

/// The settings' default selection is usable: some selectable provider has
/// its instance id and offers its model.
pub open spec fn settings_default_usable(ps: Seq<ServerProvider>, s: ModelSelection) -> bool {
    match (s.instance_id, s.model) {
        (Some(i), Some(m)) => exists|k: int|
            0 <= k < ps.len() && provider_selectable(ps[k]) && ps[k].instance_id@ == i@
                && has_model(ps[k], m@),
        _ => false,
    }
}

/// The model a new thread starts with: the settings' default when a
/// selectable provider offers it; else the first ready provider's (or
/// else the first selectable, non-erroring provider's) default model, or
/// its first model.
pub open spec fn default_selection_spec(
    ps: Seq<ServerProvider>,
    settings_default: Option<ModelSelection>,
) -> Option<(Seq<char>, Seq<char>)> {
    match settings_default {
        Some(s) if settings_default_usable(ps, s) => Some(
            (s.instance_id->0@, s.model->0@),
        ),
        _ => {
            let pi = match first_ready_from(ps, 0) {
                Some(i) => Some(i),
                None => first_fallback_from(ps, 0),
            };
            match pi {
                None => None,
                Some(i) => {
                    let ms = ps[i].models@;
                    let mi = match first_default_model_from(ms, 0) {
                        Some(j) => Some(j),
                        None => if ms.len() > 0 {
                            Some(0int)
                        } else {
                            None
                        },
                    };
                    match mi {
                        None => None,
                        Some(j) => Some((ps[i].instance_id@, ms[j].slug@)),
                    }
                },
            }
        },
    }
}

fn offers_model(p: &ServerProvider, slug: &String) -> (b: bool)
    ensures
        b == has_model(*p, slug@),
{
    let mut j: usize = 0;
    while j < p.models.len()
        invariant
            j <= p.models@.len(),
            forall|k: int| 0 <= k < j ==> p.models@[k].slug@ != slug@,
        decreases p.models@.len() - j,
    {
        if text::str_eq(p.models[j].slug.as_str(), slug.as_str()) {
            return true;
        }
        j += 1;
    }
    false
}

#[verifier::loop_isolation(false)]
fn settings_default_ok(providers: &[ServerProvider], s: &ModelSelection) -> (b: bool)
    ensures
        b == settings_default_usable(providers@, *s),
{
    match (&s.instance_id, &s.model) {
        (Some(i), Some(m)) => {
            let mut k: usize = 0;
            while k < providers.len()
                invariant
                    k <= providers@.len(),
                    forall|q: int|
                        0 <= q < k ==> !(provider_selectable(providers@[q])
                            && providers@[q].instance_id@ == i@ && has_model(providers@[q], m@)),
                decreases providers@.len() - k,
            {
                let p = &providers[k];
                if provider_picker_selectable(p) && text::str_eq(p.instance_id.as_str(), i.as_str())
                    && offers_model(p, m) {
                    assert(provider_selectable(providers@[k as int]) && providers@[k as int].instance_id@
                        == i@ && has_model(providers@[k as int], m@));
                    return true;
                }
                k += 1;
            }
            false
        },
        _ => false,
    }
}

/// The model a new thread starts with, as (instance id, slug).
#[verifier::loop_isolation(false)]
pub fn default_model_selection(
    providers: &[ServerProvider],
    settings_default: Option<&ModelSelection>,
) -> (r: Option<(String, String)>)
    ensures
        match r {
            Some((i, m)) => default_selection_spec(
                providers@,
                match settings_default {
                    Some(s) => Some(*s),
                    None => None,
                },
            ) == Some((i@, m@)),
            None => default_selection_spec(
                providers@,
                match settings_default {
                    Some(s) => Some(*s),
                    None => None,
                },
            ) is None,
        },
{
    if let Some(s) = settings_default {
        if settings_default_ok(providers, s) {
            match (&s.instance_id, &s.model) {
                (Some(i), Some(m)) => return Some((copy_string(i), copy_string(m))),
                _ => {},
            }
        }
    }
    let pi = match first_ready(providers) {
        Some(i) => i,
        None => match first_fallback(providers) {
            Some(i) => i,
            None => return None,
        },
    };
    let p = &providers[pi];
    let mut j: usize = 0;
    while j < p.models.len()
        invariant
            j <= p.models@.len(),
            first_default_model_from(p.models@, 0) == first_default_model_from(p.models@, j as int),
        decreases p.models@.len() - j,
    {
        if p.models[j].is_default {
            return Some((copy_string(&p.instance_id), copy_string(&p.models[j].slug)));
        }
        j += 1;
    }
    if p.models.len() > 0 {
        Some((copy_string(&p.instance_id), copy_string(&p.models[0].slug)))
    } else {
        None
    }
}

/// Some provider with instance id `id` locks models after the first turn.
pub open spec fn instance_requires_new_thread(ps: Seq<ServerProvider>, id: Seq<char>) -> bool {
    exists|k: int|
        0 <= k < ps.len() && ps[k].instance_id@ == id && ps[k].requires_new_thread_for_model_change
}

fn instance_requires(providers: &[ServerProvider], id: &String) -> (b: bool)
    ensures
        b == instance_requires_new_thread(providers@, id@),
{
    let mut k: usize = 0;
    while k < providers.len()
        invariant
            k <= providers@.len(),
            forall|q: int|
                0 <= q < k ==> !(providers@[q].instance_id@ == id@
                    && providers@[q].requires_new_thread_for_model_change),
        decreases providers@.len() - k,
    {
        if text::str_eq(providers[k].instance_id.as_str(), id.as_str())
            && providers[k].requires_new_thread_for_model_change {
            return true;
        }
        k += 1;
    }
    false
}

pub open spec fn identity_spec(s: ModelSelection) -> Option<(Seq<char>, Seq<char>)> {
    match (s.instance_id, s.model) {
        (Some(i), Some(m)) => Some((i@, m@)),
        _ => None,
    }
}

/// A model change on a started thread is refused when the identity changes
/// and either the current or the next provider locks models.
pub open spec fn model_change_blocked_spec(
    ps: Seq<ServerProvider>,
    started: bool,
    current: Option<ModelSelection>,
    next: ModelSelection,
) -> bool {
    started && match current {
        None => false,
        Some(c) => identity_spec(c) != identity_spec(next) && ((identity_spec(c) matches Some(
            (i, _),
        ) && instance_requires_new_thread(ps, i)) || (identity_spec(next) matches Some((i, _))
            && instance_requires_new_thread(ps, i))),
    }
}

fn opt_eq(a: &Option<String>, b: &Option<String>) -> (r: bool)
    ensures
        r == match (*a, *b) {
            (Some(x), Some(y)) => x@ == y@,
            (None, None) => true,
            _ => false,
        },
{
    match (a, b) {
        (Some(x), Some(y)) => text::str_eq(x.as_str(), y.as_str()),
        (None, None) => true,
        _ => false,
    }
}

pub fn model_change_blocked(
    providers: &[ServerProvider],
    started: bool,
    current: Option<&ModelSelection>,
    next: &ModelSelection,
) -> (b: bool)
    ensures
        b == model_change_blocked_spec(
            providers@,
            started,
            match current {
                Some(c) => Some(*c),
                None => None,
            },
            *next,
        ),
{
    if !started {
        return false;
    }
    let c = match current {
        Some(c) => c,
        None => return false,
    };
    let c_both = c.instance_id.is_some() && c.model.is_some();
    let n_both = next.instance_id.is_some() && next.model.is_some();
    let same = if c_both && n_both {
        opt_eq(&c.instance_id, &next.instance_id) && opt_eq(&c.model, &next.model)
    } else {
        !c_both && !n_both
    };
    proof {
        if c_both && n_both {
            assert(same == (identity_spec(*c) == identity_spec(*next)));
        }
    }
    if same {
        return false;
    }
    let current_requires = match (&c.instance_id, &c.model) {
        (Some(i), Some(_)) => instance_requires(providers, i),
        _ => false,
    };
    let next_requires = match (&next.instance_id, &next.model) {
        (Some(i), Some(_)) => instance_requires(providers, i),
        _ => false,
    };
    current_requires || next_requires
}

/// A model row is locked on a started thread unless it is the current
/// model, when the current or the row's provider locks models.
pub fn model_row_locked(
    thread_started: bool,
    is_current: bool,
    current_provider_requires: bool,
    row_provider_requires: bool,
) -> (b: bool)
    ensures
        b == (thread_started && !is_current && (current_provider_requires
            || row_provider_requires)),
{
    thread_started && !is_current && (current_provider_requires || row_provider_requires)
}

} // verus!
