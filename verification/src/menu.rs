//! The composer's suggestion popovers: the `/` and `$` menu items for a
//! query, moving the highlighted row, the text a picked suggestion
//! inserts, splicing it over the typed token, and the `@` mention search
//! state with its out-of-order guard.

use vstd::prelude::*;

use crate::composer;
use crate::interaction::ProviderInteractionMode;
use crate::order;
use crate::picker;
use crate::providers::{ServerProvider, Skill, SlashCommand};
use crate::shell::{self, ProjectShell, ThreadShell};
use crate::text;
use crate::time;

verus! {

/// One row of the composer's command menu.
pub enum ComposerMenuItem {
    Model,
    InteractionMode(ProviderInteractionMode),
    ProviderCommand { name: String, description: String },
    Thread { id: String, title: String, detail: String },
    Skill { name: String, description: String },
}

/// A menu item with its text as character sequences.
pub enum MenuItemView {
    Model,
    InteractionMode(ProviderInteractionMode),
    ProviderCommand { name: Seq<char>, description: Seq<char> },
    Thread { id: Seq<char>, title: Seq<char>, detail: Seq<char> },
    Skill { name: Seq<char>, description: Seq<char> },
}

pub open spec fn item_view(i: ComposerMenuItem) -> MenuItemView {
    match i {
        ComposerMenuItem::Model => MenuItemView::Model,
        ComposerMenuItem::InteractionMode(m) => MenuItemView::InteractionMode(m),
        ComposerMenuItem::ProviderCommand { name, description } => MenuItemView::ProviderCommand {
            name: name@,
            description: description@,
        },
        ComposerMenuItem::Thread { id, title, detail } => MenuItemView::Thread {
            id: id@,
            title: title@,
            detail: detail@,
        },
        ComposerMenuItem::Skill { name, description } => MenuItemView::Skill {
            name: name@,
            description: description@,
        },
    }
}

pub open spec fn items_view(v: Seq<ComposerMenuItem>) -> Seq<MenuItemView> {
    v.map_values(|i: ComposerMenuItem| item_view(i))
}

/// The menu query: the typed text, trimmed and lower-cased (ASCII).
pub open spec fn menu_query(query: Seq<char>) -> Seq<char> {
    text::lower(text::trim(query))
}

/// `q` is empty or occurs in `s` lower-cased.
pub open spec fn query_hits(s: Seq<char>, q: Seq<char>) -> bool {
    q.len() == 0 || picker::contains_sub(text::lower(s), q)
}

/// The built-in slash entries that match `q`, in order: model, plan,
/// default.
pub open spec fn builtin_items(q: Seq<char>) -> Seq<MenuItemView> {
    (if query_hits("model"@, q) {
        seq![MenuItemView::Model]
    } else {
        seq![]
    }) + (if query_hits("plan"@, q) {
        seq![MenuItemView::InteractionMode(ProviderInteractionMode::Plan)]
    } else {
        seq![]
    }) + (if query_hits("default"@, q) {
        seq![MenuItemView::InteractionMode(ProviderInteractionMode::Default)]
    } else {
        seq![]
    })
}

/// A provider command's menu description: its own, else its input hint,
/// else a generic one.
pub open spec fn command_description(c: SlashCommand) -> Seq<char> {
    match c.description {
        Some(d) => d@,
        None => match c.input_hint {
            Some(h) => h@,
            None => "Run provider command"@,
        },
    }
}

/// The provider commands among `cs[..n]` that match `q`.
pub open spec fn command_items(cs: Seq<SlashCommand>, q: Seq<char>, n: int) -> Seq<MenuItemView>
    decreases n,
{
    if n <= 0 || n > cs.len() {
        seq![]
    } else {
        let c = cs[n - 1];
        let d = command_description(c);
        command_items(cs, q, n - 1) + if q.len() == 0 || picker::contains_sub(text::lower(c.name@), q)
            || picker::contains_sub(text::lower(d), q) {
            seq![MenuItemView::ProviderCommand { name: c.name@, description: d }]
        } else {
            seq![]
        }
    }
}

/// A skill's menu description: the short one, else the long one, else a
/// generic one.
pub open spec fn skill_description(s: Skill) -> Seq<char> {
    match s.short_description {
        Some(d) => d@,
        None => match s.description {
            Some(d) => d@,
            None => "Run provider skill"@,
        },
    }
}

/// The enabled skills among `ss[..n]` that match `q`.
pub open spec fn skill_items(ss: Seq<Skill>, q: Seq<char>, n: int) -> Seq<MenuItemView>
    decreases n,
{
    if n <= 0 || n > ss.len() {
        seq![]
    } else {
        let s = ss[n - 1];
        let d = skill_description(s);
        skill_items(ss, q, n - 1) + if s.enabled && (q.len() == 0 || picker::contains_sub(
            text::lower(s.name@),
            q,
        ) || picker::contains_sub(text::lower(d), q)) {
            seq![MenuItemView::Skill { name: s.name@, description: d }]
        } else {
            seq![]
        }
    }
}

fn copy_string(s: &String) -> (r: String)
    ensures
        r@ == s@,
{
    text::string_from(&text::chars_of(s.as_str()))
}

fn lower_chars(s: &str) -> (r: Vec<char>)
    ensures
        r@ == text::lower(s@),
{
    let v = text::chars_of(s);
    let mut out: Vec<char> = Vec::new();
    let mut i: usize = 0;
    while i < v.len()
        invariant
            i <= v@.len(),
            out@ == text::lower(v@.take(i as int)),
        decreases v@.len() - i,
    {
        out.push(text::lower_char_exec(v[i]));
        assert(text::lower(v@.take(i + 1)) =~= text::lower(v@.take(i as int)).push(
            text::lower_char(v@[i as int]),
        ));
        i += 1;
    }
    assert(v@.take(v@.len() as int) =~= v@);
    out
}

/// The query as the menus match it.
pub fn normalized_query(query: &str) -> (q: Vec<char>)
    ensures
        q@ == menu_query(query@),
{
    let v = text::chars_of(query);
    let (a, b) = text::trim_range(&v, 0, v.len());
    assert(v@.subrange(0, v@.len() as int) =~= v@);
    let trimmed = text::string_of(&v, a, b);
    lower_chars(trimmed.as_str())
}

fn hits(s: &str, q: &Vec<char>) -> (b: bool)
    ensures
        b == query_hits(s@, q@),
{
    q.len() == 0 || picker::contains_sub_exec(&lower_chars(s), q)
}

proof fn lemma_items_push(v: Seq<ComposerMenuItem>, i: ComposerMenuItem)
    ensures
        items_view(v.push(i)) == items_view(v).push(item_view(i)),
{
    assert(items_view(v.push(i)) =~= items_view(v).push(item_view(i)));
}

/// The `/` menu for `query`: the matching built-ins, then the matching
/// commands of `provider`.
pub fn slash_menu_items(query: &str, provider: Option<&ServerProvider>) -> (items: Vec<
    ComposerMenuItem,
>)
    ensures
        items_view(items@) == builtin_items(menu_query(query@)) + match provider {
            Some(p) => command_items(
                p.slash_commands@,
                menu_query(query@),
                p.slash_commands@.len() as int,
            ),
            None => seq![],
        },
{
    let q = normalized_query(query);
    let mut items: Vec<ComposerMenuItem> = Vec::new();
    proof {
        reveal_strlit("model");
        reveal_strlit("plan");
        reveal_strlit("default");
    }
    assert(items_view(items@) =~= Seq::<MenuItemView>::empty());
    if hits("model", &q) {
        proof {
            lemma_items_push(items@, ComposerMenuItem::Model);
        }
        items.push(ComposerMenuItem::Model);
    }
    if hits("plan", &q) {
        proof {
            lemma_items_push(items@, ComposerMenuItem::InteractionMode(ProviderInteractionMode::Plan));
        }
        items.push(ComposerMenuItem::InteractionMode(ProviderInteractionMode::Plan));
    }
    if hits("default", &q) {
        proof {
            lemma_items_push(
                items@,
                ComposerMenuItem::InteractionMode(ProviderInteractionMode::Default),
            );
        }
        items.push(ComposerMenuItem::InteractionMode(ProviderInteractionMode::Default));
    }
    assert(items_view(items@) =~= builtin_items(q@));
    if let Some(p) = provider {
        let ghost base = items_view(items@);
        let mut i: usize = 0;
        while i < p.slash_commands.len()
            invariant
                i <= p.slash_commands@.len(),
                items_view(items@) == base + command_items(p.slash_commands@, q@, i as int),
            decreases p.slash_commands@.len() - i,
        {
            let c = &p.slash_commands[i];
            let description = match &c.description {
                Some(d) => copy_string(d),
                None => match &c.input_hint {
                    Some(h) => copy_string(h),
                    None => String::from_str("Run provider command"),
                },
            };
            let listed = q.len() == 0 || picker::contains_sub_exec(&lower_chars(c.name.as_str()), &q)
                || picker::contains_sub_exec(&lower_chars(description.as_str()), &q);
            if listed {
                let item = ComposerMenuItem::ProviderCommand {
                    name: copy_string(&c.name),
                    description,
                };
                proof {
                    lemma_items_push(items@, item);
                }
                items.push(item);
            }
            assert(items_view(items@) =~= base + command_items(p.slash_commands@, q@, i + 1));
            i += 1;
        }
    }
    items
}

/// The `$` menu for `query`: the enabled, matching skills of `provider`.
pub fn skill_menu_items(query: &str, provider: Option<&ServerProvider>) -> (items: Vec<
    ComposerMenuItem,
>)
    ensures
        items_view(items@) == match provider {
            Some(p) => skill_items(p.skills@, menu_query(query@), p.skills@.len() as int),
            None => seq![],
        },
{
    let q = normalized_query(query);
    let mut items: Vec<ComposerMenuItem> = Vec::new();
    assert(items_view(items@) =~= Seq::<MenuItemView>::empty());
    if let Some(p) = provider {
        let mut i: usize = 0;
        while i < p.skills.len()
            invariant
                i <= p.skills@.len(),
                items_view(items@) == skill_items(p.skills@, q@, i as int),
            decreases p.skills@.len() - i,
        {
            let s = &p.skills[i];
            if s.enabled {
                let description = match &s.short_description {
                    Some(d) => copy_string(d),
                    None => match &s.description {
                        Some(d) => copy_string(d),
                        None => String::from_str("Run provider skill"),
                    },
                };
                let listed = q.len() == 0 || picker::contains_sub_exec(
                    &lower_chars(s.name.as_str()),
                    &q,
                ) || picker::contains_sub_exec(&lower_chars(description.as_str()), &q);
                if listed {
                    let item = ComposerMenuItem::Skill { name: copy_string(&s.name), description };
                    proof {
                        lemma_items_push(items@, item);
                    }
                    items.push(item);
                }
            }
            assert(items_view(items@) =~= skill_items(p.skills@, q@, i + 1));
            i += 1;
        }
    }
    items
}

/// The highlighted row after the menu's items change: the previous row,
/// clamped to the new list; the first row for a new menu.
pub fn clamped_selection(previous: Option<usize>, count: usize) -> (r: usize)
    ensures
        r == match previous {
            Some(s) => if count == 0 {
                0
            } else if s < count {
                s
            } else {
                (count - 1) as usize
            },
            None => 0,
        },
{
    match previous {
        Some(s) => {
            let last = if count == 0 {
                0
            } else {
                count - 1
            };
            if s < last {
                s
            } else {
                last
            }
        },
        None => 0,
    }
}

/// The row `delta` steps from `current` in a list of `len` rows, wrapping
/// around.
pub open spec fn cycled(current: int, len: int, delta: int) -> int {
    (current + delta) % len
}

/// The row `delta` steps from `current`, wrapping around a list of `len`
/// rows (the Euclidean remainder); `0` for an empty list.
pub fn cycle_index(current: usize, len: usize, delta: isize) -> (r: usize)
    requires
        current <= isize::MAX,
        len <= isize::MAX,
        isize::MIN <= current + delta <= isize::MAX,
    ensures
        len == 0 ==> r == 0,
        len > 0 ==> r == cycled(current as int, len as int, delta as int) && r < len,
{
    if len == 0 {
        return 0;
    }
    let x: i128 = current as i128 + delta as i128;
    let l: i128 = len as i128;
    if x >= 0 {
        let r = x % l;
        assert(r == (current + delta) % (len as int));
        r as usize
    } else {
        let m = (-x) % l;
        proof {
            let y = -(x as int);
            let d = l as int;
            let q = y / d;
            vstd::arithmetic::div_mod::lemma_fundamental_div_mod(y, d);
            assert(m == y % d);
            if m == 0 {
                assert(x as int == (-q) * d + 0) by (nonlinear_arith)
                    requires
                        y == d * q + 0,
                        y == -(x as int),
                ;
                vstd::arithmetic::div_mod::lemma_fundamental_div_mod_converse(
                    x as int,
                    d,
                    -q,
                    0,
                );
            } else {
                assert(x as int == (-q - 1) * d + (d - m)) by (nonlinear_arith)
                    requires
                        y == d * q + m,
                        y == -(x as int),
                ;
                vstd::arithmetic::div_mod::lemma_fundamental_div_mod_converse(
                    x as int,
                    d,
                    -q - 1,
                    d - m,
                );
            }
        }
        if m == 0 {
            0
        } else {
            (l - m) as usize
        }
    }
}

/// Moving the highlight `delta` rows and then `delta` rows back returns
/// to the same row.
pub proof fn law_cycle_round_trip(current: int, len: int, delta: int)
    requires
        0 <= current < len,
    ensures
        cycled(cycled(current, len, delta), len, -delta) == current,
{
    assert((((current + delta) % len) - delta) % len == current) by (nonlinear_arith)
        requires
            0 <= current < len,
    ;
}

/// What applying a menu item does besides replacing the typed token.
pub enum SuggestionEffect {
    OpenModelPicker,
    SetInteractionMode(ProviderInteractionMode),
    Nothing,
}

/// `s` with every `]` escaped as `\]`.
pub open spec fn escape_brackets(s: Seq<char>) -> Seq<char>
    decreases s.len(),
{
    if s.len() == 0 {
        seq![]
    } else {
        escape_brackets(s.drop_last()) + if s.last() == ']' {
            seq!['\\', ']']
        } else {
            seq![s.last()]
        }
    }
}

/// The text that replaces the typed token when `item` is picked.
pub open spec fn replacement_text(item: MenuItemView) -> Seq<char> {
    match item {
        MenuItemView::Model => seq![],
        MenuItemView::InteractionMode(_) => seq![],
        MenuItemView::ProviderCommand { name, .. } => "/"@ + name + " "@,
        MenuItemView::Thread { id, title, .. } => "[#"@ + escape_brackets(title)
            + "](t3code://thread/"@ + id + ") "@,
        MenuItemView::Skill { name, .. } => "$"@ + name + " "@,
    }
}

pub open spec fn effect_of(item: MenuItemView) -> SuggestionEffect {
    match item {
        MenuItemView::Model => SuggestionEffect::OpenModelPicker,
        MenuItemView::InteractionMode(m) => SuggestionEffect::SetInteractionMode(m),
        _ => SuggestionEffect::Nothing,
    }
}

/// The replacement text and follow-up effect of a picked menu item.
pub fn suggestion_replacement(item: &ComposerMenuItem) -> (r: (String, SuggestionEffect))
    ensures
        r.0@ == replacement_text(item_view(*item)),
        r.1 == effect_of(item_view(*item)),
{
    match item {
        ComposerMenuItem::Model => (String::new(), SuggestionEffect::OpenModelPicker),
        ComposerMenuItem::InteractionMode(m) => (
            String::new(),
            SuggestionEffect::SetInteractionMode(*m),
        ),
        ComposerMenuItem::ProviderCommand { name, .. } => {
            let mut s = String::from_str("/");
            text::push_str(&mut s, name.as_str());
            text::push_str(&mut s, " ");
            (s, SuggestionEffect::Nothing)
        },
        ComposerMenuItem::Thread { id, title, .. } => {
            let t = text::chars_of(title.as_str());
            let mut s = String::from_str("[#");
            let ghost head = s@;
            let mut i: usize = 0;
            while i < t.len()
                invariant
                    i <= t@.len(),
                    s@ == head + escape_brackets(t@.take(i as int)),
                decreases t@.len() - i,
            {
                assert(t@.take(i + 1).drop_last() =~= t@.take(i as int));
                if t[i] == ']' {
                    text::push_str(&mut s, "\\]");
                    proof {
                        reveal_strlit("\\]");
                    }
                } else {
                    let ghost before = s@;
                    text::push_str(&mut s, "");
                    proof {
                        reveal_strlit("");
                    }
                    string_push_char(&mut s, t[i]);
                    assert(s@ =~= before + seq![t@[i as int]]);
                }
                assert(s@ =~= head + escape_brackets(t@.take(i + 1)));
                i += 1;
            }
            assert(t@.take(t@.len() as int) =~= t@);
            text::push_str(&mut s, "](t3code://thread/");
            text::push_str(&mut s, id.as_str());
            text::push_str(&mut s, ") ");
            (s, SuggestionEffect::Nothing)
        },
        ComposerMenuItem::Skill { name, .. } => {
            let mut s = String::from_str("$");
            text::push_str(&mut s, name.as_str());
            text::push_str(&mut s, " ");
            (s, SuggestionEffect::Nothing)
        },
    }
}

fn string_push_char(s: &mut String, c: char)
    ensures
        final(s)@ == old(s)@.push(c),
{
    let mut one: Vec<char> = Vec::new();
    one.push(c);
    let t = text::string_from(&one);
    text::push_str(s, t.as_str());
    assert(one@ =~= seq![c]);
}

/// `value` with bytes `start..end` replaced by `replacement`, and the
/// caret (a byte offset) after the insert; `None` when the range is not
/// inside the text.
pub open spec fn splice_spec(value: Seq<char>, start: int, end: int, replacement: Seq<char>) -> Option<
    (Seq<char>, int),
> {
    if start > end || end > text::byte_len(value) {
        None
    } else {
        let ks = choose|k: int| composer::is_char_prefix(value, start, k);
        let ke = choose|k: int| composer::is_char_prefix(value, end, k);
        Some((value.take(ks) + replacement + value.skip(ke), start + text::byte_len(replacement)))
    }
}

/// Both ends of a range inside the text fall on character boundaries.
pub open spec fn splice_boundaries(value: Seq<char>, start: int, end: int) -> bool {
    start <= end <= text::byte_len(value) ==> (exists|k: int|
        composer::is_char_prefix(value, start, k)) && (exists|k: int|
        composer::is_char_prefix(value, end, k))
}

/// Replace the typed token `start..end` (byte offsets) with `replacement`.
pub fn splice_token(value: &str, start: usize, end: usize, replacement: &str) -> (r: Option<
    (String, usize),
>)
    requires
        splice_boundaries(value@, start as int, end as int),
        start + text::byte_len(replacement@) <= usize::MAX,
    ensures
        match r {
            Some((t, caret)) => splice_spec(value@, start as int, end as int, replacement@) == Some(
                (t@, caret as int),
            ),
            None => splice_spec(value@, start as int, end as int, replacement@) is None,
        },
{
    let v = text::chars_of(value);
    let ks = composer::prefix_char_count(&v, start);
    let ke = composer::prefix_char_count(&v, end);
    if start > end {
        return None;
    }
    let (ks, ke) = match (ks, ke) {
        (Some(a), Some(b)) => (a, b),
        _ => {
            proof {
                if end <= text::byte_len(value@) {
                    assert(false);
                }
            }
            return None;
        },
    };
    proof {
        let cs = choose|k: int| composer::is_char_prefix(v@, start as int, k);
        let ce = choose|k: int| composer::is_char_prefix(v@, end as int, k);
        composer::lemma_char_prefix_unique(v@, start as int, ks as int, cs);
        composer::lemma_char_prefix_unique(v@, end as int, ke as int, ce);
        text::lemma_byte_len_take_mono(v@, ke as int, v@.len() as int);
        assert(v@.take(v@.len() as int) =~= v@);
        if ke < ks {
            text::lemma_byte_len_take_mono(v@, ke as int, ks as int);
        }
    }
    if ke < ks {
        return None;
    }
    let r = text::chars_of(replacement);
    let mut out: Vec<char> = Vec::new();
    let mut i: usize = 0;
    while i < ks
        invariant
            ks <= v@.len(),
            i <= ks,
            out@ =~= v@.take(i as int),
        decreases ks - i,
    {
        out.push(v[i]);
        i += 1;
    }
    let mut j: usize = 0;
    while j < r.len()
        invariant
            ks <= v@.len(),
            j <= r@.len(),
            out@ =~= v@.take(ks as int) + r@.take(j as int),
        decreases r@.len() - j,
    {
        out.push(r[j]);
        j += 1;
    }
    assert(r@.take(r@.len() as int) =~= r@);
    let mut k: usize = ke;
    while k < v.len()
        invariant
            ke <= k <= v@.len(),
            out@ =~= v@.take(ks as int) + r@ + v@.subrange(ke as int, k as int),
        decreases v@.len() - k,
    {
        out.push(v[k]);
        k += 1;
    }
    assert(v@.subrange(ke as int, v@.len() as int) =~= v@.skip(ke as int));
    assert(r@.take(r@.len() as int) =~= r@);
    let width = text::byte_len_prefix(&r, r.len());
    (Some((text::string_from(&out), start + width)))
}

/// One workspace entry offered for an `@` mention.
pub struct MentionEntry {
    pub path: String,
    pub is_directory: bool,
}

/// The open `@` mention popover.
pub struct MentionState {
    pub token_start: usize,
    pub query: String,
    pub generation: u64,
    pub results: Vec<MentionEntry>,
    pub selected: usize,
    pub loading: bool,
}

/// Follow the composer's `@` token (`token`: its start and query). No token
/// closes the popover; the same token keeps it; a new token bumps the
/// generation, keeps the old results while a non-empty query searches,
/// and highlights the first row. Returns whether a search must be issued.
pub fn sync_mention(
    mention: &mut Option<MentionState>,
    generation: &mut u64,
    token: Option<(usize, String)>,
) -> (search: bool)
    requires
        *old(generation) < u64::MAX,
    ensures
        match token {
            None => *final(mention) is None && *final(generation) == *old(generation) && !search,
            Some((start, query)) => if (*old(mention) matches Some(m) && m.token_start == start
                && m.query@ == query@) {
                *final(mention) == *old(mention) && *final(generation) == *old(generation)
                    && !search
            } else {
                &&& *final(generation) == *old(generation) + 1
                &&& search == (query@.len() > 0)
                &&& *final(mention) matches Some(m) && m.token_start == start && m.query@
                    == query@ && m.generation == *final(generation) && m.selected == 0 && m.loading
                    == (query@.len() > 0) && (query@.len() == 0 ==> m.results@.len() == 0)
                    && (query@.len() > 0 ==> (match *old(mention) {
                    Some(o) => m.results == o.results,
                    None => m.results@.len() == 0,
                }))
            },
        },
{
    let Some((start, query)) = token else {
        *mention = None;
        return false;
    };
    let unchanged = match &*mention {
        Some(m) => m.token_start == start && text::str_eq(m.query.as_str(), query.as_str()),
        None => false,
    };
    if unchanged {
        return false;
    }
    *generation = *generation + 1;
    let previous = mention.take();
    let searching = !text::str_is_empty(query.as_str());
    let results = if searching {
        match previous {
            Some(m) => m.results,
            None => Vec::new(),
        }
    } else {
        Vec::new()
    };
    *mention = Some(
        MentionState {
            token_start: start,
            query,
            generation: *generation,
            results,
            selected: 0,
            loading: searching,
        },
    );
    searching
}

/// A search answered: only the popover's current generation takes it; the
/// highlight is clamped to the new results and loading ends.
pub fn apply_mention_results(
    mention: &mut Option<MentionState>,
    generation: u64,
    results: Option<Vec<MentionEntry>>,
)
    ensures
        match *old(mention) {
            Some(m) => if m.generation == generation {
                *final(mention) matches Some(n) && n.token_start == m.token_start && n.query
                    == m.query && n.generation == m.generation && !n.loading && n.results@ == match results {
                    Some(r) => r@,
                    None => Seq::<MentionEntry>::empty(),
                } && n.selected == if m.selected < n.results@.len() {
                    m.selected
                } else if n.results@.len() == 0 {
                    0
                } else {
                    (n.results@.len() - 1) as usize
                }
            } else {
                *final(mention) == *old(mention)
            },
            None => *final(mention) is None,
        },
{
    if let Some(m) = mention {
        if m.generation == generation {
            m.results = match results {
                Some(r) => r,
                None => Vec::new(),
            };
            let last = if m.results.len() == 0 {
                0
            } else {
                m.results.len() - 1
            };
            if m.selected >= m.results.len() {
                m.selected = last;
            }
            m.loading = false;
        }
    }
}

/// Whether `path` is written quoted in a mention.
pub open spec fn has_whitespace(path: Seq<char>) -> bool {
    exists|i: int| 0 <= i < path.len() && text::is_ws(path[i])
}

/// A path as a composer mention: `@"path" ` when it holds whitespace, else
/// `@path `.
pub open spec fn mention_text(path: Seq<char>) -> Seq<char> {
    if has_whitespace(path) {
        "@\""@ + path + "\" "@
    } else {
        "@"@ + path + " "@
    }
}

/// Render a path as a composer mention token.
pub fn format_mention(path: &str) -> (r: String)
    ensures
        r@ == mention_text(path@),
{
    let v = text::chars_of(path);
    let mut ws = false;
    let mut i: usize = 0;
    while i < v.len()
        invariant
            i <= v@.len(),
            v@ == path@,
            ws == exists|j: int| 0 <= j < i && text::is_ws(v@[j]),
        decreases v@.len() - i,
    {
        if text::char_is_whitespace(v[i]) {
            ws = true;
        }
        i += 1;
    }
    if ws {
        let mut s = String::from_str("@\"");
        text::push_str(&mut s, path);
        text::push_str(&mut s, "\" ");
        proof {
            reveal_strlit("@\"");
        }
        s
    } else {
        let mut s = String::from_str("@");
        text::push_str(&mut s, path);
        text::push_str(&mut s, " ");
        s
    }
}

/// A thread suggestion's detail line: its project's title and its age,
/// joined by ` · ` (either may be missing).
pub open spec fn thread_detail_spec(project: Option<Seq<char>>, age: Option<Seq<char>>) -> Seq<char> {
    match (project, age) {
        (Some(p), Some(a)) => p + " · "@ + a,
        (Some(p), None) => p,
        (None, Some(a)) => a,
        (None, None) => seq![],
    }
}

pub fn thread_detail(project: Option<String>, age: Option<String>) -> (r: String)
    ensures
        r@ == thread_detail_spec(shell::opt_string(project), shell::opt_string(age)),
{
    match (project, age) {
        (Some(p), Some(a)) => {
            let mut s = p;
            text::push_str(&mut s, " · ");
            text::push_str(&mut s, a.as_str());
            s
        },
        (Some(p), None) => p,
        (None, Some(a)) => a,
        (None, None) => String::new(),
    }
}

/// What ranks a thread suggestion: its lower-cased title starts with the
/// query, it belongs to the current project, and its update time.
pub open spec fn rank_facts(t: ThreadShell, q: Seq<char>, current: Option<Seq<char>>) -> (
    bool,
    bool,
    Seq<char>,
) {
    (
        text::lower(t.title@).len() >= q.len() && text::lower(t.title@).take(q.len() as int) == q,
        current == Some(t.project_id@),
        t.updated_at@,
    )
}

/// `a` ranks strictly ahead of `b`: a title-prefix match first, then the
/// current project, then the most recently updated.
pub open spec fn ahead(a: (bool, bool, Seq<char>), b: (bool, bool, Seq<char>)) -> bool {
    (a.0 && !b.0) || (a.0 == b.0 && ((a.1 && !b.1) || (a.1 == b.1 && text::seq_lt(b.2, a.2))))
}

/// Sidebar position `x` ranks before sidebar position `y` (`sb`: the
/// sidebar order): ahead, or tied and earlier in the sidebar.
pub open spec fn rank_before(
    ts: Seq<ThreadShell>,
    sb: Seq<usize>,
    q: Seq<char>,
    current: Option<Seq<char>>,
    x: int,
    y: int,
) -> bool {
    let fx = rank_facts(ts[sb[x] as int], q, current);
    let fy = rank_facts(ts[sb[y] as int], q, current);
    ahead(fx, fy) || (fx == fy && x < y)
}

/// Sidebar position `x` is a candidate: its title holds the query.
pub open spec fn candidate(ts: Seq<ThreadShell>, sb: Seq<usize>, q: Seq<char>, x: int) -> bool {
    0 <= x < sb.len() && query_hits(ts[sb[x] as int].title@, q)
}

/// `r` (sidebar positions) are the first twenty candidates by rank.
pub open spec fn ranked_ok(
    ts: Seq<ThreadShell>,
    sb: Seq<usize>,
    q: Seq<char>,
    current: Option<Seq<char>>,
    r: Seq<usize>,
) -> bool {
    &&& r.len() <= 20
    &&& forall|k: int| 0 <= k < r.len() ==> candidate(ts, sb, q, r[k] as int)
    &&& forall|a: int, b: int|
        0 <= a < b < r.len() ==> #[trigger] rank_before(ts, sb, q, current, r[a] as int, r[b] as int)
    &&& r.len() < 20 ==> forall|x: int|
        #![trigger candidate(ts, sb, q, x)]
        candidate(ts, sb, q, x) ==> order::lists(r, x)
    &&& forall|x: int, k: int|
        #![trigger candidate(ts, sb, q, x), r[k]]
        candidate(ts, sb, q, x) && !order::lists(r, x) && 0 <= k < r.len() ==> rank_before(
            ts,
            sb,
            q,
            current,
            r[k] as int,
            x,
        )
}

fn bit(b: bool) -> (c: char)
    ensures
        c == if b {
            '1'
        } else {
            '0'
        },
{
    if b {
        '1'
    } else {
        '0'
    }
}

pub open spec fn encoded(f: (bool, bool, Seq<char>)) -> Seq<char> {
    seq![if f.0 { '1' } else { '0' }, if f.1 { '1' } else { '0' }] + f.2
}

proof fn lemma_encoded_order(a: (bool, bool, Seq<char>), b: (bool, bool, Seq<char>))
    ensures
        text::seq_lt(encoded(b), encoded(a)) == ahead(a, b),
        (encoded(a) == encoded(b)) == (a == b),
{
    let ea = encoded(a);
    let eb = encoded(b);
    assert(ea.drop_first().drop_first() =~= a.2);
    assert(eb.drop_first().drop_first() =~= b.2);
    assert(ea[0] == (if a.0 { '1' } else { '0' }));
    assert(eb[0] == (if b.0 { '1' } else { '0' }));
    assert(ea.drop_first()[0] == (if a.1 { '1' } else { '0' }));
    assert(eb.drop_first()[0] == (if b.1 { '1' } else { '0' }));
    assert(('0' as int) < ('1' as int));
    let ea1 = ea.drop_first();
    let eb1 = eb.drop_first();
    assert(text::seq_lt(eb, ea) == if eb[0] != ea[0] {
        (eb[0] as int) < (ea[0] as int)
    } else {
        text::seq_lt(eb1, ea1)
    });
    assert(text::seq_lt(eb1, ea1) == if eb1[0] != ea1[0] {
        (eb1[0] as int) < (ea1[0] as int)
    } else {
        text::seq_lt(eb1.drop_first(), ea1.drop_first())
    });
    if ea == eb {
        assert(ea[0] == eb[0] && ea[1] == eb[1]);
        assert(a.2 =~= b.2);
    }
}

/// The sidebar positions of the `#` menu's thread suggestions, ranked:
/// candidates whose lower-cased title holds the query; title-prefix matches
/// first, then the current project's threads, then the most recently
/// updated; at most twenty.
pub fn rank_thread_suggestions(
    threads: &[ThreadShell],
    sidebar: &Vec<usize>,
    q: &Vec<char>,
    current: Option<&str>,
) -> (r: Vec<usize>)
    requires
        forall|k: int| 0 <= k < sidebar@.len() ==> sidebar@[k] < threads@.len(),
    ensures
        ranked_ok(threads@, sidebar@, q@, shell::opt_str(current), r@),
{
    let ghost ts = threads@;
    let ghost sb = sidebar@;
    let ghost cur = shell::opt_str(current);
    let mut idx: Vec<usize> = Vec::new();
    let mut keys: Vec<Vec<char>> = Vec::new();
    let mut x: usize = 0;
    while x < sidebar.len()
        invariant
            ts == threads@,
            sb == sidebar@,
            cur == shell::opt_str(current),
            forall|k: int| 0 <= k < sb.len() ==> sb[k] < ts.len(),
            x <= sb.len(),
            idx@.len() == keys@.len(),
            forall|k: int| 0 <= k < idx@.len() ==> idx@[k] < x && candidate(ts, sb, q@, idx@[k] as int),
            forall|a: int, b: int| 0 <= a < b < idx@.len() ==> idx@[a] < idx@[b],
            forall|k: int|
                0 <= k < idx@.len() ==> keys@[k]@ == encoded(
                    rank_facts(ts[sb[idx@[k] as int] as int], q@, cur),
                ),
            forall|y: int| 0 <= y < x && candidate(ts, sb, q@, y) ==> #[trigger] order::lists(idx@, y),
        decreases sb.len() - x,
    {
        let t = &threads[sidebar[x]];
        let title = lower_chars(t.title.as_str());
        let hit = q.len() == 0 || picker::contains_sub_exec(&title, q);
        if hit {
            let mut prefix = title.len() >= q.len();
            let mut j: usize = 0;
            while prefix && j < q.len()
                invariant
                    title.len() >= q.len() || !prefix,
                    j <= q@.len(),
                    prefix ==> title@.len() >= q@.len() && forall|i: int| 0 <= i < j ==> title@[i] == q@[i],
                    !prefix ==> !(title@.len() >= q@.len() && title@.take(q@.len() as int) == q@),
                decreases q@.len() - j,
            {
                if title[j] != q[j] {
                    prefix = false;
                    assert(title@.take(q@.len() as int)[j as int] != q@[j as int]);
                }
                j += 1;
            }
            if prefix {
                assert(title@.take(q@.len() as int) =~= q@);
            }
            let same = match current {
                Some(c) => text::str_eq(c, t.project_id.as_str()),
                None => false,
            };
            let mut key: Vec<char> = Vec::new();
            key.push(bit(prefix));
            key.push(bit(same));
            let upd = text::chars_of(t.updated_at.as_str());
            let mut i: usize = 0;
            while i < upd.len()
                invariant
                    i <= upd@.len(),
                    key@ =~= seq![if prefix { '1' } else { '0' }, if same { '1' } else { '0' }] + upd@.take(i as int),
                decreases upd@.len() - i,
            {
                key.push(upd[i]);
                i += 1;
            }
            assert(upd@.take(upd@.len() as int) =~= upd@);
            let ghost before = idx@;
            idx.push(x);
            keys.push(key);
            proof {
                assert(rank_facts(ts[sb[x as int] as int], q@, cur) == (prefix, same, upd@));
                assert forall|y: int| 0 <= y < x + 1 && candidate(ts, sb, q@, y) implies #[trigger] order::lists(idx@, y) by {
                    if y == x {
                        assert(idx@[before.len() as int] == y);
                    } else {
                        assert(order::lists(before, y));
                        let k = choose|k: int| 0 <= k < before.len() && before[k] == y;
                        assert(idx@[k] == y);
                    }
                }
            }
        } else {
            proof {
                assert forall|y: int| 0 <= y < x + 1 && candidate(ts, sb, q@, y) implies #[trigger] order::lists(idx@, y) by {
                    if y == x {
                        assert(!candidate(ts, sb, q@, y));
                    }
                }
            }
        }
        x += 1;
    }
    let positions = order::stable_order_desc(&keys);
    let ghost ks = order::keys_view(keys@);
    assert forall|k: int| 0 <= k < ks.len() implies ks[k] == encoded(
        rank_facts(ts[sb[idx@[k] as int] as int], q@, cur),
    ) by {
        assert(ks[k] == keys@[k]@);
    }
    let mut r: Vec<usize> = Vec::new();
    let mut p: usize = 0;
    while p < positions.len() && p < 20
        invariant
            ts == threads@,
            sb == sidebar@,
            cur == shell::opt_str(current),
            order::ordered_desc(ks, positions@),
            ks.len() == idx@.len(),
            forall|k: int|
                0 <= k < ks.len() ==> ks[k] == encoded(
                    rank_facts(ts[sb[idx@[k] as int] as int], q@, cur),
                ),
            forall|k: int| 0 <= k < idx@.len() ==> candidate(ts, sb, q@, idx@[k] as int),
            forall|a: int, b: int| 0 <= a < b < idx@.len() ==> idx@[a] < idx@[b],
            p <= positions@.len(),
            p <= 20,
            r@.len() == p,
            forall|k: int| 0 <= k < p ==> r@[k] == idx@[positions@[k] as int],
        decreases positions@.len() - p,
    {
        r.push(idx[positions[p]]);
        p += 1;
    }
    proof {
        assert forall|a: int, b: int| 0 <= a < b < positions@.len() implies rank_before(
            ts,
            sb,
            q@,
            cur,
            idx@[positions@[a] as int] as int,
            idx@[positions@[b] as int] as int,
        ) by {
            let pa = positions@[a] as int;
            let pb = positions@[b] as int;
            assert(order::desc_before(ks, pa, pb));
            let fa = rank_facts(ts[sb[idx@[pa] as int] as int], q@, cur);
            let fb = rank_facts(ts[sb[idx@[pb] as int] as int], q@, cur);
            lemma_encoded_order(fa, fb);
            if ks[pa] == ks[pb] {
                text::lemma_seq_lt_irreflexive(ks[pa]);
                assert(idx@[pa] < idx@[pb]);
            }
        }
        assert forall|a: int, b: int| 0 <= a < b < r@.len() implies #[trigger] rank_before(
            ts,
            sb,
            q@,
            cur,
            r@[a] as int,
            r@[b] as int,
        ) by {
        }
        assert forall|y: int|
            #![trigger candidate(ts, sb, q@, y)]
            candidate(ts, sb, q@, y) implies exists|t: int|
            0 <= t < positions@.len() && idx@[positions@[t] as int] == y by {
            assert(order::lists(idx@, y));
            let k = choose|k: int| 0 <= k < idx@.len() && idx@[k] == y;
            assert(order::lists(positions@, k));
            let t = choose|t: int| 0 <= t < positions@.len() && positions@[t] == k;
        }
        if r@.len() < 20 {
            assert(p == positions@.len());
            assert forall|y: int|
                #![trigger candidate(ts, sb, q@, y)]
                candidate(ts, sb, q@, y) implies order::lists(r@, y) by {
                let t = choose|t: int| 0 <= t < positions@.len() && idx@[positions@[t] as int] == y;
                assert(r@[t] == y);
            }
        }
        assert forall|y: int, k: int|
            #![trigger candidate(ts, sb, q@, y), r@[k]]
            candidate(ts, sb, q@, y) && !order::lists(r@, y) && 0 <= k < r@.len() implies rank_before(
            ts,
            sb,
            q@,
            cur,
            r@[k] as int,
            y,
        ) by {
            let t = choose|t: int| 0 <= t < positions@.len() && idx@[positions@[t] as int] == y;
            if t < p {
                assert(r@[t] == y);
            }
            assert(k < t);
        }
    }
    r
}

/// `items` is the `#` menu for `query`: the sidebar's threads ranked for
/// the query (see [`rank_thread_suggestions`]), each with its project's
/// title and age.
pub open spec fn thread_menu_ok(
    query: Seq<char>,
    threads: Seq<ThreadShell>,
    projects: Seq<ProjectShell>,
    current: Option<Seq<char>>,
    items: Seq<ComposerMenuItem>,
) -> bool {
    exists|sb: Seq<usize>, r: Seq<usize>|
        #![trigger shell::shell_order(threads, sb), ranked_ok(threads, sb, menu_query(query), current, r)]
        shell::shell_order(threads, sb) && ranked_ok(threads, sb, menu_query(query), current, r)
            && items.len() == r.len() && forall|k: int|
            0 <= k < r.len() ==> thread_item_ok(
                #[trigger] items[k],
                threads[sb[r[k] as int] as int],
                projects,
            )
}

/// The `#` menu: thread suggestions for `query` (see
/// [`rank_thread_suggestions`]), each with its project's title and age.
pub fn thread_menu_items(
    query: &str,
    threads: &[ThreadShell],
    projects: &[ProjectShell],
    current: Option<&str>,
) -> (items: Vec<ComposerMenuItem>)
    ensures
        thread_menu_ok(query@, threads@, projects@, shell::opt_str(current), items@),
{
    let sidebar = shell::shell_threads(threads);
    let q = normalized_query(query);
    let ranked = rank_thread_suggestions(threads, &sidebar, &q, current);
    let mut items: Vec<ComposerMenuItem> = Vec::new();
    let mut k: usize = 0;
    while k < ranked.len()
        invariant
            shell::shell_order(threads@, sidebar@),
            ranked_ok(threads@, sidebar@, q@, shell::opt_str(current), ranked@),
            forall|j: int| 0 <= j < sidebar@.len() ==> sidebar@[j] < threads@.len(),
            k <= ranked@.len(),
            items@.len() == k,
            forall|j: int|
                0 <= j < k ==> thread_item_ok(
                    #[trigger] items@[j],
                    threads@[sidebar@[ranked@[j] as int] as int],
                    projects@,
                ),
        decreases ranked@.len() - k,
    {
        let t = &threads[sidebar[ranked[k]]];
        let project = match shell_project_title(projects, t.project_id.as_str()) {
            Some(p) => Some(p),
            None => None,
        };
        let age = time::relative_time(t.updated_at.as_str());
        let detail = thread_detail(project, age);
        items.push(
            ComposerMenuItem::Thread {
                id: copy_string(&t.id),
                title: copy_string(&t.title),
                detail,
            },
        );
        k += 1;
    }
    items
}

/// Item `i` suggests thread `t`: its id and title, and a detail line made
/// of the project's title and some age label.
pub open spec fn thread_item_ok(i: ComposerMenuItem, t: ThreadShell, ps: Seq<ProjectShell>) -> bool {
    match i {
        ComposerMenuItem::Thread { id, title, detail } => {
            &&& id@ == t.id@
            &&& title@ == t.title@
            &&& exists|age: Option<Seq<char>>|
                detail@ == thread_detail_spec(project_title_spec(ps, t.project_id@), age)
        },
        _ => false,
    }
}

/// The title of project `id`.
pub open spec fn project_title_spec(ps: Seq<ProjectShell>, id: Seq<char>) -> Option<Seq<char>> {
    match shell::project_index_from(ps, id, 0) {
        Some(i) => Some(ps[i].title@),
        None => None,
    }
}

fn shell_project_title(projects: &[ProjectShell], id: &str) -> (r: Option<String>)
    ensures
        shell::opt_string(r) == project_title_spec(projects@, id@),
{
    let mut i: usize = 0;
    while i < projects.len()
        invariant
            i <= projects@.len(),
            shell::project_index_from(projects@, id@, 0) == shell::project_index_from(
                projects@,
                id@,
                i as int,
            ),
        decreases projects@.len() - i,
    {
        if text::str_eq(projects[i].id.as_str(), id) {
            return Some(copy_string(&projects[i].title));
        }
        i += 1;
    }
    None
}

/// The composer menu for a trigger: commands for `/`, skills for `$`,
/// threads for `#`; a path trigger (`@`) opens the file search instead.
pub fn composer_menu_items(
    kind: composer::ComposerTriggerKind,
    query: &str,
    provider: Option<&ServerProvider>,
    threads: &[ThreadShell],
    projects: &[ProjectShell],
    current_project: Option<&str>,
) -> (r: Option<Vec<ComposerMenuItem>>)
    ensures
        match kind {
            composer::ComposerTriggerKind::Path => r is None,
            composer::ComposerTriggerKind::Slash => r matches Some(items) && items_view(items@)
                == builtin_items(menu_query(query@)) + match provider {
                Some(p) => command_items(
                    p.slash_commands@,
                    menu_query(query@),
                    p.slash_commands@.len() as int,
                ),
                None => seq![],
            },
            composer::ComposerTriggerKind::Skill => r matches Some(items) && items_view(items@)
                == match provider {
                Some(p) => skill_items(p.skills@, menu_query(query@), p.skills@.len() as int),
                None => seq![],
            },
            composer::ComposerTriggerKind::Thread => r matches Some(items) && thread_menu_ok(
                query@,
                threads@,
                projects@,
                shell::opt_str(current_project),
                items@,
            ),
        },
{
    match kind {
        composer::ComposerTriggerKind::Path => None,
        composer::ComposerTriggerKind::Slash => Some(slash_menu_items(query, provider)),
        composer::ComposerTriggerKind::Skill => Some(skill_menu_items(query, provider)),
        composer::ComposerTriggerKind::Thread => Some(
            thread_menu_items(query, threads, projects, current_project),
        ),
    }
}

/// The open composer menu: the token it completes (`token_start` to the
/// cursor), the highlighted row, and its rows.
pub struct ComposerMenuState {
    pub token_start: usize,
    pub token_end: usize,
    pub selected: usize,
    pub items: Vec<ComposerMenuItem>,
}

/// The composer menu after an edit or a cursor move: closed unless the
/// cursor ends a `/`, `$` or `#` token; otherwise that trigger's rows for
/// the token's query, with the previous highlight kept within the rows.
pub fn sync_composer_menu(
    value: &str,
    cursor: usize,
    provider: Option<&ServerProvider>,
    threads: &[ThreadShell],
    projects: &[ProjectShell],
    current_project: Option<&str>,
    previous_selected: Option<usize>,
) -> (r: Option<ComposerMenuState>)
    ensures
        match composer::composer_token(value@, cursor as int) {
            None => r is None,
            Some((kind, start, query)) => match kind {
                composer::ComposerTriggerKind::Path => r is None,
                _ => r matches Some(m) && {
                    &&& m.token_start == start
                    &&& m.token_end == cursor
                    &&& m.selected == clamped_spec(previous_selected, m.items@.len())
                    &&& menu_rows_ok(kind, query, provider, threads@, projects@, shell::opt_str(
                        current_project,
                    ), m.items@)
                },
            },
        },
{
    let Some((kind, start, query)) = composer::active_composer_token(value, cursor) else {
        return None;
    };
    match composer_menu_items(kind, query.as_str(), provider, threads, projects, current_project) {
        None => None,
        Some(items) => {
            let selected = clamped_selection(previous_selected, items.len());
            Some(ComposerMenuState { token_start: start, token_end: cursor, selected, items })
        },
    }
}

/// The highlighted row after the rows changed.
pub open spec fn clamped_spec(previous: Option<usize>, count: nat) -> usize {
    match previous {
        Some(s) => if count == 0 {
            0
        } else if s < count {
            s
        } else {
            (count - 1) as usize
        },
        None => 0,
    }
}

/// `items` are the rows of trigger `kind` for `query`.
pub open spec fn menu_rows_ok(
    kind: composer::ComposerTriggerKind,
    query: Seq<char>,
    provider: Option<&ServerProvider>,
    threads: Seq<ThreadShell>,
    projects: Seq<ProjectShell>,
    current: Option<Seq<char>>,
    items: Seq<ComposerMenuItem>,
) -> bool {
    match kind {
        composer::ComposerTriggerKind::Path => false,
        composer::ComposerTriggerKind::Slash => items_view(items) == builtin_items(menu_query(query))
            + match provider {
            Some(p) => command_items(p.slash_commands@, menu_query(query), p.slash_commands@.len() as int),
            None => seq![],
        },
        composer::ComposerTriggerKind::Skill => items_view(items) == match provider {
            Some(p) => skill_items(p.skills@, menu_query(query), p.skills@.len() as int),
            None => seq![],
        },
        composer::ComposerTriggerKind::Thread => thread_menu_ok(query, threads, projects, current, items),
    }
}

} // verus!
