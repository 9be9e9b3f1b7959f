//! The model picker dialog: which rail entry starts selected, the
//! numbered-jump targets, keeping the selection usable when provider
//! snapshots change, which model rows are listed, favorites, and the
//! provider update notice.

use vstd::prelude::*;

use crate::providers::{
    provider_picker_ready, provider_picker_selectable, provider_ready, provider_selectable,
    ModelSelection, ServerProvider,
};
use crate::order;
use crate::providers;
use crate::text;

verus! {

/// The rail entry id of the favorites pseudo-provider.
pub open spec fn favorites_id() -> Seq<char> {
    ":favorites"@
}

fn favorites_id_string() -> (r: String)
    ensures
        r@ == favorites_id(),
{
    text::string_from(&text::chars_of(":favorites"))
}

fn copy_string(s: &String) -> (r: String)
    ensures
        r@ == s@,
{
    text::string_from(&text::chars_of(s.as_str()))
}

/// Index of the first selectable provider with instance id `id`, from `i` on.
pub open spec fn first_selectable_with_id(ps: Seq<ServerProvider>, id: Seq<char>, i: int) -> Option<
    int,
>
    decreases ps.len() - i,
{
    if i < 0 || i >= ps.len() {
        None
    } else if ps[i].instance_id@ == id && provider_selectable(ps[i]) {
        Some(i)
    } else {
        first_selectable_with_id(ps, id, i + 1)
    }
}

/// The rail entry the picker opens on: favorites when there are any, else
/// the current model's provider when selectable, else the first ready one.
pub open spec fn initial_provider_spec(
    ps: Seq<ServerProvider>,
    has_favorites: bool,
    current_instance: Option<Seq<char>>,
) -> Option<Seq<char>> {
    if has_favorites {
        Some(favorites_id())
    } else {
        let by_current = match current_instance {
            Some(id) => first_selectable_with_id(ps, id, 0),
            None => None,
        };
        match by_current {
            Some(i) => Some(ps[i].instance_id@),
            None => match providers::first_ready_from(ps, 0) {
                Some(i) => Some(ps[i].instance_id@),
                None => None,
            },
        }
    }
}

pub fn initial_picker_provider(
    providers: &[ServerProvider],
    has_favorites: bool,
    current_instance: Option<&str>,
) -> (r: Option<String>)
    ensures
        match r {
            Some(id) => initial_provider_spec(
                providers@,
                has_favorites,
                match current_instance {
                    Some(c) => Some(c@),
                    None => None,
                },
            ) == Some(id@),
            None => initial_provider_spec(
                providers@,
                has_favorites,
                match current_instance {
                    Some(c) => Some(c@),
                    None => None,
                },
            ) is None,
        },
{
    if has_favorites {
        return Some(favorites_id_string());
    }
    if let Some(c) = current_instance {
        let mut i: usize = 0;
        while i < providers.len()
            invariant
                i <= providers@.len(),
                !has_favorites,
                current_instance == Some(c),
                first_selectable_with_id(providers@, c@, 0) == first_selectable_with_id(
                    providers@,
                    c@,
                    i as int,
                ),
            decreases providers@.len() - i,
        {
            if text::str_eq(providers[i].instance_id.as_str(), c) && provider_picker_selectable(
                &providers[i],
            ) {
                assert(first_selectable_with_id(providers@, c@, i as int) == Some(i as int));
                return Some(copy_string(&providers[i].instance_id));
            }
            i += 1;
        }
        assert(first_selectable_with_id(providers@, c@, i as int) is None);
    }
    match providers::first_ready(providers) {
        Some(i) => Some(copy_string(&providers[i].instance_id)),
        None => None,
    }
}

/// Instance ids of the ready providers, in order.
pub open spec fn ready_ids(ps: Seq<ServerProvider>) -> Seq<Seq<char>>
    decreases ps.len(),
{
    if ps.len() == 0 {
        seq![]
    } else {
        ready_ids(ps.drop_last()) + if provider_ready(ps.last()) {
            seq![ps.last().instance_id@]
        } else {
            seq![]
        }
    }
}

/// The rail entries the numbered shortcuts jump to.
pub open spec fn jump_ids(ps: Seq<ServerProvider>, has_favorites: bool) -> Seq<Seq<char>> {
    (if has_favorites {
        seq![favorites_id()]
    } else {
        seq![]
    }) + ready_ids(ps)
}

/// The rail entry of numbered shortcut `index` (0-based), if there is one.
pub fn picker_jump_target(providers: &[ServerProvider], has_favorites: bool, index: usize) -> (r:
    Option<String>)
    ensures
        match r {
            Some(id) => index < jump_ids(providers@, has_favorites).len() && id@ == jump_ids(
                providers@,
                has_favorites,
            )[index as int],
            None => index >= jump_ids(providers@, has_favorites).len(),
        },
{
    let mut ids: Vec<String> = Vec::new();
    if has_favorites {
        ids.push(favorites_id_string());
    }
    let ghost head = if has_favorites {
        seq![favorites_id()]
    } else {
        Seq::<Seq<char>>::empty()
    };
    assert(ids@.map_values(|s: String| s@) =~= head);
    let mut i: usize = 0;
    while i < providers.len()
        invariant
            i <= providers@.len(),
            ids@.map_values(|s: String| s@) == head + ready_ids(providers@.take(i as int)),
        decreases providers@.len() - i,
    {
        assert(providers@.take(i + 1).drop_last() =~= providers@.take(i as int));
        assert(providers@.take(i + 1).last() == providers@[i as int]);
        let ghost before = ids@.map_values(|s: String| s@);
        if provider_picker_ready(&providers[i]) {
            ids.push(copy_string(&providers[i].instance_id));
            assert(ids@.map_values(|s: String| s@) =~= before.push(providers@[i as int].instance_id@));
        } else {
            assert(ids@.map_values(|s: String| s@) == before);
        }
        assert(ids@.map_values(|s: String| s@) =~= head + ready_ids(providers@.take(i + 1)));
        i += 1;
    }
    assert(providers@.take(providers@.len() as int) =~= providers@);
    if index < ids.len() {
        assert(ids@.map_values(|s: String| s@)[index as int] == ids@[index as int]@);
        Some(copy_string(&ids[index]))
    } else {
        None
    }
}

/// The selected rail entry still works: the favorites entry, or a visible
/// selectable provider.
pub open spec fn selection_usable(visible: Seq<ServerProvider>, selected: Option<Seq<char>>) -> bool {
    match selected {
        None => false,
        Some(s) => s == favorites_id() || exists|k: int|
            0 <= k < visible.len() && visible[k].instance_id@ == s && provider_selectable(
                visible[k],
            ),
    }
}

/// After a provider snapshot lands in an open picker (`visible` holds the
/// picker-visible providers): `None` keeps the selection; `Some(next)`
/// replaces it with the first ready provider (or nothing) and resets the
/// highlighted row.
pub fn reconcile_picker_provider(visible: &[ServerProvider], selected: Option<&str>) -> (r: Option<
    Option<String>,
>)
    ensures
        match r {
            None => selection_usable(
                visible@,
                match selected {
                    Some(s) => Some(s@),
                    None => None,
                },
            ),
            Some(next) => !selection_usable(
                visible@,
                match selected {
                    Some(s) => Some(s@),
                    None => None,
                },
            ) && match next {
                Some(id) => providers::first_ready_from(visible@, 0) matches Some(i) && id@
                    == visible@[i].instance_id@,
                None => providers::first_ready_from(visible@, 0) is None,
            },
        },
{
    let usable = match selected {
        None => false,
        Some(s) => {
            if text::str_eq(s, ":favorites") {
                true
            } else {
                let mut found = false;
                let mut k: usize = 0;
                while k < visible.len()
                    invariant
                        k <= visible@.len(),
                        found == exists|q: int|
                            0 <= q < k && visible@[q].instance_id@ == s@ && provider_selectable(
                                visible@[q],
                            ),
                    decreases visible@.len() - k,
                {
                    if text::str_eq(visible[k].instance_id.as_str(), s)
                        && provider_picker_selectable(&visible[k]) {
                        found = true;
                    }
                    k += 1;
                }
                found
            }
        },
    };
    if usable {
        return None;
    }
    match providers::first_ready(visible) {
        Some(i) => Some(Some(copy_string(&visible[i].instance_id))),
        None => Some(None),
    }
}

/// `needle` occurs in `hay`.
pub open spec fn contains_sub(hay: Seq<char>, needle: Seq<char>) -> bool {
    exists|i: int|
        0 <= i && i + needle.len() <= hay.len() && #[trigger] hay.subrange(i, i + needle.len())
            == needle
}

pub fn contains_sub_exec(hay: &Vec<char>, needle: &Vec<char>) -> (b: bool)
    ensures
        b == contains_sub(hay@, needle@),
{
    if needle.len() > hay.len() {
        return false;
    }
    if needle.len() == 0 {
        assert(hay@.subrange(0int, 0int + needle@.len()) =~= needle@);
        return true;
    }
    let n = hay.len();
    let last = n - needle.len();
    let mut i: usize = 0;
    while i <= last
        invariant
            last + needle@.len() == hay@.len(),
            n == hay@.len(),
            needle@.len() > 0,
            forall|q: int|
                0 <= q < i ==> #[trigger] hay@.subrange(q, q + needle@.len()) != needle@,
        decreases last + 1 - i,
    {
        let mut j: usize = 0;
        let mut ok = true;
        while j < needle.len()
            invariant
                i <= last,
                n == hay@.len(),
                last + needle@.len() == hay@.len(),
                j <= needle@.len(),
                ok == forall|t: int| 0 <= t < j ==> hay@[i + t] == needle@[t],
            decreases needle@.len() - j,
        {
            assert(i + j < n);
            if hay[i + j] != needle[j] {
                ok = false;
            }
            j += 1;
        }
        if ok {
            assert(hay@.subrange(i as int, i + needle@.len()) =~= needle@);
            return true;
        }
        assert(hay@.subrange(i as int, i + needle@.len()) != needle@) by {
            let t = choose|t: int| 0 <= t < needle@.len() && hay@[i + t] != needle@[t];
            assert(hay@.subrange(i as int, i + needle@.len())[t] != needle@[t]);
        }
        i += 1;
    }
    proof {
        assert forall|q: int|
            0 <= q && q + needle@.len() <= hay@.len() implies #[trigger] hay@.subrange(
            q,
            q + needle@.len(),
        ) != needle@ by {
            assert(q < i);
        }
    }
    false
}

fn lower_chars(s: &str) -> (r: Vec<char>)
    ensures
        r@ == text::lower(s@),
{
    let v = text::chars_of(s);
    let mut out: Vec<char> = Vec::new();
    let mut i: usize = 0;
    while i < v.len()
        invariant
            i <= v@.len(),
            out@ == text::lower(v@.take(i as int)),
        decreases v@.len() - i,
    {
        out.push(text::lower_char_exec(v[i]));
        assert(text::lower(v@.take(i + 1)) =~= text::lower(v@.take(i as int)).push(
            text::lower_char(v@[i as int]),
        ));
        i += 1;
    }
    assert(v@.take(v@.len() as int) =~= v@);
    out
}

/// A model row is listed: the query is empty, or it occurs in the model's
/// name, slug or provider name (all lower-cased); and, in the favorites
/// view, the model is a favorite.
pub open spec fn model_listed(
    p: ServerProvider,
    m: providers::ServerModel,
    favorites_only: bool,
    favorites: Seq<String>,
    q: Seq<char>,
) -> bool {
    (!favorites_only || text::is_member(
        favorites,
        providers::favorite_key(p.instance_id@, m.slug@),
    )) && (q.len() == 0 || contains_sub(text::lower(m.name@), q) || contains_sub(
        text::lower(m.slug@),
        q,
    ) || contains_sub(text::lower(providers::display_name_spec(p)), q))
}

/// Rows of provider `pi`'s models from `mi` on.
pub open spec fn provider_rows(
    ps: Seq<ServerProvider>,
    pi: int,
    favorites_only: bool,
    favorites: Seq<String>,
    q: Seq<char>,
    n: int,
) -> Seq<(usize, usize)>
    decreases n,
{
    if n <= 0 || n > ps[pi].models@.len() {
        seq![]
    } else {
        provider_rows(ps, pi, favorites_only, favorites, q, n - 1) + if model_listed(
            ps[pi],
            ps[pi].models@[n - 1],
            favorites_only,
            favorites,
            q,
        ) {
            seq![(pi as usize, (n - 1) as usize)]
        } else {
            seq![]
        }
    }
}

/// The model rows the picker lists, as (provider, model) indices, for a
/// trimmed, lower-cased query: ready providers only; without a query, only
/// the selected provider's models, or every favorite in the favorites
/// view.
pub open spec fn picker_rows_upto(
    ps: Seq<ServerProvider>,
    selected: Option<Seq<char>>,
    favorites: Seq<String>,
    q: Seq<char>,
    n: int,
) -> Seq<(usize, usize)>
    decreases n,
{
    if n <= 0 || n > ps.len() {
        seq![]
    } else {
        let p = ps[n - 1];
        let favorites_only = q.len() == 0 && selected == Some(favorites_id());
        let shown = provider_ready(p) && !(q.len() == 0 && !favorites_only && selected != Some(
            p.instance_id@,
        ));
        picker_rows_upto(ps, selected, favorites, q, n - 1) + if shown {
            provider_rows(ps, n - 1, favorites_only, favorites, q, p.models@.len() as int)
        } else {
            seq![]
        }
    }
}

fn is_favorite(favorites: &Vec<String>, instance: &String, slug: &String) -> (b: bool)
    ensures
        b == text::is_member(favorites@, providers::favorite_key(instance@, slug@)),
{
    let key = providers::model_favorite_key(instance.as_str(), slug.as_str());
    match text::position_of(favorites, key.as_str()) {
        Some(_) => true,
        None => false,
    }
}

/// The (provider, model) rows the picker lists for `query` (the search
/// text; it is trimmed and lower-cased here).
pub fn picker_model_rows(
    providers: &[ServerProvider],
    selected: Option<&str>,
    favorites: &Vec<String>,
    query: &str,
) -> (rows: Vec<(usize, usize)>)
    ensures
        rows@ == picker_rows_upto(
            providers@,
            match selected {
                Some(s) => Some(s@),
                None => None,
            },
            favorites@,
            text::lower(text::trim(query@)),
            providers@.len() as int,
        ),
{
    let ghost sel = match selected {
        Some(s) => Some(s@),
        None => None,
    };
    let qv = text::chars_of(query);
    let (a, b) = text::trim_range(&qv, 0, qv.len());
    assert(qv@.subrange(0, qv@.len() as int) =~= qv@);
    let trimmed = text::string_of(&qv, a, b);
    let q = lower_chars(trimmed.as_str());
    let selected_is_favorites = match selected {
        Some(s) => text::str_eq(s, ":favorites"),
        None => false,
    };
    let favorites_only = q.len() == 0 && selected_is_favorites;
    let mut rows: Vec<(usize, usize)> = Vec::new();
    let mut pi: usize = 0;
    while pi < providers.len()
        invariant
            pi <= providers@.len(),
            q@ == text::lower(text::trim(query@)),
            favorites_only == (q@.len() == 0 && sel == Some(favorites_id())),
            sel == match selected {
                Some(s) => Some(s@),
                None => None,
            },
            rows@ == picker_rows_upto(providers@, sel, favorites@, q@, pi as int),
        decreases providers@.len() - pi,
    {
        let p = &providers[pi];
        let is_selected = match selected {
            Some(s) => text::str_eq(s, p.instance_id.as_str()),
            None => false,
        };
        let shown = provider_picker_ready(p) && !(q.len() == 0 && !favorites_only && !is_selected);
        let ghost before = rows@;
        if shown {
            let name = providers::provider_display_name(p);
            let name_l = lower_chars(name.as_str());
            let mut mi: usize = 0;
            while mi < p.models.len()
                invariant
                    mi <= p.models@.len(),
                    pi < providers@.len(),
                    *p == providers@[pi as int],
                    name_l@ == text::lower(providers::display_name_spec(*p)),
                    rows@ == before + provider_rows(
                        providers@,
                        pi as int,
                        favorites_only,
                        favorites@,
                        q@,
                        mi as int,
                    ),
                decreases p.models@.len() - mi,
            {
                let m = &p.models[mi];
                let fav_ok = !favorites_only || is_favorite(favorites, &p.instance_id, &m.slug);
                let listed = fav_ok && (q.len() == 0 || contains_sub_exec(
                    &lower_chars(m.name.as_str()),
                    &q,
                ) || contains_sub_exec(&lower_chars(m.slug.as_str()), &q) || contains_sub_exec(
                    &name_l,
                    &q,
                ));
                if listed {
                    rows.push((pi, mi));
                }
                assert(rows@ =~= before + provider_rows(
                    providers@,
                    pi as int,
                    favorites_only,
                    favorites@,
                    q@,
                    mi + 1,
                ));
                mi += 1;
            }
        }
        assert(rows@ =~= picker_rows_upto(providers@, sel, favorites@, q@, pi + 1));
        pi += 1;
    }
    rows
}

/// The provider the composer's `/` and `$` menus read: the thread model's
/// instance when known, else the first ready provider.
pub open spec fn menu_provider_spec(ps: Seq<ServerProvider>, instance: Option<Seq<char>>) -> Option<
    int,
> {
    let by_id = match instance {
        Some(id) => first_with_id(ps, id, 0),
        None => None,
    };
    match by_id {
        Some(i) => Some(i),
        None => providers::first_ready_from(ps, 0),
    }
}

pub open spec fn first_with_id(ps: Seq<ServerProvider>, id: Seq<char>, i: int) -> Option<int>
    decreases ps.len() - i,
{
    if i < 0 || i >= ps.len() {
        None
    } else if ps[i].instance_id@ == id {
        Some(i)
    } else {
        first_with_id(ps, id, i + 1)
    }
}

/// The instance id a model selection names, if any.
pub open spec fn selection_instance(selection: Option<&ModelSelection>) -> Option<Seq<char>> {
    match selection {
        Some(s) => match s.instance_id {
            Some(i) => Some(i@),
            None => None,
        },
        None => None,
    }
}

pub fn selected_provider_index(providers: &[ServerProvider], selection: Option<&ModelSelection>) -> (r:
    Option<usize>)
    ensures
        match r {
            Some(i) => menu_provider_spec(providers@, selection_instance(selection)) == Some(
                i as int,
            ),
            None => menu_provider_spec(providers@, selection_instance(selection)) is None,
        },
{
    if let Some(s) = selection {
        if let Some(id) = &s.instance_id {
            let mut i: usize = 0;
            while i < providers.len()
                invariant
                    i <= providers@.len(),
                    selection == Some(s),
                    s.instance_id == Some(*id),
                    first_with_id(providers@, id@, 0) == first_with_id(providers@, id@, i as int),
                decreases providers@.len() - i,
            {
                if text::str_eq(providers[i].instance_id.as_str(), id.as_str()) {
                    assert(first_with_id(providers@, id@, i as int) == Some(i as int));
                    return Some(i);
                }
                i += 1;
            }
            assert(first_with_id(providers@, id@, i as int) is None);
        }
    }
    providers::first_ready(providers)
}

/// The picker's favorite models, by favorites key; no key is listed twice.
pub struct ModelFavorites {
    pub values: Vec<String>,
}

impl ModelFavorites {
    pub open spec fn wf(&self) -> bool {
        text::distinct(self.values@)
    }

    /// Star or unstar a model.
    pub fn toggle(&mut self, key: &str)
        requires
            old(self).wf(),
        ensures
            final(self).wf(),
            text::is_member(final(self).values@, key@) == !text::is_member(
                old(self).values@,
                key@,
            ),
            forall|k: Seq<char>|
                k != key@ ==> text::is_member(final(self).values@, k) == text::is_member(
                    old(self).values@,
                    k,
                ),
    {
        text::toggle_member(&mut self.values, key);
    }
}


pub open spec fn rank_keys(rows: Seq<(usize, usize)>, ranks: Seq<u64>) -> Seq<(usize, u64)> {
    Seq::new(rows.len(), |i: int| (rows[i].0, ranks[i]))
}

/// The picker's rows for a query: with a query, each provider's models are
/// ordered by how well they match it (`ranks`, one per row, from the
/// palette's match ranking), best first, ties in list order; without one,
/// the rows stay as listed.
pub fn ranked_picker_rows(rows: &Vec<(usize, usize)>, ranks: &Vec<u64>, query: &str) -> (r: Vec<
    (usize, usize),
>)
    requires
        ranks@.len() == rows@.len(),
    ensures
        text::trim(query@).len() == 0 ==> r@ == rows@,
        text::trim(query@).len() > 0 ==> exists|perm: Seq<usize>|
            order::ordered_by_rank(rank_keys(rows@, ranks@), perm) && r@ == perm.map_values(
                |i: usize| rows@[i as int],
            ),
{
    let qv = text::chars_of(query);
    let (a, b) = text::trim_range(&qv, 0, qv.len());
    assert(qv@.subrange(0, qv@.len() as int) =~= qv@);
    if a == b {
        let mut out: Vec<(usize, usize)> = Vec::new();
        let mut i: usize = 0;
        while i < rows.len()
            invariant
                i <= rows@.len(),
                out@ == rows@.take(i as int),
            decreases rows@.len() - i,
        {
            out.push(rows[i]);
            assert(rows@.take(i + 1) =~= rows@.take(i as int).push(rows@[i as int]));
            i += 1;
        }
        assert(rows@.take(i as int) =~= rows@);
        return out;
    }
    let mut keys: Vec<(usize, u64)> = Vec::new();
    let mut i: usize = 0;
    while i < rows.len()
        invariant
            i <= rows@.len(),
            ranks@.len() == rows@.len(),
            keys@ == rank_keys(rows@, ranks@).take(i as int),
        decreases rows@.len() - i,
    {
        keys.push((rows[i].0, ranks[i]));
        assert(rank_keys(rows@, ranks@).take(i + 1) =~= rank_keys(rows@, ranks@).take(i as int).push(
            (rows@[i as int].0, ranks@[i as int]),
        ));
        i += 1;
    }
    assert(keys@ =~= rank_keys(rows@, ranks@));
    let perm = order::stable_order_by_rank(&keys);
    let mut out: Vec<(usize, usize)> = Vec::new();
    let mut k: usize = 0;
    while k < perm.len()
        invariant
            k <= perm@.len(),
            order::ordered_by_rank(rank_keys(rows@, ranks@), perm@),
            rank_keys(rows@, ranks@).len() == rows@.len(),
            out@ == perm@.take(k as int).map_values(|i: usize| rows@[i as int]),
        decreases perm@.len() - k,
    {
        let idx = perm[k];
        assert(idx < rows@.len());
        out.push(rows[idx]);
        assert(perm@.take(k + 1).map_values(|i: usize| rows@[i as int]) =~= perm@.take(
            k as int,
        ).map_values(|i: usize| rows@[i as int]).push(rows@[idx as int]));
        k += 1;
    }
    assert(perm@.take(k as int) =~= perm@);
    out
}

} // verus!
