//! Per-thread model settings: a model option set by id, the "Ultrathink"
//! effort prefix of the prompt, and which model the picker starts on.

use vstd::prelude::*;

use crate::providers::{self, ModelSelection};
use crate::text;

verus! {

pub open spec fn id_view(id: Option<String>) -> Option<Seq<char>> {
    match id {
        Some(s) => Some(s@),
        None => None,
    }
}

/// The options of `opts[..n]` whose id is not `id`, in order.
pub open spec fn without_id<V>(opts: Seq<(Option<String>, V)>, id: Seq<char>, n: int) -> Seq<
    (Option<String>, V),
>
    decreases n,
{
    if n <= 0 || n > opts.len() {
        seq![]
    } else {
        without_id(opts, id, n - 1) + if id_view(opts[n - 1].0) == Some(id) {
            seq![]
        } else {
            seq![opts[n - 1]]
        }
    }
}

/// Set model option `id` to `value`: every earlier entry with that id is
/// dropped and the new one goes last; entries without an id stay.
pub fn upsert_model_option<V>(options: Vec<(Option<String>, V)>, id: String, value: V) -> (r: Vec<
    (Option<String>, V),
>)
    ensures
        r@.len() > 0,
        r@.drop_last() == without_id(options@, id@, options@.len() as int),
        id_view(r@.last().0) == Some(id@),
        r@.last().1 == value,
{
    let ghost all = options@;
    let total = options.len();
    let mut rest = options;
    let mut out: Vec<(Option<String>, V)> = Vec::new();
    let mut taken: usize = 0;
    while rest.len() > 0
        invariant
            all.len() == total,
            taken <= total,
            rest@ == all.skip(taken as int),
            out@ == without_id(all, id@, taken as int),
        decreases rest@.len(),
    {
        let entry = rest.remove(0);
        proof {
            assert(all[taken as int] == entry);
        }
        let same = match &entry.0 {
            Some(k) => text::str_eq(k.as_str(), id.as_str()),
            None => false,
        };
        if !same {
            out.push(entry);
        }
        taken += 1;
        assert(rest@ =~= all.skip(taken as int));
    }
    let ghost kept = out@;
    out.push((Some(id), value));
    assert(out@.drop_last() =~= kept);
    out
}

/// After an upsert, option `id` occurs exactly once: none of the entries
/// kept before the new last one carries it.
pub proof fn law_upsert_keeps_one_entry<V>(opts: Seq<(Option<String>, V)>, id: Seq<char>, n: int)
    requires
        0 <= n <= opts.len(),
    ensures
        forall|k: int|
            0 <= k < without_id(opts, id, n).len() ==> id_view(
                #[trigger] without_id(opts, id, n)[k].0,
            ) != Some(id),
        without_id(opts, id, n).len() <= n,
    decreases n,
{
    if n > 0 {
        law_upsert_keeps_one_entry(opts, id, n - 1);
    }
}

/// The effort prefixes of a prompt.
pub open spec fn effort_line() -> Seq<char> {
    "Ultrathink:\n"@
}

pub open spec fn effort_inline() -> Seq<char> {
    "Ultrathink: "@
}

pub open spec fn starts_with(s: Seq<char>, p: Seq<char>) -> bool {
    s.len() >= p.len() && s.take(p.len() as int) == p
}

/// The prompt without its effort prefix.
pub open spec fn strip_effort(s: Seq<char>) -> Seq<char> {
    if starts_with(s, effort_line()) {
        s.skip(effort_line().len() as int)
    } else if starts_with(s, effort_inline()) {
        s.skip(effort_inline().len() as int)
    } else {
        s
    }
}

/// The prompt after choosing effort `value`: "ultrathink" (any ASCII case)
/// puts the prefix line in front; any other effort removes it.
pub open spec fn with_effort(current: Seq<char>, value: Seq<char>) -> Seq<char> {
    let stripped = strip_effort(current);
    if text::lower(value) == "ultrathink"@ {
        if text::trim(stripped).len() == 0 {
            effort_line()
        } else {
            effort_line() + stripped
        }
    } else {
        stripped
    }
}

fn has_prefix(v: &Vec<char>, p: &str) -> (b: bool)
    ensures
        b == starts_with(v@, p@),
{
    let pv = text::chars_of(p);
    if pv.len() > v.len() {
        return false;
    }
    let head = text::string_of(v, 0, pv.len());
    assert(v@.subrange(0, pv@.len() as int) =~= v@.take(pv@.len() as int));
    text::str_eq(head.as_str(), p)
}

/// Rewrite the composer text for a reasoning-effort choice.
pub fn prompt_with_effort(current: &str, value: &str) -> (r: String)
    ensures
        r@ == with_effort(current@, value@),
{
    proof {
        reveal_strlit("Ultrathink:\n");
        reveal_strlit("Ultrathink: ");
        reveal_strlit("ultrathink");
    }
    let v = text::chars_of(current);
    let start: usize = if has_prefix(&v, "Ultrathink:\n") {
        12
    } else if has_prefix(&v, "Ultrathink: ") {
        12
    } else {
        0
    };
    let stripped = text::string_of(&v, start, v.len());
    assert(v@.subrange(start as int, v@.len() as int) =~= v@.skip(start as int));
    assert(strip_effort(current@) == stripped@) by {
        assert(v@.skip(0) =~= v@);
    }
    let lowered = lower_text(value);
    if text::str_eq(lowered.as_str(), "ultrathink") {
        let sv = text::chars_of(stripped.as_str());
        let (a, b) = text::trim_range(&sv, 0, sv.len());
        assert(sv@.subrange(0, sv@.len() as int) =~= sv@);
        if a == b {
            String::from_str("Ultrathink:\n")
        } else {
            let mut s = String::from_str("Ultrathink:\n");
            text::push_str(&mut s, stripped.as_str());
            s
        }
    } else {
        stripped
    }
}

fn lower_text(s: &str) -> (r: String)
    ensures
        r@ == text::lower(s@),
{
    let v = text::chars_of(s);
    let mut out: Vec<char> = Vec::new();
    let mut i: usize = 0;
    while i < v.len()
        invariant
            i <= v@.len(),
            out@ == text::lower(v@.take(i as int)),
        decreases v@.len() - i,
    {
        out.push(text::lower_char_exec(v[i]));
        assert(text::lower(v@.take(i + 1)) =~= text::lower(v@.take(i as int)).push(
            text::lower_char(v@[i as int]),
        ));
        i += 1;
    }
    assert(v@.take(v@.len() as int) =~= v@);
    text::string_from(&out)
}

/// Choosing "ultrathink" twice is the same as choosing it once.
pub proof fn law_effort_prefix_idempotent(current: Seq<char>)
    ensures
        with_effort(with_effort(current, "ultrathink"@), "ultrathink"@) == with_effort(
            current,
            "ultrathink"@,
        ),
{
    reveal_strlit("Ultrathink:\n");
    reveal_strlit("ultrathink");
    let once = with_effort(current, "ultrathink"@);
    assert(text::lower("ultrathink"@) =~= "ultrathink"@);
    let st = strip_effort(current);
    assert(effort_line().len() == 12);
    assert(starts_with(once, effort_line())) by {
        if text::trim(st).len() == 0 {
            assert(once == effort_line());
            assert(once.take(12) =~= effort_line());
        } else {
            assert((effort_line() + st).take(12) =~= effort_line());
        }
    }
    if text::trim(st).len() == 0 {
        assert(strip_effort(once) =~= Seq::<char>::empty());
        assert(text::trim(Seq::<char>::empty()) =~= Seq::<char>::empty());
    } else {
        assert(strip_effort(once) =~= st);
    }
}

/// The model (instance id, slug) the picker opens on: the open thread's
/// selection, else the draft's, else the draft project's default, else
/// the default for the providers.
pub open spec fn picker_start_spec(
    thread: Option<ModelSelection>,
    draft: Option<ModelSelection>,
    project_default: Option<ModelSelection>,
    fallback: Option<(Seq<char>, Seq<char>)>,
) -> Option<(Seq<char>, Seq<char>)> {
    let t = match thread {
        Some(s) => providers::identity_spec(s),
        None => None,
    };
    let d = match draft {
        Some(s) => providers::identity_spec(s),
        None => None,
    };
    let p = match project_default {
        Some(s) => providers::identity_spec(s),
        None => None,
    };
    if t is Some {
        t
    } else if d is Some {
        d
    } else if p is Some {
        p
    } else {
        fallback
    }
}

pub open spec fn pair_view(o: Option<(String, String)>) -> Option<(Seq<char>, Seq<char>)> {
    match o {
        Some((a, b)) => Some((a@, b@)),
        None => None,
    }
}

pub open spec fn sel_view(o: Option<&ModelSelection>) -> Option<ModelSelection> {
    match o {
        Some(s) => Some(*s),
        None => None,
    }
}

pub fn picker_start_selection(
    thread: Option<&ModelSelection>,
    draft: Option<&ModelSelection>,
    project_default: Option<&ModelSelection>,
    fallback: Option<(String, String)>,
) -> (r: Option<(String, String)>)
    ensures
        pair_view(r) == picker_start_spec(
            sel_view(thread),
            sel_view(draft),
            sel_view(project_default),
            pair_view(fallback),
        ),
{
    if let Some(s) = thread {
        if let Some(id) = providers::model_selection_identity(s) {
            return Some(id);
        }
    }
    if let Some(s) = draft {
        if let Some(id) = providers::model_selection_identity(s) {
            return Some(id);
        }
    }
    if let Some(s) = project_default {
        if let Some(id) = providers::model_selection_identity(s) {
            return Some(id);
        }
    }
    fallback
}

} // verus!
