//! One-line notices of the chat view: provider CLI updates (each provider
//! version announced once) and the sidecar's status.

use vstd::prelude::*;

use crate::providers::ServerProvider;
use crate::text;

verus! {

/// The version a provider's update notice names.
pub open spec fn advised_version(p: ServerProvider) -> Seq<char> {
    match p.version_advisory {
        Some(a) => match a.latest_version {
            Some(v) => v@,
            None => "latest"@,
        },
        None => "latest"@,
    }
}

/// The provider is enabled and its CLI is behind the latest version.
pub open spec fn behind(p: ServerProvider) -> bool {
    p.enabled && (p.version_advisory matches Some(a) && a.behind_latest)
}

/// The key under which a provider version's notice is remembered.
pub open spec fn notice_key(p: ServerProvider) -> Seq<char> {
    p.instance_id@ + ":"@ + advised_version(p)
}

/// The notice's entry for a provider.
pub open spec fn notice_entry(p: ServerProvider) -> Seq<char> {
    p.instance_id@ + " ("@ + advised_version(p) + ")"@
}

/// Walking `ps[..n]` from the seen keys `seen`: the keys seen afterwards
/// and the entries to announce, in order.
pub open spec fn announced(ps: Seq<ServerProvider>, seen: Set<Seq<char>>, n: int) -> (
    Set<Seq<char>>,
    Seq<Seq<char>>,
)
    decreases n,
{
    if n <= 0 || n > ps.len() {
        (seen, seq![])
    } else {
        let (s, u) = announced(ps, seen, n - 1);
        let p = ps[n - 1];
        if behind(p) && !s.contains(notice_key(p)) {
            (s.insert(notice_key(p)), u.push(notice_entry(p)))
        } else {
            (s, u)
        }
    }
}

/// The notice text for the entries.
pub open spec fn update_notice(entries: Seq<Seq<char>>) -> Seq<char> {
    "Provider updates available: "@ + text::join(entries, ", "@)
        + ". Open Settings → Providers to update."@
}

pub open spec fn seen_set(seen: Seq<String>) -> Set<Seq<char>> {
    Set::new(|k: Seq<char>| text::is_member(seen, k))
}

fn copy_string(s: &String) -> (r: String)
    ensures
        r@ == s@,
{
    text::string_from(&text::chars_of(s.as_str()))
}

/// Remember the update notices of `providers` in `seen` and return the
/// notice for the provider versions not announced before, if any.
pub fn announce_provider_updates(providers: &[ServerProvider], seen: &mut Vec<String>) -> (r: Option<
    String,
>)
    ensures
        seen_set(final(seen)@) == announced(
            providers@,
            seen_set(old(seen)@),
            providers@.len() as int,
        ).0,
        match r {
            Some(n) => {
                let u = announced(providers@, seen_set(old(seen)@), providers@.len() as int).1;
                u.len() > 0 && n@ == update_notice(u)
            },
            None => announced(
                providers@,
                seen_set(old(seen)@),
                providers@.len() as int,
            ).1.len() == 0,
        },
{
    let ghost start = seen_set(seen@);
    let mut updates: Vec<String> = Vec::new();
    let mut i: usize = 0;
    while i < providers.len()
        invariant
            i <= providers@.len(),
            start == seen_set(old(seen)@),
            (seen_set(seen@), updates@.map_values(|s: String| s@)) == announced(
                providers@,
                start,
                i as int,
            ),
        decreases providers@.len() - i,
    {
        let p = &providers[i];
        let ghost before_u = updates@.map_values(|s: String| s@);
        if p.enabled {
            if let Some(a) = &p.version_advisory {
                if a.behind_latest {
                    let version = match &a.latest_version {
                        Some(v) => copy_string(v),
                        None => String::from_str("latest"),
                    };
                    let mut key = copy_string(&p.instance_id);
                    text::push_str(&mut key, ":");
                    text::push_str(&mut key, version.as_str());
                    let fresh = match text::position_of(seen, key.as_str()) {
                        Some(_) => false,
                        None => true,
                    };
                    assert(fresh == !seen_set(seen@).contains(notice_key(*p)));
                    if fresh {
                        let ghost before_s = seen_set(seen@);
                        let ghost old_seen = seen@;
                        let mut entry = copy_string(&p.instance_id);
                        text::push_str(&mut entry, " (");
                        text::push_str(&mut entry, version.as_str());
                        text::push_str(&mut entry, ")");
                        let ghost ks = key@;
                        seen.push(key);
                        updates.push(entry);
                        proof {
                            assert(seen@ == old_seen.push(seen@.last()));
                            assert(seen_set(seen@) =~= before_s.insert(ks)) by {
                                assert forall|k: Seq<char>| #[trigger] seen_set(seen@).contains(k) == before_s.insert(ks).contains(k) by {
                                    if text::is_member(seen@, k) {
                                        let j = choose|j: int| 0 <= j < seen@.len() && seen@[j]@ == k;
                                        if j < old_seen.len() {
                                            assert(old_seen[j]@ == k);
                                        }
                                    }
                                    if text::is_member(old_seen, k) {
                                        let j = choose|j: int| 0 <= j < old_seen.len() && old_seen[j]@ == k;
                                        assert(seen@[j]@ == k);
                                    }
                                    if k == ks {
                                        assert(seen@[old_seen.len() as int]@ == k);
                                    }
                                }
                            }
                            assert(updates@.map_values(|s: String| s@) =~= before_u.push(
                                notice_entry(*p),
                            ));
                        }
                    }
                }
            }
        }
        i += 1;
    }
    if updates.len() == 0 {
        return None;
    }
    let mut n = String::from_str("Provider updates available: ");
    let mut k: usize = 0;
    let ghost us = updates@.map_values(|s: String| s@);
    while k < updates.len()
        invariant
            k <= updates@.len(),
            us == updates@.map_values(|s: String| s@),
            n@ == "Provider updates available: "@ + text::join(us.take(k as int), ", "@),
        decreases updates@.len() - k,
    {
        if k > 0 {
            text::push_str(&mut n, ", ");
        }
        text::push_str(&mut n, updates[k].as_str());
        proof {
            assert(us.take(k + 1) =~= us.take(k as int).push(us[k as int]));
            text::lemma_join_push(us.take(k as int), us[k as int], ", "@);
        }
        k += 1;
    }
    assert(us.take(updates@.len() as int) =~= us);
    text::push_str(&mut n, ". Open Settings → Providers to update.");
    Some(n)
}

/// Announcing is idempotent: right after a walk over `ps`, walking the
/// same providers again announces nothing.
pub proof fn law_each_update_announced_once(ps: Seq<ServerProvider>, seen: Set<Seq<char>>)
    ensures
        announced(ps, announced(ps, seen, ps.len() as int).0, ps.len() as int).1.len() == 0,
{
    let after = announced(ps, seen, ps.len() as int).0;
    lemma_walk_covers(ps, seen, ps.len() as int);
    lemma_walk_silent(ps, after, ps.len() as int);
}

proof fn lemma_walk_grows(ps: Seq<ServerProvider>, seen: Set<Seq<char>>, n: int)
    ensures
        seen.subset_of(announced(ps, seen, n).0),
    decreases n,
{
    if n > 0 && n <= ps.len() {
        lemma_walk_grows(ps, seen, n - 1);
    }
}

proof fn lemma_walk_covers(ps: Seq<ServerProvider>, seen: Set<Seq<char>>, n: int)
    requires
        n <= ps.len(),
    ensures
        forall|j: int| 0 <= j < n && behind(ps[j]) ==> announced(ps, seen, n).0.contains(#[trigger] notice_key(ps[j])),
    decreases n,
{
    if n > 0 {
        lemma_walk_covers(ps, seen, n - 1);
        let s = announced(ps, seen, n - 1).0;
        assert(s.subset_of(announced(ps, seen, n).0));
    }
}

proof fn lemma_walk_silent(ps: Seq<ServerProvider>, seen: Set<Seq<char>>, n: int)
    requires
        n <= ps.len(),
        forall|j: int| 0 <= j < n && behind(ps[j]) ==> seen.contains(#[trigger] notice_key(ps[j])),
    ensures
        announced(ps, seen, n).1.len() == 0,
        announced(ps, seen, n).0 == seen,
    decreases n,
{
    if n > 0 {
        lemma_walk_silent(ps, seen, n - 1);
    }
}

/// The sidecar process's state.
pub enum SidecarStatus {
    Idle,
    Starting { attempt: u64 },
    Ready { port: u16 },
    Backoff { delay_ms: u64 },
    Stopped { reason: String },
}

/// The status line for the sidecar.
pub open spec fn status_text(s: SidecarStatus) -> Seq<char> {
    match s {
        SidecarStatus::Idle => "sidecar: idle"@,
        SidecarStatus::Starting { attempt } => "sidecar: starting (attempt "@ + text::decimal(
            attempt as nat,
        ) + ")"@,
        SidecarStatus::Ready { port } => "sidecar: 127.0.0.1:"@ + text::decimal(port as nat),
        SidecarStatus::Backoff { delay_ms } => "sidecar: restarting in "@ + text::decimal(
            delay_ms as nat,
        ) + "ms"@,
        SidecarStatus::Stopped { reason } => "sidecar: stopped ("@ + reason@ + ")"@,
    }
}

fn decimal_text(n: u64) -> (s: String)
    ensures
        s@ == text::decimal(n as nat),
{
    text::decimal_string(n)
}

pub fn describe_status(status: &SidecarStatus) -> (r: String)
    ensures
        r@ == status_text(*status),
{
    match status {
        SidecarStatus::Idle => String::from_str("sidecar: idle"),
        SidecarStatus::Starting { attempt } => {
            let mut s = String::from_str("sidecar: starting (attempt ");
            text::push_str(&mut s, decimal_text(*attempt).as_str());
            text::push_str(&mut s, ")");
            s
        },
        SidecarStatus::Ready { port } => {
            let mut s = String::from_str("sidecar: 127.0.0.1:");
            text::push_str(&mut s, decimal_text(*port as u64).as_str());
            s
        },
        SidecarStatus::Backoff { delay_ms } => {
            let mut s = String::from_str("sidecar: restarting in ");
            text::push_str(&mut s, decimal_text(*delay_ms).as_str());
            text::push_str(&mut s, "ms");
            s
        },
        SidecarStatus::Stopped { reason } => {
            let mut s = String::from_str("sidecar: stopped (");
            text::push_str(&mut s, reason.as_str());
            text::push_str(&mut s, ")");
            s
        },
    }
}


pub open spec fn names_view(names: Seq<String>) -> Seq<Seq<char>> {
    names.map_values(|n: String| n@)
}

/// The notice while requests run long: none when nothing is slow, else
/// "Still waiting for <names, comma-separated>. The request is continuing."
pub open spec fn slow_message_spec(names: Seq<String>) -> Option<Seq<char>> {
    if names.len() == 0 {
        None
    } else {
        Some("Still waiting for "@ + text::join(names_view(names), ", "@)
            + ". The request is continuing."@)
    }
}

pub fn slow_request_message(names: &Vec<String>) -> (r: Option<String>)
    ensures
        match r {
            Some(m) => slow_message_spec(names@) == Some(m@),
            None => slow_message_spec(names@) is None,
        },
{
    if names.len() == 0 {
        return None;
    }
    let mut v: Vec<char> = Vec::new();
    text::push_literal(&mut v, "Still waiting for ");
    let ghost start = v@;
    let mut i: usize = 0;
    while i < names.len()
        invariant
            i <= names@.len(),
            names@.len() > 0,
            v@ == start + text::join(names_view(names@).take(i as int), ", "@),
        decreases names@.len() - i,
    {
        let ghost before = v@;
        proof {
            text::lemma_join_push(names_view(names@).take(i as int), names@[i as int]@, ", "@);
            assert(names_view(names@).take(i + 1) =~= names_view(names@).take(i as int).push(
                names@[i as int]@,
            ));
        }
        if i > 0 {
            text::push_literal(&mut v, ", ");
        }
        text::push_literal(&mut v, names[i].as_str());
        proof {
            if i > 0 {
                assert(v@ =~= start + (text::join(names_view(names@).take(i as int), ", "@) + ", "@
                    + names@[i as int]@));
            } else {
                assert(names_view(names@).take(0) =~= Seq::<Seq<char>>::empty());
                assert(v@ =~= start + names@[i as int]@);
            }
        }
        i += 1;
    }
    assert(names_view(names@).take(i as int) =~= names_view(names@));
    text::push_literal(&mut v, ". The request is continuing.");
    proof {
        reveal_strlit("Still waiting for ");
    }
    Some(text::string_from(&v))
}

/// The slow-request notice is shown once per change: when the message
/// differs from the one last shown, it becomes the last shown and, when
/// there is one, is pushed (returned); an unchanged message pushes nothing.
pub fn slow_notice_step(last_shown: &mut Option<String>, current: Option<String>) -> (push:
    Option<String>)
    ensures
        text::opt_seq(*final(last_shown)) == text::opt_seq(current),
        text::opt_seq(*old(last_shown)) == text::opt_seq(current) ==> push is None,
        text::opt_seq(*old(last_shown)) != text::opt_seq(current) ==> text::opt_seq(push)
            == text::opt_seq(current),
{
    let same = match (&*last_shown, &current) {
        (Some(a), Some(b)) => text::str_eq(a.as_str(), b.as_str()),
        (None, None) => true,
        _ => false,
    };
    if same {
        return None;
    }
    let copy = match &current {
        Some(c) => Some(text::string_from(&text::chars_of(c.as_str()))),
        None => None,
    };
    *last_shown = current;
    copy
}

} // verus!
