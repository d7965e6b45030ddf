//! The project-management record model and the rules the storage layer
//! enforces before writing: dependency graphs must stay acyclic, and a
//! save records a status-history entry for every ticket that is new or
//! whose status changed.
use vstd::prelude::*;

use crate::strutil::str_eq;

verus! {

// ── Record types ────────────────────────────────────────────────────

pub struct KvEntry {
    pub namespace: String,
    pub key: String,
    pub value: String,
    pub updated_at: String,
}

pub struct PmEpic {
    pub id: String,
    pub name: String,
    pub description: String,
    pub sort_order: i32,
    pub created_at: String,
    pub updated_at: String,
}

pub struct PmContextItem {
    pub id: String,
    pub kind: String,
    pub value: String,
}

pub struct PmTicket {
    pub id: String,
    pub epic_id: String,
    pub name: String,
    pub description: String,
    pub status: String,
    pub status_updated_at: String,
    pub sort_order: i32,
    pub working_directory: Option<String>,
    pub context: Option<Vec<PmContextItem>>,
    pub model_power: Option<String>,
    pub priority: String,
    pub needs_human_supervision: bool,
    pub created_at: String,
    pub updated_at: String,
}

pub struct PmTestCase {
    pub id: String,
    pub ticket_id: String,
    pub title: String,
    pub body: String,
    pub sort_order: i32,
    pub created_at: String,
    pub updated_at: String,
}

pub struct PmDependency {
    pub id: String,
    pub source_type: String,
    pub source_id: String,
    pub target_type: String,
    pub target_id: String,
}

pub struct PmStatusHistoryEntry {
    pub id: String,
    pub ticket_id: String,
    pub from_status: Option<String>,
    pub to_status: String,
    pub changed_at: String,
    pub source: String,
}

pub struct PmSavePayload {
    pub epics: Vec<PmEpic>,
    pub tickets: Vec<PmTicket>,
    pub test_cases: Vec<PmTestCase>,
    pub dependencies: Vec<PmDependency>,
}

pub struct PmState {
    pub epics: Vec<PmEpic>,
    pub tickets: Vec<PmTicket>,
    pub test_cases: Vec<PmTestCase>,
    pub dependencies: Vec<PmDependency>,
}

// ── Cycle detection ─────────────────────────────────────────────────

/// The dependency edges, as (source id, target id) pairs.
pub open spec fn edge_views(deps: Seq<PmDependency>) -> Seq<(Seq<char>, Seq<char>)> {
    deps.map_values(|d: PmDependency| (d.source_id@, d.target_id@))
}

/// A ranking witnesses acyclicity: every edge goes from a lower rank to a
/// higher one.
pub open spec fn is_ranked(
    edges: Seq<(Seq<char>, Seq<char>)>,
    rank: spec_fn(Seq<char>) -> nat,
) -> bool {
    forall|j: int| 0 <= j < edges.len() ==> rank((#[trigger] edges[j]).0) < rank(edges[j].1)
}

/// A finite edge list is acyclic exactly when its nodes admit a
/// topological ranking.
pub open spec fn is_acyclic(edges: Seq<(Seq<char>, Seq<char>)>) -> bool {
    exists|rank: spec_fn(Seq<char>) -> nat| is_ranked(edges, rank)
}

/// The views of a list of owned node ids.
pub open spec fn str_views(v: Seq<String>) -> Seq<Seq<char>> {
    v.map_values(|s: String| s@)
}

fn contains_string(v: &Vec<String>, x: &str) -> (r: bool)
    ensures
        r == str_views(v@).contains(x@),
{
    let mut i: usize = 0;
    while i < v.len()
        invariant
            i <= v@.len(),
            forall|j: int| 0 <= j < i ==> str_views(v@)[j] != x@,
        decreases v@.len() - i,
    {
        if str_eq(v[i].as_str(), x) {
            assert(str_views(v@)[i as int] == x@);
            return true;
        }
        i += 1;
    }
    proof {
        if str_views(v@).contains(x@) {
            let w = choose|w: int| 0 <= w < str_views(v@).len() && str_views(v@)[w] == x@;
            assert(str_views(v@)[w] != x@);
        }
    }
    false
}

/// Whether some dependency edge points at `v` from a node still in
/// `remaining`.
pub open spec fn has_incoming_spec(
    deps: Seq<PmDependency>,
    remaining: Seq<Seq<char>>,
    v: Seq<char>,
) -> bool {
    exists|j: int|
        0 <= j < deps.len() && (#[trigger] deps[j]).target_id@ == v && remaining.contains(
            deps[j].source_id@,
        )
}

fn has_incoming(deps: &[PmDependency], remaining: &Vec<String>, v: &str) -> (r: bool)
    ensures
        r == has_incoming_spec(deps@, str_views(remaining@), v@),
{
    let n = deps.len();
    let mut j: usize = 0;
    while j < n
        invariant
            j <= n,
            n == deps@.len(),
            forall|i: int|
                0 <= i < j ==> !((#[trigger] deps@[i]).target_id@ == v@ && str_views(
                    remaining@,
                ).contains(deps@[i].source_id@)),
        decreases n - j,
    {
        let d = &deps[j];
        if str_eq(d.target_id.as_str(), v) && contains_string(remaining, d.source_id.as_str()) {
            return true;
        }
        j += 1;
    }
    false
}

fn find_source_index(deps: &[PmDependency], remaining: &Vec<String>) -> (r: Option<usize>)
    ensures
        match r {
            Some(k) => k < remaining@.len() && !has_incoming_spec(
                deps@,
                str_views(remaining@),
                remaining@[k as int]@,
            ),
            None => forall|i: int|
                0 <= i < remaining@.len() ==> has_incoming_spec(
                    deps@,
                    str_views(remaining@),
                    (#[trigger] remaining@[i])@,
                ),
        },
{
    let mut k: usize = 0;
    while k < remaining.len()
        invariant
            k <= remaining@.len(),
            forall|i: int|
                0 <= i < k ==> has_incoming_spec(
                    deps@,
                    str_views(remaining@),
                    (#[trigger] remaining@[i])@,
                ),
        decreases remaining@.len() - k,
    {
        if !has_incoming(deps, remaining, remaining[k].as_str()) {
            return Some(k);
        }
        k += 1;
    }
    None
}

proof fn lemma_min_rank_index(s: Seq<Seq<char>>, rank: spec_fn(Seq<char>) -> nat) -> (mi: int)
    requires
        s.len() > 0,
    ensures
        0 <= mi < s.len(),
        forall|i: int| 0 <= i < s.len() ==> rank(s[mi]) <= rank(#[trigger] s[i]),
    decreases s.len(),
{
    if s.len() == 1 {
        0
    } else {
        let t = s.drop_first();
        let m2 = lemma_min_rank_index(t, rank);
        assert(forall|i: int| 0 <= i < t.len() ==> #[trigger] t[i] == s[i + 1]);
        if rank(s[0]) <= rank(t[m2]) {
            assert forall|i: int| 0 <= i < s.len() implies rank(s[0]) <= rank(#[trigger] s[i]) by {
                if i > 0 {
                    assert(s[i] == t[i - 1]);
                }
            }
            0
        } else {
            assert(s[m2 + 1] == t[m2]);
            assert forall|i: int|
                0 <= i < s.len() implies rank(s[m2 + 1]) <= rank(#[trigger] s[i]) by {
                if i > 0 {
                    assert(s[i] == t[i - 1]);
                }
            }
            m2 + 1
        }
    }
}

/// A nonempty set of nodes, each with an incoming edge from inside the
/// set, admits no topological ranking.
proof fn lemma_blocked_not_acyclic(deps: Seq<PmDependency>, rem: Seq<Seq<char>>)
    requires
        rem.len() > 0,
        forall|i: int|
            0 <= i < rem.len() ==> has_incoming_spec(deps, rem, #[trigger] rem[i]),
    ensures
        !is_acyclic(edge_views(deps)),
{
    let edges = edge_views(deps);
    assert forall|rank: spec_fn(Seq<char>) -> nat| !is_ranked(edges, rank) by {
        if is_ranked(edges, rank) {
            let mi = lemma_min_rank_index(rem, rank);
            let v = rem[mi];
            assert(has_incoming_spec(deps, rem, v));
            let j = choose|j: int|
                0 <= j < deps.len() && (#[trigger] deps[j]).target_id@ == v && rem.contains(
                    deps[j].source_id@,
                );
            let i0 = choose|i0: int| 0 <= i0 < rem.len() && rem[i0] == deps[j].source_id@;
            assert(edges[j] == (deps[j].source_id@, deps[j].target_id@));
            assert(rank(edges[j].0) < rank(edges[j].1));
            assert(rank(rem[mi]) <= rank(rem[i0]));
            assert(false);
        }
    }
}

/// Rejects a dependency list whose edges contain a cycle. Success is owed
/// exactly on acyclic graphs: the dependencies pass if and only if their
/// nodes can be topologically ranked.
pub fn validate_no_cycles(deps: &[PmDependency]) -> (r: Result<(), String>)
    ensures
        r is Ok <==> is_acyclic(edge_views(deps@)),
        r matches Err(m) ==> m@ == "Cycle detected in dependencies"@,
{
    // Collect the distinct node ids.
    let mut remaining: Vec<String> = Vec::new();
    let n = deps.len();
    let mut j: usize = 0;
    while j < n
        invariant
            j <= n,
            n == deps@.len(),
            forall|i1: int, i2: int|
                0 <= i1 < i2 < remaining@.len() ==> str_views(remaining@)[i1] != str_views(
                    remaining@,
                )[i2],
            forall|i: int|
                0 <= i < j ==> str_views(remaining@).contains(
                    (#[trigger] deps@[i]).source_id@,
                ) && str_views(remaining@).contains(deps@[i].target_id@),
        decreases n - j,
    {
        let ghost before = str_views(remaining@);
        if !contains_string(&remaining, deps[j].source_id.as_str()) {
            remaining.push(deps[j].source_id.clone());
            proof {
                assert(str_views(remaining@) =~= before.push(deps@[j as int].source_id@));
                lemma_push_new_distinct(before, deps@[j as int].source_id@);
            }
        }
        let ghost mid = str_views(remaining@);
        if !contains_string(&remaining, deps[j].target_id.as_str()) {
            remaining.push(deps[j].target_id.clone());
            proof {
                assert(str_views(remaining@) =~= mid.push(deps@[j as int].target_id@));
                lemma_push_new_distinct(mid, deps@[j as int].target_id@);
            }
        }
        proof {
            assert(str_views(remaining@).contains(deps@[j as int].source_id@));
            assert(str_views(remaining@).contains(deps@[j as int].target_id@));
        }
        j += 1;
    }

    // Repeatedly eliminate a node with no incoming edge from the rest;
    // the pop order is a topological ranking.
    let ghost mut ranks: Map<Seq<char>, nat> = Map::empty();
    let ghost mut t: nat = 0;
    while remaining.len() > 0
        invariant
            forall|i1: int, i2: int|
                0 <= i1 < i2 < remaining@.len() ==> str_views(remaining@)[i1] != str_views(
                    remaining@,
                )[i2],
            forall|id: Seq<char>| #[trigger]
                ranks.dom().contains(id) ==> !str_views(remaining@).contains(id) && ranks[id] < t,
            forall|i: int|
                0 <= i < deps@.len() ==> (!str_views(remaining@).contains(
                    (#[trigger] deps@[i]).source_id@,
                ) ==> ranks.dom().contains(deps@[i].source_id@)),
            forall|i: int|
                0 <= i < deps@.len() ==> (!str_views(remaining@).contains(
                    (#[trigger] deps@[i]).target_id@,
                ) ==> ranks.dom().contains(deps@[i].target_id@) && ranks.dom().contains(
                    deps@[i].source_id@,
                ) && !str_views(remaining@).contains(deps@[i].source_id@) && ranks[
                    deps@[i].source_id@
                ] < ranks[deps@[i].target_id@]),
        decreases remaining@.len(),
    {
        match find_source_index(deps, &remaining) {
            Some(k) => {
                let ghost before = str_views(remaining@);
                let ghost v = remaining@[k as int]@;
                let ghost ranks0 = ranks;
                let ghost t0 = t;
                remaining.remove(k);
                proof {
                    let new_views = str_views(remaining@);
                    assert(new_views =~= before.remove(k as int));
                    lemma_remove_distinct_contains(before, k as int);
                    assert(before[k as int] == v);
                    assert(before.contains(v));
                    ranks = ranks.insert(v, t);
                    t = t + 1;
                    assert forall|id: Seq<char>| #[trigger]
                        ranks.dom().contains(id) implies !str_views(remaining@).contains(id)
                            && ranks[id] < t by {
                        assert(str_views(remaining@) == new_views);
                        if id == v {
                            assert(!new_views.contains(v));
                            assert(ranks[v] == t0);
                        } else {
                            assert(ranks0.dom().contains(id));
                            assert(ranks0[id] < t0);
                            assert(!before.contains(id));
                            assert(ranks[id] == ranks0[id]);
                        }
                    }
                    assert forall|i: int|
                        0 <= i < deps@.len() implies (!new_views.contains(
                        (#[trigger] deps@[i]).source_id@,
                    ) ==> ranks.dom().contains(deps@[i].source_id@)) by {
                        let src = deps@[i].source_id@;
                        if !new_views.contains(src) && src != v {
                            assert(!before.contains(src));
                        }
                    }
                    assert forall|i: int|
                        0 <= i < deps@.len() implies (!new_views.contains(
                        (#[trigger] deps@[i]).target_id@,
                    ) ==> ranks.dom().contains(deps@[i].target_id@) && ranks.dom().contains(
                        deps@[i].source_id@,
                    ) && !new_views.contains(deps@[i].source_id@) && ranks[deps@[i].source_id@]
                        < ranks[deps@[i].target_id@]) by {
                        let src = deps@[i].source_id@;
                        let tgt = deps@[i].target_id@;
                        if !new_views.contains(tgt) {
                            if tgt == v {
                                assert(!(deps@[i].target_id@ == v && before.contains(src)));
                                assert(!before.contains(src));
                                assert(ranks0.dom().contains(src) && ranks0[src] < t0);
                                assert(src != v);
                                assert(ranks[src] == ranks0[src]);
                                assert(ranks[tgt] == t0);
                                assert(!new_views.contains(src));
                            } else {
                                assert(!before.contains(tgt));
                                assert(ranks0.dom().contains(tgt) && ranks0.dom().contains(src)
                                    && !before.contains(src) && ranks0[src] < ranks0[tgt]);
                                assert(src != v && tgt != v);
                                assert(ranks[src] == ranks0[src] && ranks[tgt] == ranks0[tgt]);
                                assert(!new_views.contains(src));
                            }
                        }
                    }
                }
            },
            None => {
                proof {
                    lemma_blocked_not_acyclic(deps@, str_views(remaining@));
                }
                return Err(String::from_str("Cycle detected in dependencies"));
            },
        }
    }
    proof {
        let edges = edge_views(deps@);
        let rank_fn = |id: Seq<char>|
            if ranks.dom().contains(id) {
                ranks[id]
            } else {
                0nat
            };
        assert(str_views(remaining@).len() == 0);
        assert forall|j2: int|
            0 <= j2 < edges.len() implies rank_fn((#[trigger] edges[j2]).0) < rank_fn(
            edges[j2].1,
        ) by {
            assert(edges[j2] == (deps@[j2].source_id@, deps@[j2].target_id@));
            assert(!str_views(remaining@).contains(deps@[j2].target_id@));
        }
        assert(is_ranked(edges, rank_fn));
    }
    Ok(())
}

proof fn lemma_push_new_distinct(before: Seq<Seq<char>>, x: Seq<char>)
    requires
        forall|i1: int, i2: int| 0 <= i1 < i2 < before.len() ==> before[i1] != before[i2],
        !before.contains(x),
    ensures
        forall|i1: int, i2: int|
            0 <= i1 < i2 < before.push(x).len() ==> before.push(x)[i1] != before.push(x)[i2],
        forall|id: Seq<char>| #[trigger]
            before.push(x).contains(id) <==> before.contains(id) || id == x,
{
    let after = before.push(x);
    assert forall|i1: int, i2: int|
        0 <= i1 < i2 < after.len() implies after[i1] != after[i2] by {
        if i2 < after.len() - 1 {
            assert(after[i1] == before[i1] && after[i2] == before[i2]);
        } else {
            assert(after[i2] == x);
            assert(after[i1] == before[i1]);
            assert(before.contains(before[i1]));
        }
    }
    assert forall|id: Seq<char>| #[trigger]
        after.contains(id) <==> before.contains(id) || id == x by {
        if after.contains(id) {
            let w = choose|w: int| 0 <= w < after.len() && after[w] == id;
            if w < after.len() - 1 {
                assert(before[w] == id);
            }
        }
        if before.contains(id) {
            let w = choose|w: int| 0 <= w < before.len() && before[w] == id;
            assert(after[w] == id);
        }
        if id == x {
            assert(after[after.len() - 1] == id);
        }
    }
}

proof fn lemma_remove_distinct_contains(s: Seq<Seq<char>>, k: int)
    requires
        0 <= k < s.len(),
        forall|i1: int, i2: int| 0 <= i1 < i2 < s.len() ==> s[i1] != s[i2],
    ensures
        !s.remove(k).contains(s[k]),
        forall|id: Seq<char>|
            id != s[k] ==> (s.remove(k).contains(id) <==> s.contains(id)),
        forall|i1: int, i2: int|
            0 <= i1 < i2 < s.remove(k).len() ==> s.remove(k)[i1] != s.remove(k)[i2],
{
    let r = s.remove(k);
    assert forall|i: int| 0 <= i < r.len() implies r[i] != s[k] by {
        if i < k {
            assert(r[i] == s[i]);
        } else {
            assert(r[i] == s[i + 1]);
        }
    }
    if r.contains(s[k]) {
        let w = choose|w: int| 0 <= w < r.len() && r[w] == s[k];
        assert(r[w] != s[k]);
    }
    assert forall|id: Seq<char>|
        id != s[k] implies (r.contains(id) <==> s.contains(id)) by {
        if r.contains(id) {
            let w = choose|w: int| 0 <= w < r.len() && r[w] == id;
            if w < k {
                assert(s[w] == id);
            } else {
                assert(s[w + 1] == id);
            }
        }
        if s.contains(id) {
            let w = choose|w: int| 0 <= w < s.len() && s[w] == id;
            if w < k {
                assert(r[w] == id);
            } else if w > k {
                assert(r[w - 1] == id);
            }
        }
    }
    assert forall|i1: int, i2: int|
        0 <= i1 < i2 < r.len() implies r[i1] != r[i2] by {
        let o1 = if i1 < k {
            i1
        } else {
            i1 + 1
        };
        let o2 = if i2 < k {
            i2
        } else {
            i2 + 1
        };
        assert(r[i1] == s[o1]);
        assert(r[i2] == s[o2]);
    }
}

// ── Status-history tracking ─────────────────────────────────────────

/// One history row a save writes: the ticket, the status it came from
/// (none for a new ticket), and the status it now carries.
pub struct StatusHistoryUpdate {
    pub ticket_id: String,
    pub from_status: Option<String>,
    pub to_status: String,
}

/// First status bound to the given ticket id among the pre-save rows.
pub open spec fn old_status_of(old: Seq<(String, String)>, id: Seq<char>) -> Option<Seq<char>>
    decreases old.len(),
{
    if old.len() == 0 {
        None
    } else if old[0].0@ == id {
        Some(old[0].1@)
    } else {
        old_status_of(old.drop_first(), id)
    }
}

/// The history rows a save writes, in ticket order: a change row when a
/// ticket's status differs from its stored one, a creation row when the
/// ticket is new, nothing when the status is unchanged.
pub open spec fn history_updates_spec(
    old: Seq<(String, String)>,
    tickets: Seq<PmTicket>,
) -> Seq<(Seq<char>, Option<Seq<char>>, Seq<char>)>
    decreases tickets.len(),
{
    if tickets.len() == 0 {
        Seq::empty()
    } else {
        let tk = tickets[0];
        let head: Seq<(Seq<char>, Option<Seq<char>>, Seq<char>)> = match old_status_of(
            old,
            tk.id@,
        ) {
            Some(os) => if os != tk.status@ {
                seq![(tk.id@, Some(os), tk.status@)]
            } else {
                Seq::empty()
            },
            None => seq![(tk.id@, None, tk.status@)],
        };
        head + history_updates_spec(old, tickets.drop_first())
    }
}

/// View of one computed history row.
pub open spec fn update_view(u: StatusHistoryUpdate) -> (Seq<char>, Option<Seq<char>>, Seq<char>) {
    (
        u.ticket_id@,
        match u.from_status {
            Some(s) => Some(s@),
            None => None,
        },
        u.to_status@,
    )
}

fn lookup_old_status(old: &Vec<(String, String)>, id: &str) -> (r: Option<String>)
    ensures
        match r {
            Some(s) => old_status_of(old@, id@) == Some(s@),
            None => old_status_of(old@, id@) is None,
        },
{
    let mut i: usize = 0;
    proof {
        assert(old@.skip(0) =~= old@);
    }
    while i < old.len()
        invariant
            i <= old@.len(),
            old_status_of(old@, id@) == old_status_of(old@.skip(i as int), id@),
        decreases old@.len() - i,
    {
        proof {
            assert(old@.skip(i as int)[0] == old@[i as int]);
            assert(old@.skip(i as int).drop_first() =~= old@.skip(i + 1 as int));
        }
        if str_eq(old[i].0.as_str(), id) {
            return Some(old[i].1.clone());
        }
        i += 1;
    }
    proof {
        assert(old@.skip(old@.len() as int).len() == 0);
    }
    None
}

/// Computes the status-history rows one save writes, from the pre-save
/// (ticket id, status) rows and the tickets being saved.
pub fn status_history_updates(old: &Vec<(String, String)>, tickets: &Vec<PmTicket>) -> (r: Vec<
    StatusHistoryUpdate,
>)
    ensures
        r@.map_values(|u: StatusHistoryUpdate| update_view(u)) == history_updates_spec(
            old@,
            tickets@,
        ),
{
    let mut r: Vec<StatusHistoryUpdate> = Vec::new();
    let mut i: usize = 0;
    proof {
        assert(tickets@.skip(0) =~= tickets@);
        assert(r@.map_values(|u: StatusHistoryUpdate| update_view(u)) =~= Seq::<
            (Seq<char>, Option<Seq<char>>, Seq<char>),
        >::empty());
    }
    while i < tickets.len()
        invariant
            i <= tickets@.len(),
            history_updates_spec(old@, tickets@) == r@.map_values(
                |u: StatusHistoryUpdate| update_view(u),
            ) + history_updates_spec(old@, tickets@.skip(i as int)),
        decreases tickets@.len() - i,
    {
        let ghost rv_before = r@.map_values(|u: StatusHistoryUpdate| update_view(u));
        proof {
            assert(tickets@.skip(i as int)[0] == tickets@[i as int]);
            assert(tickets@.skip(i as int).drop_first() =~= tickets@.skip(i + 1 as int));
        }
        match lookup_old_status(old, tickets[i].id.as_str()) {
            Some(os) => {
                if !str_eq(os.as_str(), tickets[i].status.as_str()) {
                    r.push(
                        StatusHistoryUpdate {
                            ticket_id: tickets[i].id.clone(),
                            from_status: Some(os),
                            to_status: tickets[i].status.clone(),
                        },
                    );
                }
            },
            None => {
                r.push(
                    StatusHistoryUpdate {
                        ticket_id: tickets[i].id.clone(),
                        from_status: None,
                        to_status: tickets[i].status.clone(),
                    },
                );
            },
        }
        proof {
            let rv = r@.map_values(|u: StatusHistoryUpdate| update_view(u));
            let tk = tickets@[i as int];
            let head: Seq<(Seq<char>, Option<Seq<char>>, Seq<char>)> = match old_status_of(
                old@,
                tk.id@,
            ) {
                Some(os) => if os != tk.status@ {
                    seq![(tk.id@, Some(os), tk.status@)]
                } else {
                    Seq::<(Seq<char>, Option<Seq<char>>, Seq<char>)>::empty()
                },
                None => seq![(tk.id@, None, tk.status@)],
            };
            assert(rv =~= rv_before + head);
            assert(rv_before + (head + history_updates_spec(old@, tickets@.skip(i + 1))) =~= (
            rv_before + head) + history_updates_spec(old@, tickets@.skip(i + 1)));
        }
        i += 1;
    }
    proof {
        assert(history_updates_spec(old@, tickets@.skip(tickets@.len() as int)) =~= Seq::<
            (Seq<char>, Option<Seq<char>>, Seq<char>),
        >::empty());
        assert(r@.map_values(|u: StatusHistoryUpdate| update_view(u)) + Seq::<
            (Seq<char>, Option<Seq<char>>, Seq<char>),
        >::empty() =~= r@.map_values(|u: StatusHistoryUpdate| update_view(u)));
    }
    r
}

} // verus!
