//! Process-table views: one parsed row of the system process listing, the
//! descendants of a given process, and the memory summary shown to the
//! client. Running the listing itself is I/O and stays with the caller.
use vstd::prelude::*;

use crate::providers::join_parts;
use crate::providers::join_spaces;
use crate::providers::part_views;
use crate::strutil::digits_val;
use crate::strutil::parse_u32_digits;
use crate::strutil::parse_u64_digits;
use crate::strutil::parses_uint;
use crate::strutil::split_words;
use crate::strutil::str_contains;
use crate::strutil::words;

verus! {

/// One row of the system process listing.
pub struct PsEntry {
    pub pid: u32,
    pub ppid: u32,
    pub rss_kb: u64,
    pub command: String,
}

pub ghost struct PsEntryV {
    pub pid: u32,
    pub ppid: u32,
    pub rss_kb: u64,
    pub command: Seq<char>,
}

impl View for PsEntry {
    type V = PsEntryV;

    open spec fn view(&self) -> PsEntryV {
        PsEntryV { pid: self.pid, ppid: self.ppid, rss_kb: self.rss_kb, command: self.command@ }
    }
}

/// One aggregated line of the memory panel.
pub struct SystemProcessEntry {
    pub label: String,
    pub pid: u32,
    pub rss_bytes: u64,
}

/// Whether `pid` is a strict descendant of `root` through the parent links
/// of the listing, witnessed by a chain of the given length.
pub open spec fn is_descendant(entries: Seq<PsEntry>, root: u32, pid: u32, fuel: nat) -> bool
    decreases fuel,
{
    fuel > 0 && exists|j: int|
        0 <= j < entries.len() && (#[trigger] entries[j]).pid == pid && (entries[j].ppid == root
            || is_descendant(entries, root, entries[j].ppid, (fuel - 1) as nat))
}

fn contains_u32(v: &Vec<u32>, x: u32) -> (r: bool)
    ensures
        r == v@.contains(x),
{
    let mut i: usize = 0;
    while i < v.len()
        invariant
            i <= v@.len(),
            forall|j: int| 0 <= j < i ==> v@[j] != x,
        decreases v@.len() - i,
    {
        if v[i] == x {
            assert(v@[i as int] == x);
            return true;
        }
        i += 1;
    }
    proof {
        if v@.contains(x) {
            let w = choose|w: int| 0 <= w < v@.len() && v@[w] == x;
            assert(v@[w] != x);
        }
    }
    false
}

fn clone_ps_entry(e: &PsEntry) -> (r: PsEntry)
    ensures
        r@ == e@,
{
    PsEntry { pid: e.pid, ppid: e.ppid, rss_kb: e.rss_kb, command: e.command.clone() }
}

proof fn lemma_distinct_pids_bounded(vs: Seq<u32>, entries: Seq<PsEntry>, root: u32)
    requires
        forall|i1: int, i2: int| 0 <= i1 < i2 < vs.len() ==> vs[i1] != vs[i2],
        forall|i: int|
            0 <= i < vs.len() ==> (#[trigger] vs[i]) == root || exists|j: int|
                0 <= j < entries.len() && (#[trigger] entries[j]).pid == vs[i],
    ensures
        vs.len() <= entries.len() + 1,
{
    let pids = entries.map_values(|e: PsEntry| e.pid);
    let bound = pids.to_set().insert(root);
    assert(vs.no_duplicates());
    vs.unique_seq_to_set();
    assert forall|x: u32| vs.to_set().contains(x) implies bound.contains(x) by {
        let i = choose|i: int| 0 <= i < vs.len() && vs[i] == x;
        assert(vs[i] == root || exists|j: int|
            0 <= j < entries.len() && (#[trigger] entries[j]).pid == vs[i]);
        if vs[i] != root {
            let j = choose|j: int|
                0 <= j < entries.len() && (#[trigger] entries[j]).pid == vs[i];
            assert(pids[j] == x);
            assert(pids.to_set().contains(x));
        }
    }
    assert(vs.to_set().subset_of(bound));
    vstd::set_lib::lemma_len_subset(vs.to_set(), bound);
    pids.lemma_cardinality_of_set();
    assert(bound.len() <= pids.to_set().len() + 1);
}

/// Some chain of parent links connects `pid` up to `root`.
pub open spec fn desc_some(entries: Seq<PsEntry>, root: u32, pid: u32) -> bool {
    exists|f: nat| is_descendant(entries, root, pid, f)
}

/// Some row of the listing carries this pid.
pub open spec fn entry_pid_exists(entries: Seq<PsEntry>, pid: u32) -> bool {
    exists|j: int| 0 <= j < entries.len() && (#[trigger] entries[j]).pid == pid
}

/// Some row of the listing reads exactly like this one.
pub open spec fn entry_row_exists(entries: Seq<PsEntry>, row: PsEntryV) -> bool {
    exists|j: int| 0 <= j < entries.len() && (#[trigger] entries[j])@ == row
}

spec fn pids_distinct(vs: Seq<u32>) -> bool {
    forall|i1: int, i2: int| 0 <= i1 < i2 < vs.len() ==> vs[i1] != vs[i2]
}

spec fn visited_sources(entries: Seq<PsEntry>, root: u32, vs: Seq<u32>) -> bool {
    forall|i: int| 0 <= i < vs.len() ==> (#[trigger] vs[i]) == root || entry_pid_exists(entries, vs[i])
}

spec fn all_rooted(entries: Seq<PsEntry>, root: u32, ps: Seq<u32>) -> bool {
    forall|i: int| 0 <= i < ps.len() ==> (#[trigger] ps[i]) == root || desc_some(entries, root, ps[i])
}

spec fn results_ok(entries: Seq<PsEntry>, root: u32, rs: Seq<PsEntry>, vs: Seq<u32>) -> bool {
    &&& forall|k: int| 0 <= k < rs.len() ==> desc_some(entries, root, (#[trigger] rs[k]).pid)
    &&& forall|k: int| 0 <= k < rs.len() ==> entry_row_exists(entries, (#[trigger] rs[k])@)
    &&& forall|k: int| 0 <= k < rs.len() ==> vs.contains((#[trigger] rs[k]).pid)
    &&& forall|k1: int, k2: int|
        0 <= k1 < k2 < rs.len() ==> (#[trigger] rs[k1]).pid != (#[trigger] rs[k2]).pid
    &&& forall|k: int| 0 <= k < rs.len() ==> (#[trigger] rs[k]).pid != root
}

/// Every visited pid other than the root stands in the result.
spec fn covers(rs: Seq<PsEntry>, vs: Seq<u32>, root: u32) -> bool {
    forall|i: int|
        0 <= i < vs.len() ==> ((#[trigger] vs[i]) == root || exists|k: int|
            0 <= k < rs.len() && (#[trigger] rs[k]).pid == vs[i])
}

/// Every listing row whose parent pid is visited and off the frontier has
/// its own pid visited too: the visited set is closed but for the frontier
/// still to be expanded.
spec fn closed_except(entries: Seq<PsEntry>, vs: Seq<u32>, frontier: Seq<u32>) -> bool {
    forall|j: int|
        0 <= j < entries.len() ==> ((vs.contains((#[trigger] entries[j]).ppid)
            && !frontier.contains(entries[j].ppid)) ==> vs.contains(entries[j].pid))
}

proof fn lemma_contains_concat(a: Seq<u32>, b: Seq<u32>, x: u32)
    ensures
        (a + b).contains(x) <==> a.contains(x) || b.contains(x),
{
    if (a + b).contains(x) {
        let w = choose|w: int| 0 <= w < (a + b).len() && (a + b)[w] == x;
        if w < a.len() {
            assert(a[w] == x);
        } else {
            assert(b[w - a.len()] == x);
        }
    }
    if a.contains(x) {
        let w = choose|w: int| 0 <= w < a.len() && a[w] == x;
        assert((a + b)[w] == x);
    }
    if b.contains(x) {
        let w = choose|w: int| 0 <= w < b.len() && b[w] == x;
        assert((a + b)[a.len() + w] == x);
    }
}

/// In a visited set that contains the root and is closed under parent
/// links, every pid reachable from the root is visited.
proof fn lemma_desc_implies_visited(
    entries: Seq<PsEntry>,
    root: u32,
    vs: Seq<u32>,
    pid: u32,
    f: nat,
)
    requires
        vs.contains(root),
        closed_except(entries, vs, Seq::<u32>::empty()),
        is_descendant(entries, root, pid, f),
    ensures
        vs.contains(pid),
    decreases f,
{
    let j = choose|j: int|
        0 <= j < entries.len() && (#[trigger] entries[j]).pid == pid && (entries[j].ppid == root
            || is_descendant(entries, root, entries[j].ppid, (f - 1) as nat));
    if entries[j].ppid != root {
        lemma_desc_implies_visited(entries, root, vs, entries[j].ppid, (f - 1) as nat);
    }
    assert(vs.contains(entries[j].ppid));
    if Seq::<u32>::empty().contains(entries[j].ppid) {
        let w = choose|w: int|
            0 <= w < Seq::<u32>::empty().len() && Seq::<u32>::empty()[w] == entries[j].ppid;
    }
    assert(vs.contains(entries[j].pid));
}

/// Collects exactly the strict descendants of `root_pid` through the
/// listing's parent links: each returned row stands in the listing, is
/// reachable from the root, and carries a pid distinct from the root's and
/// from every other returned row's; conversely, every pid reachable from
/// the root other than the root's own appears in the result.
pub fn find_descendants(root_pid: u32, entries: &[PsEntry]) -> (r: Vec<PsEntry>)
    ensures
        forall|k: int| 0 <= k < r@.len() ==> desc_some(entries@, root_pid, (#[trigger] r@[k]).pid),
        forall|k: int| 0 <= k < r@.len() ==> entry_row_exists(entries@, (#[trigger] r@[k])@),
        forall|k1: int, k2: int|
            0 <= k1 < k2 < r@.len() ==> (#[trigger] r@[k1]).pid != (#[trigger] r@[k2]).pid,
        forall|k: int| 0 <= k < r@.len() ==> (#[trigger] r@[k]).pid != root_pid,
        forall|pid: u32|
            pid != root_pid && #[trigger] desc_some(entries@, root_pid, pid) ==> exists|k: int|
                0 <= k < r@.len() && (#[trigger] r@[k]).pid == pid,
{
    let mut result: Vec<PsEntry> = Vec::new();
    let mut visited: Vec<u32> = Vec::new();
    visited.push(root_pid);
    let mut parents: Vec<u32> = Vec::new();
    parents.push(root_pid);
    proof {
        assert(visited@[0] == root_pid);
        assert(visited@.contains(root_pid));
        assert(visited@.len() <= entries@.len() + 1);
        assert forall|j: int|
            0 <= j < entries@.len() implies ((visited@.contains((#[trigger] entries@[j]).ppid)
            && !parents@.contains(entries@[j].ppid)) ==> visited@.contains(
            entries@[j].pid,
        )) by {
            if visited@.contains(entries@[j].ppid) {
                let w = choose|w: int| 0 <= w < visited@.len() && visited@[w] == entries@[j].ppid;
                assert(parents@[0] == entries@[j].ppid);
                assert(parents@.contains(entries@[j].ppid));
            }
        }
        assert(closed_except(entries@, visited@, parents@));
        assert(covers(result@, visited@, root_pid));
    }

    while parents.len() > 0
        invariant
            visited@.contains(root_pid),
            pids_distinct(visited@),
            visited_sources(entries@, root_pid, visited@),
            visited@.len() <= entries@.len() + 1,
            all_rooted(entries@, root_pid, parents@),
            results_ok(entries@, root_pid, result@, visited@),
            closed_except(entries@, visited@, parents@),
            covers(result@, visited@, root_pid),
        decreases entries@.len() + 1 - visited@.len(), parents@.len(),
    {
        let ghost visited_at_round_start = visited@;
        let mut next_parents: Vec<u32> = Vec::new();
        let mut idx: usize = 0;
        proof {
            assert(visited@ =~= visited_at_round_start + next_parents@);
        }
        while idx < entries.len()
            invariant
                visited@.contains(root_pid),
                pids_distinct(visited@),
                visited_sources(entries@, root_pid, visited@),
                visited@.len() <= entries@.len() + 1,
                visited@ == visited_at_round_start + next_parents@,
                all_rooted(entries@, root_pid, parents@),
                all_rooted(entries@, root_pid, next_parents@),
                results_ok(entries@, root_pid, result@, visited@),
                closed_except(entries@, visited_at_round_start, parents@),
                covers(result@, visited@, root_pid),
                forall|j: int|
                    0 <= j < idx ==> (parents@.contains((#[trigger] entries@[j]).ppid)
                        ==> visited@.contains(entries@[j].pid)),
            decreases entries@.len() - idx,
        {
            let e_ppid = entries[idx].ppid;
            let e_pid = entries[idx].pid;
            if contains_u32(&parents, e_ppid) && !contains_u32(&visited, e_pid) {
                proof {
                    // the entry descends from the root: directly, or through
                    // a parent that already does
                    let pi = choose|pi: int| 0 <= pi < parents@.len() && parents@[pi] == e_ppid;
                    assert(parents@[pi] == root_pid || desc_some(entries@, root_pid, parents@[pi]));
                    if e_ppid == root_pid {
                        assert(entries@[idx as int].pid == e_pid);
                        assert(is_descendant(entries@, root_pid, e_pid, 1));
                    } else {
                        let f = choose|f: nat| is_descendant(entries@, root_pid, e_ppid, f);
                        assert(entries@[idx as int].pid == e_pid);
                        assert(is_descendant(entries@, root_pid, entries@[idx as int].ppid, f));
                        assert(is_descendant(entries@, root_pid, e_pid, f + 1));
                    }
                    assert(desc_some(entries@, root_pid, e_pid));
                    assert(e_pid != root_pid);
                }
                let ghost old_visited = visited@;
                let ghost old_result = result@;
                let ghost old_next = next_parents@;
                visited.push(e_pid);
                result.push(clone_ps_entry(&entries[idx]));
                next_parents.push(e_pid);
                proof {
                    assert forall|w: u32| old_visited.contains(w) implies visited@.contains(w) by {
                        let wi = choose|wi: int| 0 <= wi < old_visited.len() && old_visited[wi] == w;
                        assert(visited@[wi] == w);
                    }
                    assert(visited@.contains(root_pid));
                    assert(visited@.last() == e_pid);
                    assert(visited@.contains(e_pid));
                    assert forall|i1: int, i2: int|
                        0 <= i1 < i2 < visited@.len() implies visited@[i1] != visited@[i2] by {
                        if i2 == visited@.len() - 1 {
                            assert(visited@[i1] == old_visited[i1]);
                            assert(old_visited.contains(old_visited[i1]));
                        } else {
                            assert(visited@[i1] == old_visited[i1]);
                            assert(visited@[i2] == old_visited[i2]);
                        }
                    }
                    assert(pids_distinct(visited@));
                    assert forall|i: int|
                        0 <= i < visited@.len() implies (#[trigger] visited@[i]) == root_pid
                            || entry_pid_exists(entries@, visited@[i]) by {
                        if i < visited@.len() - 1 {
                            assert(visited@[i] == old_visited[i]);
                        } else {
                            assert(visited@[i] == e_pid);
                            assert(entries@[idx as int].pid == e_pid);
                            assert(entry_pid_exists(entries@, e_pid));
                        }
                    }
                    assert(visited_sources(entries@, root_pid, visited@));
                    lemma_distinct_pids_bounded(visited@, entries@, root_pid);
                    assert forall|i: int|
                        0 <= i < next_parents@.len() implies (#[trigger] next_parents@[i])
                            == root_pid || desc_some(entries@, root_pid, next_parents@[i]) by {
                        if i < next_parents@.len() - 1 {
                            assert(next_parents@[i] == old_next[i]);
                        } else {
                            assert(next_parents@[i] == e_pid);
                        }
                    }
                    assert(all_rooted(entries@, root_pid, next_parents@));
                    assert(result@.last()@ == entries@[idx as int]@);
                    assert(result@.last().pid == e_pid);
                    assert forall|k: int|
                        0 <= k < result@.len() implies desc_some(
                        entries@,
                        root_pid,
                        (#[trigger] result@[k]).pid,
                    ) && entry_row_exists(entries@, result@[k]@) && visited@.contains(
                        result@[k].pid,
                    ) && result@[k].pid != root_pid by {
                        if k < result@.len() - 1 {
                            assert(result@[k] == old_result[k]);
                            assert(desc_some(entries@, root_pid, old_result[k].pid));
                            assert(entry_row_exists(entries@, old_result[k]@));
                            assert(old_visited.contains(old_result[k].pid));
                        } else {
                            assert(entry_row_exists(entries@, result@[k]@)) by {
                                assert(entries@[idx as int]@ == result@[k]@);
                            }
                        }
                    }
                    assert forall|k1: int, k2: int|
                        0 <= k1 < k2 < result@.len() implies (#[trigger] result@[k1]).pid != (
                    #[trigger] result@[k2]).pid by {
                        if k2 == result@.len() - 1 {
                            assert(result@[k1] == old_result[k1]);
                            assert(old_visited.contains(old_result[k1].pid));
                        } else {
                            assert(result@[k1] == old_result[k1]);
                            assert(result@[k2] == old_result[k2]);
                        }
                    }
                    assert(results_ok(entries@, root_pid, result@, visited@));
                    assert(visited@ =~= visited_at_round_start + next_parents@);
                    assert forall|i: int|
                        0 <= i < visited@.len() implies ((#[trigger] visited@[i]) == root_pid
                            || exists|k: int|
                            0 <= k < result@.len() && (#[trigger] result@[k]).pid
                                == visited@[i]) by {
                        if i < visited@.len() - 1 {
                            assert(visited@[i] == old_visited[i]);
                            if old_visited[i] != root_pid {
                                let k = choose|k: int|
                                    0 <= k < old_result.len() && (#[trigger] old_result[k]).pid
                                        == old_visited[i];
                                assert(result@[k] == old_result[k]);
                                assert(result@[k].pid == visited@[i]);
                            }
                        } else {
                            assert(visited@[i] == e_pid);
                            assert(result@[result@.len() - 1].pid == e_pid);
                        }
                    }
                    assert(covers(result@, visited@, root_pid));
                    assert forall|j: int|
                        0 <= j < idx + 1 implies (parents@.contains(
                        (#[trigger] entries@[j]).ppid,
                    ) ==> visited@.contains(entries@[j].pid)) by {
                        if j < idx {
                            if parents@.contains(entries@[j].ppid) {
                                assert(old_visited.contains(entries@[j].pid));
                            }
                        } else {
                            assert(visited@.contains(e_pid));
                        }
                    }
                }
            } else {
                proof {
                    assert forall|j: int|
                        0 <= j < idx + 1 implies (parents@.contains(
                        (#[trigger] entries@[j]).ppid,
                    ) ==> visited@.contains(entries@[j].pid)) by {
                        if j == idx {
                            assert(entries@[j].ppid == e_ppid && entries@[j].pid == e_pid);
                        }
                    }
                }
            }
            idx += 1;
        }
        proof {
            // the round's scan expanded the whole frontier, so together with
            // the closure from the round start the visited set is closed but
            // for the new frontier
            assert forall|j: int|
                0 <= j < entries@.len() implies ((visited@.contains((#[trigger] entries@[j]).ppid)
                && !next_parents@.contains(entries@[j].ppid)) ==> visited@.contains(
                entries@[j].pid,
            )) by {
                if visited@.contains(entries@[j].ppid) && !next_parents@.contains(
                    entries@[j].ppid,
                ) {
                    lemma_contains_concat(visited_at_round_start, next_parents@, entries@[j].ppid);
                    assert(visited_at_round_start.contains(entries@[j].ppid));
                    if parents@.contains(entries@[j].ppid) {
                        assert(visited@.contains(entries@[j].pid));
                    } else {
                        assert(visited_at_round_start.contains(entries@[j].pid));
                        lemma_contains_concat(
                            visited_at_round_start,
                            next_parents@,
                            entries@[j].pid,
                        );
                    }
                }
            }
        }
        parents = next_parents;
    }
    proof {
        // an empty frontier leaves the visited set fully closed, so every
        // reachable pid is visited, and every visited non-root pid stands in
        // the result
        assert forall|j: int|
            0 <= j < entries@.len() implies ((visited@.contains((#[trigger] entries@[j]).ppid)
            && !Seq::<u32>::empty().contains(entries@[j].ppid)) ==> visited@.contains(
            entries@[j].pid,
        )) by {
            if parents@.contains(entries@[j].ppid) {
                let w = choose|w: int|
                    0 <= w < parents@.len() && parents@[w] == entries@[j].ppid;
            }
        }
        assert(closed_except(entries@, visited@, Seq::<u32>::empty()));
        assert forall|pid: u32|
            pid != root_pid && #[trigger] desc_some(entries@, root_pid, pid) implies exists|k: int|
            0 <= k < result@.len() && (#[trigger] result@[k]).pid == pid by {
            let f = choose|f: nat| is_descendant(entries@, root_pid, pid, f);
            lemma_desc_implies_visited(entries@, root_pid, visited@, pid, f);
            let i = choose|i: int| 0 <= i < visited@.len() && visited@[i] == pid;
            assert(visited@[i] == root_pid || exists|k: int|
                0 <= k < result@.len() && (#[trigger] result@[k]).pid == visited@[i]);
        }
    }
    result
}

/// One parsed row of the listing: the parse succeeds exactly when the line
/// splits into at least four blank-separated fields whose first three are
/// in-range decimal numbers. The fields are pid, parent pid and resident
/// size; the rest, joined with single spaces, is the command.
pub fn parse_ps_line(line: &str) -> (r: Option<PsEntry>)
    ensures
        ({
            let w = words(line@);
            match r {
                Some(e) => {
                    &&& w.len() >= 4
                    &&& parses_uint(w[0], u32::MAX as nat) && e.pid == digits_val(w[0])
                    &&& parses_uint(w[1], u32::MAX as nat) && e.ppid == digits_val(w[1])
                    &&& parses_uint(w[2], u64::MAX as nat) && e.rss_kb == digits_val(w[2])
                    &&& e.command@ == join_spaces(w.skip(3))
                },
                None => w.len() < 4 || !parses_uint(w[0], u32::MAX as nat) || !parses_uint(
                    w[1],
                    u32::MAX as nat,
                ) || !parses_uint(w[2], u64::MAX as nat),
            }
        }),
{
    let parts = split_words(line);
    proof {
        assert(part_views(parts@) == words(line@));
    }
    if parts.len() < 4 {
        return None;
    }
    let pid = match parse_u32_digits(parts[0].as_str()) {
        Some(v) => v,
        None => {
            return None;
        },
    };
    let ppid = match parse_u32_digits(parts[1].as_str()) {
        Some(v) => v,
        None => {
            return None;
        },
    };
    let rss_kb = match parse_u64_digits(parts[2].as_str()) {
        Some(v) => v,
        None => {
            return None;
        },
    };
    let mut rest: Vec<String> = Vec::new();
    let mut i: usize = 3;
    while i < parts.len()
        invariant
            3 <= i <= parts@.len(),
            rest@.len() == i - 3,
            forall|j: int| 0 <= j < i - 3 ==> (#[trigger] rest@[j])@ == parts@[j + 3]@,
        decreases parts@.len() - i,
    {
        rest.push(parts[i].clone());
        i += 1;
    }
    let command = join_parts(&rest);
    proof {
        assert(part_views(rest@) =~= words(line@).skip(3));
    }
    Some(PsEntry { pid, ppid, rss_kb, command })
}

/// The label-worthy groups of the memory panel, computed from the process
/// listing: the host process itself, the development server processes, and
/// either the host's own descendants or, failing that, the system's
/// web-content processes. At most one line per group is reported.
pub fn summarize_system_memory(own_pid: u32, entries: &Vec<PsEntry>) -> (r: Vec<
    SystemProcessEntry,
>)
    ensures
        r@.len() <= 3,
{
    let mut r: Vec<SystemProcessEntry> = Vec::new();

    let mut own_rss: u64 = 0;
    let mut found_own = false;
    let mut i: usize = 0;
    while i < entries.len()
        invariant
            i <= entries@.len(),
        decreases entries@.len() - i,
    {
        if entries[i].pid == own_pid && !found_own {
            own_rss = entries[i].rss_kb;
            found_own = true;
        }
        i += 1;
    }
    if found_own {
        r.push(
            SystemProcessEntry {
                label: String::from_str("Tauri (Rust)"),
                pid: own_pid,
                rss_bytes: saturating_mul_1024(own_rss),
            },
        );
    }

    let mut next_total: u64 = 0;
    let mut next_pid: u32 = 0;
    let mut found_next = false;
    let mut i: usize = 0;
    while i < entries.len()
        invariant
            i <= entries@.len(),
        decreases entries@.len() - i,
    {
        let e = &entries[i];
        if e.pid != own_pid && (str_contains(e.command.as_str(), "next-server") || (str_contains(
            e.command.as_str(),
            "node",
        ) && str_contains(e.command.as_str(), ".next"))) {
            if !found_next {
                next_pid = e.pid;
                found_next = true;
            }
            next_total = saturating_add(next_total, e.rss_kb);
        }
        i += 1;
    }
    if found_next {
        r.push(
            SystemProcessEntry {
                label: String::from_str("Next.js"),
                pid: next_pid,
                rss_bytes: saturating_mul_1024(next_total),
            },
        );
    }
    proof {
        assert(r@.len() <= 2);
    }

    let descendants = find_descendants(own_pid, entries.as_slice());
    let mut desc_rss: u64 = 0;
    let mut i: usize = 0;
    while i < descendants.len()
        invariant
            i <= descendants@.len(),
        decreases descendants@.len() - i,
    {
        desc_rss = saturating_add(desc_rss, descendants[i].rss_kb);
        i += 1;
    }
    if desc_rss > 0 {
        r.push(
            SystemProcessEntry {
                label: String::from_str("WebView (UI)"),
                pid: 0,
                rss_bytes: saturating_mul_1024(desc_rss),
            },
        );
    } else {
        let mut wc_total: u64 = 0;
        let mut i: usize = 0;
        while i < entries.len()
            invariant
                i <= entries@.len(),
            decreases entries@.len() - i,
        {
            let e = &entries[i];
            if e.pid != own_pid && str_contains(e.command.as_str(), "WebContent") {
                wc_total = saturating_add(wc_total, e.rss_kb);
            }
            i += 1;
        }
        if wc_total > 0 {
            r.push(
                SystemProcessEntry {
                    label: String::from_str("WebView (est.)"),
                    pid: 0,
                    rss_bytes: saturating_mul_1024(wc_total),
                },
            );
        }
    }

    r
}

fn saturating_add(a: u64, b: u64) -> (r: u64)
    ensures
        r == if a + b <= u64::MAX {
            a + b
        } else {
            u64::MAX as int
        },
{
    if a <= u64::MAX - b {
        a + b
    } else {
        u64::MAX
    }
}

fn saturating_mul_1024(kb: u64) -> (r: u64)
    ensures
        r == if kb * 1024 <= u64::MAX {
            kb * 1024
        } else {
            u64::MAX as int
        },
{
    if kb <= u64::MAX / 1024 {
        proof {
            assert(kb * 1024 <= (u64::MAX / 1024) * 1024) by (nonlinear_arith)
                requires
                    kb <= u64::MAX / 1024,
            ;
        }
        kb * 1024
    } else {
        proof {
            assert(kb * 1024 > u64::MAX) by (nonlinear_arith)
                requires
                    kb > u64::MAX / 1024,
            ;
        }
        u64::MAX
    }
}

} // verus!
