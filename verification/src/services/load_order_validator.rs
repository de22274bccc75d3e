//! Checks of a plugin load order: duplicates, missing masters, dependency
//! cycles, masters placed after their dependents, and a suggested order.
use vstd::prelude::*;
use crate::models::{LoadOrder, ModInfo, ModInfoView};
use crate::string_map::{keys_of, lookup, unique_keys};
use crate::format::{decimal, push_decimal};
use crate::text::{chars_of, contains, contains_str, join, lower_chars, lowercase, push_str, string_of, strs};

verus! {

pub struct LoadOrderValidator;

/// The metadata entries of a load order, in entry order.
pub type InfoView = Seq<(Seq<char>, ModInfoView)>;

// ───────────────────────── messages ─────────────────────────

pub open spec fn duplicate_msg(id: Seq<char>) -> Seq<char> {
    "Duplicate mod in load order: "@ + id
}

pub open spec fn missing_master_msg(id: Seq<char>, master: Seq<char>) -> Seq<char> {
    "Missing master file for "@ + id + ": "@ + master + " (required but not in load order)"@
}

pub open spec fn circular_msg(id: Seq<char>) -> Seq<char> {
    "Circular dependency detected involving: "@ + id
}

pub open spec fn sequence_msg(id: Seq<char>, master: Seq<char>) -> Seq<char> {
    "Load order issue: "@ + id + " depends on "@ + master + " but "@ + master + " comes after "@ + id
        + " in load order"@
}

// ───────────────────────── duplicates ─────────────────────────

/// One message per entry of `order` that repeats an earlier entry.
pub open spec fn duplicate_issues(order: Seq<Seq<char>>) -> Seq<Seq<char>>
    decreases order.len(),
{
    if order.len() == 0 {
        seq![]
    } else {
        let pre = order.drop_last();
        duplicate_issues(pre) + if pre.contains(order.last()) {
            seq![duplicate_msg(order.last())]
        } else {
            seq![]
        }
    }
}

// ───────────────────────── missing masters ─────────────────────────

/// Some entry of `order` equals `m` when both are lower-cased.
pub open spec fn listed_ignoring_case(order: Seq<Seq<char>>, m: Seq<char>) -> bool {
    exists|j: int| 0 <= j < order.len() && lowercase(#[trigger] order[j]) == lowercase(m)
}

/// Messages for the masters `ms` of `id` that the order does not list.
pub open spec fn missing_for(order: Seq<Seq<char>>, id: Seq<char>, ms: Seq<Seq<char>>) -> Seq<Seq<char>>
    decreases ms.len(),
{
    if ms.len() == 0 {
        seq![]
    } else {
        missing_for(order, id, ms.drop_last()) + if listed_ignoring_case(order, ms.last()) {
            seq![]
        } else {
            seq![missing_master_msg(id, ms.last())]
        }
    }
}

/// Missing-master messages over all metadata entries, in entry order.
pub open spec fn missing_issues(order: Seq<Seq<char>>, info: InfoView) -> Seq<Seq<char>>
    decreases info.len(),
{
    if info.len() == 0 {
        seq![]
    } else {
        missing_issues(order, info.drop_last()) + missing_for(
            order,
            info.last().0,
            info.last().1.master_files,
        )
    }
}

// ───────────────────────── master placed after its dependent ─────────────────────────

/// The first occurrence of `m` in `order` lies after position `idx`.
pub open spec fn comes_after(order: Seq<Seq<char>>, idx: int, m: Seq<char>) -> bool {
    &&& forall|q: int| 0 <= q <= idx && q < order.len() ==> order[q] != m
    &&& exists|p: int| idx < p < order.len() && order[p] == m
}

pub open spec fn sequence_for(order: Seq<Seq<char>>, idx: int, id: Seq<char>, ms: Seq<Seq<char>>) -> Seq<Seq<char>>
    decreases ms.len(),
{
    if ms.len() == 0 {
        seq![]
    } else {
        sequence_for(order, idx, id, ms.drop_last()) + if comes_after(order, idx, ms.last()) {
            seq![sequence_msg(id, ms.last())]
        } else {
            seq![]
        }
    }
}

/// Messages for the first `k` entries of the order.
pub open spec fn sequence_upto(order: Seq<Seq<char>>, info: InfoView, k: int) -> Seq<Seq<char>>
    decreases k,
{
    if k <= 0 {
        seq![]
    } else {
        sequence_upto(order, info, k - 1) + match lookup(info, order[k - 1]) {
            Some(mi) => sequence_for(order, k - 1, order[k - 1], mi.master_files),
            None => seq![],
        }
    }
}

pub open spec fn sequence_issues(order: Seq<Seq<char>>, info: InfoView) -> Seq<Seq<char>> {
    sequence_upto(order, info, order.len() as int)
}

// ───────────────────────── dependency cycles ─────────────────────────

/// How many keys are not yet in `vis`.
pub open spec fn unvisited(keys: Seq<Seq<char>>, vis: Set<Seq<char>>) -> nat
    decreases keys.len(),
{
    if keys.len() == 0 {
        0
    } else {
        unvisited(keys.drop_last(), vis) + if vis.contains(keys.last()) {
            0nat
        } else {
            1nat
        }
    }
}

/// Depth-first search from `id` over master links, with the visited set and
/// the set of nodes on the search stack: whether it met a node on the stack,
/// and the two sets afterwards. A node found on the stack ends the search at
/// once and leaves the stack as it is. `fuel` bounds the depth.
pub open spec fn cycle_dfs(
    info: InfoView,
    fuel: nat,
    id: Seq<char>,
    vis: Set<Seq<char>>,
    stk: Set<Seq<char>>,
) -> (bool, Set<Seq<char>>, Set<Seq<char>>)
    decreases fuel, 0int, 0int,
{
    if fuel == 0 {
        (false, vis, stk)
    } else {
        let vis1 = vis.insert(id);
        let stk1 = stk.insert(id);
        match lookup(info, id) {
            Some(mi) => {
                let r = cycle_masters(info, (fuel - 1) as nat, mi.master_files, vis1, stk1);
                if r.0 {
                    r
                } else {
                    (false, r.1, r.2.remove(id))
                }
            },
            None => (false, vis1, stk1.remove(id)),
        }
    }
}

/// The search over the masters `ms` in turn.
pub open spec fn cycle_masters(
    info: InfoView,
    fuel: nat,
    ms: Seq<Seq<char>>,
    vis: Set<Seq<char>>,
    stk: Set<Seq<char>>,
) -> (bool, Set<Seq<char>>, Set<Seq<char>>)
    decreases fuel, 1int, ms.len(),
{
    if ms.len() == 0 {
        (false, vis, stk)
    } else {
        let m = ms[0];
        if !vis.contains(m) {
            let r = cycle_dfs(info, fuel, m, vis, stk);
            if r.0 {
                r
            } else {
                cycle_masters(info, fuel, ms.drop_first(), r.1, r.2)
            }
        } else if stk.contains(m) {
            (true, vis, stk)
        } else {
            cycle_masters(info, fuel, ms.drop_first(), vis, stk)
        }
    }
}

/// The searches started from each not yet visited entry of `order`, with the
/// messages of those that report a cycle.
pub open spec fn circular_state(info: InfoView, fuel: nat, order: Seq<Seq<char>>) -> (
    Seq<Seq<char>>,
    Set<Seq<char>>,
    Set<Seq<char>>,
)
    decreases order.len(),
{
    if order.len() == 0 {
        (seq![], Set::empty(), Set::empty())
    } else {
        let st = circular_state(info, fuel, order.drop_last());
        let id = order.last();
        if st.1.contains(id) {
            st
        } else {
            let r = cycle_dfs(info, fuel, id, st.1, st.2);
            (if r.0 { st.0.push(circular_msg(id)) } else { st.0 }, r.1, r.2)
        }
    }
}

pub open spec fn circular_issues(order: Seq<Seq<char>>, info: InfoView) -> Seq<Seq<char>> {
    circular_state(info, (info.len() + 1) as nat, order).0
}

/// Every issue `validate_load_order` reports, in its order.
pub open spec fn load_order_issues(order: Seq<Seq<char>>, info: InfoView) -> Seq<Seq<char>> {
    duplicate_issues(order) + missing_issues(order, info) + circular_issues(order, info)
        + sequence_issues(order, info)
}


// ───────────────────────── laws ─────────────────────────

proof fn lemma_contains_left(a: Seq<Seq<char>>, b: Seq<Seq<char>>, x: Seq<char>)
    requires
        a.contains(x),
    ensures
        (a + b).contains(x),
{
    let i = choose|i: int| 0 <= i < a.len() && a[i] == x;
    assert((a + b)[i] == x);
}

proof fn lemma_contains_right(a: Seq<Seq<char>>, b: Seq<Seq<char>>, x: Seq<char>)
    requires
        b.contains(x),
    ensures
        (a + b).contains(x),
{
    let i = choose|i: int| 0 <= i < b.len() && b[i] == x;
    assert((a + b)[a.len() + i] == x);
}

proof fn lemma_missing_for_contains(order: Seq<Seq<char>>, id: Seq<char>, ms: Seq<Seq<char>>, j: int)
    requires
        0 <= j < ms.len(),
        !listed_ignoring_case(order, ms[j]),
    ensures
        missing_for(order, id, ms).contains(missing_master_msg(id, ms[j])),
    decreases ms.len(),
{
    if j == ms.len() - 1 {
        let tail = seq![missing_master_msg(id, ms[j])];
        assert(tail[0] == missing_master_msg(id, ms[j]));
        lemma_contains_right(missing_for(order, id, ms.drop_last()), tail, missing_master_msg(id, ms[j]));
    } else {
        lemma_missing_for_contains(order, id, ms.drop_last(), j);
        lemma_contains_left(
            missing_for(order, id, ms.drop_last()),
            if listed_ignoring_case(order, ms.last()) {
                seq![]
            } else {
                seq![missing_master_msg(id, ms.last())]
            },
            missing_master_msg(id, ms[j]),
        );
    }
}

proof fn lemma_missing_issues_contains(order: Seq<Seq<char>>, info: InfoView, e: int, j: int)
    requires
        0 <= e < info.len(),
        0 <= j < info[e].1.master_files.len(),
        !listed_ignoring_case(order, info[e].1.master_files[j]),
    ensures
        missing_issues(order, info).contains(missing_master_msg(info[e].0, info[e].1.master_files[j])),
    decreases info.len(),
{
    let msg = missing_master_msg(info[e].0, info[e].1.master_files[j]);
    if e == info.len() - 1 {
        lemma_missing_for_contains(order, info[e].0, info[e].1.master_files, j);
        lemma_contains_right(missing_issues(order, info.drop_last()), missing_for(order, info.last().0, info.last().1.master_files), msg);
    } else {
        assert(info.drop_last()[e] == info[e]);
        lemma_missing_issues_contains(order, info.drop_last(), e, j);
        lemma_contains_left(missing_issues(order, info.drop_last()), missing_for(order, info.last().0, info.last().1.master_files), msg);
    }
}

/// A plugin whose master the order does not list (ignoring case) makes the
/// order invalid, with a missing-master message for it.
pub proof fn law_missing_master_invalidates(order: Seq<Seq<char>>, info: InfoView, e: int, j: int)
    requires
        0 <= e < info.len(),
        0 <= j < info[e].1.master_files.len(),
        !listed_ignoring_case(order, info[e].1.master_files[j]),
    ensures
        load_order_issues(order, info).contains(missing_master_msg(info[e].0, info[e].1.master_files[j])),
        load_order_issues(order, info).len() > 0,
{
    let msg = missing_master_msg(info[e].0, info[e].1.master_files[j]);
    lemma_missing_issues_contains(order, info, e, j);
    lemma_contains_right(duplicate_issues(order), missing_issues(order, info), msg);
    lemma_contains_left(duplicate_issues(order) + missing_issues(order, info), circular_issues(order, info), msg);
    lemma_contains_left(
        duplicate_issues(order) + missing_issues(order, info) + circular_issues(order, info),
        sequence_issues(order, info),
        msg,
    );
}

proof fn lemma_sequence_for_contains(order: Seq<Seq<char>>, idx: int, id: Seq<char>, ms: Seq<Seq<char>>, j: int)
    requires
        0 <= j < ms.len(),
        comes_after(order, idx, ms[j]),
    ensures
        sequence_for(order, idx, id, ms).contains(sequence_msg(id, ms[j])),
    decreases ms.len(),
{
    if j == ms.len() - 1 {
        let tail = seq![sequence_msg(id, ms[j])];
        assert(tail[0] == sequence_msg(id, ms[j]));
        lemma_contains_right(sequence_for(order, idx, id, ms.drop_last()), tail, sequence_msg(id, ms[j]));
    } else {
        lemma_sequence_for_contains(order, idx, id, ms.drop_last(), j);
        lemma_contains_left(
            sequence_for(order, idx, id, ms.drop_last()),
            if comes_after(order, idx, ms.last()) {
                seq![sequence_msg(id, ms.last())]
            } else {
                seq![]
            },
            sequence_msg(id, ms[j]),
        );
    }
}

proof fn lemma_sequence_upto_contains(order: Seq<Seq<char>>, info: InfoView, k: int, i: int, j: int)
    requires
        0 <= i < k <= order.len(),
        lookup(info, order[i]) is Some,
        0 <= j < (lookup(info, order[i])->0).master_files.len(),
        comes_after(order, i, (lookup(info, order[i])->0).master_files[j]),
    ensures
        sequence_upto(order, info, k).contains(
            sequence_msg(order[i], (lookup(info, order[i])->0).master_files[j]),
        ),
    decreases k,
{
    let mi = lookup(info, order[i])->0;
    let msg = sequence_msg(order[i], mi.master_files[j]);
    if i == k - 1 {
        lemma_sequence_for_contains(order, i, order[i], mi.master_files, j);
        lemma_contains_right(sequence_upto(order, info, k - 1), sequence_for(order, k - 1, order[k - 1], mi.master_files), msg);
    } else {
        lemma_sequence_upto_contains(order, info, k - 1, i, j);
        lemma_contains_left(
            sequence_upto(order, info, k - 1),
            match lookup(info, order[k - 1]) {
                Some(m) => sequence_for(order, k - 1, order[k - 1], m.master_files),
                None => seq![],
            },
            msg,
        );
    }
}

/// A plugin listed before one of its masters makes the order invalid, with
/// a load-order message for that master.
pub proof fn law_late_master_invalidates(order: Seq<Seq<char>>, info: InfoView, i: int, j: int)
    requires
        0 <= i < order.len(),
        lookup(info, order[i]) is Some,
        0 <= j < (lookup(info, order[i])->0).master_files.len(),
        comes_after(order, i, (lookup(info, order[i])->0).master_files[j]),
    ensures
        load_order_issues(order, info).contains(sequence_msg(order[i], (lookup(info, order[i])->0).master_files[j])),
        load_order_issues(order, info).len() > 0,
{
    let msg = sequence_msg(order[i], (lookup(info, order[i])->0).master_files[j]);
    lemma_sequence_upto_contains(order, info, order.len() as int, i, j);
    lemma_contains_right(
        duplicate_issues(order) + missing_issues(order, info) + circular_issues(order, info),
        sequence_issues(order, info),
        msg,
    );
}

// ───────────────────────── conflicts ─────────────────────────

/// (master file, mod id) for every master that every metadata entry lists,
/// in entry order.
pub open spec fn master_pairs(info: InfoView) -> Seq<(Seq<char>, Seq<char>)>
    decreases info.len(),
{
    if info.len() == 0 {
        seq![]
    } else {
        master_pairs(info.drop_last()) + info.last().1.master_files.map_values(
            |m: Seq<char>| (m, info.last().0),
        )
    }
}

/// The distinct files of `ps`, in order of first appearance.
pub open spec fn first_files(ps: Seq<(Seq<char>, Seq<char>)>) -> Seq<Seq<char>>
    decreases ps.len(),
{
    if ps.len() == 0 {
        seq![]
    } else {
        let pre = first_files(ps.drop_last());
        if pre.contains(ps.last().0) {
            pre
        } else {
            pre.push(ps.last().0)
        }
    }
}

/// The mods that list `f` as a master, in order.
pub open spec fn owners(ps: Seq<(Seq<char>, Seq<char>)>, f: Seq<char>) -> Seq<Seq<char>>
    decreases ps.len(),
{
    if ps.len() == 0 {
        seq![]
    } else {
        owners(ps.drop_last(), f) + if ps.last().0 == f {
            seq![ps.last().1]
        } else {
            seq![]
        }
    }
}

pub open spec fn conflict_msg(file: Seq<char>, mods: Seq<Seq<char>>) -> Seq<char> {
    "Potential conflict: Multiple mods modify "@ + file + " (mods: "@ + join(mods, ", "@) + ")"@
}

/// A message for each file in `files` that more than one mod lists.
pub open spec fn owner_conflicts(ps: Seq<(Seq<char>, Seq<char>)>, files: Seq<Seq<char>>) -> Seq<Seq<char>>
    decreases files.len(),
{
    if files.len() == 0 {
        seq![]
    } else {
        owner_conflicts(ps, files.drop_last()) + if owners(ps, files.last()).len() > 1 {
            seq![conflict_msg(files.last(), owners(ps, files.last()))]
        } else {
            seq![]
        }
    }
}

pub open spec fn incompatible_msg(a: Seq<char>, b: Seq<char>) -> Seq<char> {
    "Incompatible mods detected: "@ + a + " and "@ + b + " cannot be used together"@
}

/// Some entry of the order contains `pat`.
pub open spec fn any_contains(order: Seq<Seq<char>>, pat: Seq<char>) -> bool {
    exists|j: int| 0 <= j < order.len() && contains(#[trigger] order[j], pat)
}

pub open spec fn pair_conflict(order: Seq<Seq<char>>, a: Seq<char>, b: Seq<char>) -> Seq<Seq<char>> {
    if any_contains(order, a) && any_contains(order, b) {
        seq![incompatible_msg(a, b)]
    } else {
        seq![]
    }
}

/// Everything `check_conflicts` reports, in its order.
pub open spec fn conflicts(order: Seq<Seq<char>>, info: InfoView) -> Seq<Seq<char>> {
    owner_conflicts(master_pairs(info), first_files(master_pairs(info)))
        + pair_conflict(order, "Fallout4.esm"@, "FalloutNV.esm"@)
        + pair_conflict(order, "DLCUltimateEdition.esm"@, "DLCRobot.esm"@)
}

// ───────────────────────── suggested order ─────────────────────────

/// Depth-first search from `id` that emits each node after the masters it
/// reaches; only masters listed in `order` are followed.
pub open spec fn topo_dfs(
    info: InfoView,
    order: Seq<Seq<char>>,
    fuel: nat,
    id: Seq<char>,
    vis: Set<Seq<char>>,
    out: Seq<Seq<char>>,
) -> (Set<Seq<char>>, Seq<Seq<char>>)
    decreases fuel, 0int, 0int,
{
    if fuel == 0 {
        (vis, out)
    } else {
        let vis1 = vis.insert(id);
        let r = match lookup(info, id) {
            Some(mi) => topo_masters(info, order, (fuel - 1) as nat, mi.master_files, vis1, out),
            None => (vis1, out),
        };
        (r.0, r.1.push(id))
    }
}

pub open spec fn topo_masters(
    info: InfoView,
    order: Seq<Seq<char>>,
    fuel: nat,
    ms: Seq<Seq<char>>,
    vis: Set<Seq<char>>,
    out: Seq<Seq<char>>,
) -> (Set<Seq<char>>, Seq<Seq<char>>)
    decreases fuel, 1int, ms.len(),
{
    if ms.len() == 0 {
        (vis, out)
    } else {
        let m = ms[0];
        if !vis.contains(m) && order.contains(m) {
            let r = topo_dfs(info, order, fuel, m, vis, out);
            topo_masters(info, order, fuel, ms.drop_first(), r.0, r.1)
        } else {
            topo_masters(info, order, fuel, ms.drop_first(), vis, out)
        }
    }
}

/// The searches started from each not yet visited entry of `ids`.
pub open spec fn topo_state(info: InfoView, order: Seq<Seq<char>>, fuel: nat, ids: Seq<Seq<char>>) -> (
    Set<Seq<char>>,
    Seq<Seq<char>>,
)
    decreases ids.len(),
{
    if ids.len() == 0 {
        (Set::empty(), seq![])
    } else {
        let st = topo_state(info, order, fuel, ids.drop_last());
        if st.0.contains(ids.last()) {
            st
        } else {
            topo_dfs(info, order, fuel, ids.last(), st.0, st.1)
        }
    }
}

/// The order `suggest_order` proposes, a topological sort: the nodes in the
/// order the searches finish them, so each node comes after the masters it
/// reaches.
pub open spec fn suggested(order: Seq<Seq<char>>, info: InfoView) -> Seq<Seq<char>> {
    topo_state(info, order, (info.len() + 1) as nat, order).1
}

/// `m` is a master of `x` that the search follows: `x` has metadata naming
/// `m`, and `m` is in the load order.
pub open spec fn depends_on(info: InfoView, order: Seq<Seq<char>>, x: Seq<char>, m: Seq<char>) -> bool {
    lookup(info, x) matches Some(mi) && mi.master_files.contains(m) && order.contains(m)
}

/// `rank` puts every master below the mods that need it.
pub open spec fn ranked(info: InfoView, order: Seq<Seq<char>>, rank: spec_fn(Seq<char>) -> int) -> bool {
    forall|x: Seq<char>, m: Seq<char>| #[trigger] depends_on(info, order, x, m) ==> rank(m) < rank(x)
}

/// The dependencies have no cycle: some ranking orders every master below
/// its dependents.
pub open spec fn acyclic(info: InfoView, order: Seq<Seq<char>>) -> bool {
    exists|rank: spec_fn(Seq<char>) -> int| ranked(info, order, rank)
}

/// Each entry of `out` comes after every master it depends on.
pub open spec fn masters_first(info: InfoView, order: Seq<Seq<char>>, out: Seq<Seq<char>>) -> bool {
    forall|j: int, m: Seq<char>|
        0 <= j < out.len() && #[trigger] depends_on(info, order, out[j], m) ==> exists|i: int| 0 <= i < j && out[i] == m
}

/// What holds between the searches: nothing finished twice, finished nodes
/// visited, visited nodes listed, and finished nodes after their masters.
spec fn dfs_inv(info: InfoView, order: Seq<Seq<char>>, vis: Set<Seq<char>>, out: Seq<Seq<char>>) -> bool {
    &&& out.no_duplicates()
    &&& forall|x: Seq<char>| out.contains(x) ==> #[trigger] vis.contains(x)
    &&& forall|x: Seq<char>| #[trigger] vis.contains(x) ==> order.contains(x)
    &&& masters_first(info, order, out)
}

proof fn lemma_push_finished(info: InfoView, order: Seq<Seq<char>>, out: Seq<Seq<char>>, id: Seq<char>)
    requires
        masters_first(info, order, out),
        out.no_duplicates(),
        !out.contains(id),
        forall|m: Seq<char>| #[trigger] depends_on(info, order, id, m) ==> out.contains(m),
    ensures
        masters_first(info, order, out.push(id)),
        out.push(id).no_duplicates(),
{
    let o2 = out.push(id);
    assert forall|j: int, m: Seq<char>|
        0 <= j < o2.len() && #[trigger] depends_on(info, order, o2[j], m) implies exists|i: int| 0 <= i < j && o2[i] == m by {
        if j < out.len() {
            assert(o2[j] == out[j]);
            let i = choose|i: int| 0 <= i < j && out[i] == m;
            assert(o2[i] == m);
        } else {
            assert(o2[j] == id);
            assert(out.contains(m));
            let i = choose|i: int| 0 <= i < out.len() && out[i] == m;
            assert(o2[i] == m);
        }
    }
    assert forall|a: int, b: int| 0 <= a < o2.len() && 0 <= b < o2.len() && a != b implies o2[a] != o2[b] by {
        if a < out.len() && b < out.len() {
        } else if a < out.len() {
            assert(out.contains(o2[a]));
        } else {
            assert(out.contains(o2[b]));
        }
    }
}

proof fn lemma_push_contains(s: Seq<Seq<char>>, a: Seq<char>)
    ensures
        forall|x: Seq<char>| #[trigger] s.push(a).contains(x) <==> (s.contains(x) || x == a),
{
    assert forall|x: Seq<char>| #[trigger] s.push(a).contains(x) <==> (s.contains(x) || x == a) by {
        if s.contains(x) {
            let i = choose|i: int| 0 <= i < s.len() && s[i] == x;
            assert(s.push(a)[i] == x);
        }
        if x == a {
            assert(s.push(a)[s.len() as int] == x);
        }
        if s.push(a).contains(x) && x != a {
            let i = choose|i: int| 0 <= i < s.push(a).len() && s.push(a)[i] == x;
            assert(s[i] == x);
        }
    }
}

#[verifier::spinoff_prover]
proof fn lemma_dfs(
    info: InfoView,
    order: Seq<Seq<char>>,
    rank: spec_fn(Seq<char>) -> int,
    fuel: nat,
    id: Seq<char>,
    vis: Set<Seq<char>>,
    out: Seq<Seq<char>>,
)
    requires
        ranked(info, order, rank),
        dfs_inv(info, order, vis, out),
        !vis.contains(id),
        order.contains(id),
        fuel > unvisited(keys_of(info), vis),
        forall|g: Seq<char>| #[trigger] vis.contains(g) && !out.contains(g) ==> rank(g) > rank(id),
    ensures
        dfs_inv(info, order, topo_dfs(info, order, fuel, id, vis, out).0, topo_dfs(info, order, fuel, id, vis, out).1),
        topo_dfs(info, order, fuel, id, vis, out).1.contains(id),
        forall|x: Seq<char>| out.contains(x) ==> #[trigger] topo_dfs(info, order, fuel, id, vis, out).1.contains(x),
        forall|x: Seq<char>| vis.contains(x) ==> #[trigger] topo_dfs(info, order, fuel, id, vis, out).0.contains(x),
        forall|g: Seq<char>|
            (#[trigger] topo_dfs(info, order, fuel, id, vis, out).0.contains(g) && !topo_dfs(
                info,
                order,
                fuel,
                id,
                vis,
                out,
            ).1.contains(g)) <==> (vis.contains(g) && !out.contains(g)),
    decreases fuel, 0int, 0int,
{
    let vis1 = vis.insert(id);
    let keys = keys_of(info);
    assert(!out.contains(id));
    match lookup(info, id) {
        Some(mi) => {
            lemma_key_of_lookup(info, id);
            lemma_unvisited_insert(keys, vis, id);
            let f1 = (fuel - 1) as nat;
            assert forall|m: Seq<char>| mi.master_files.contains(m) && order.contains(m) implies rank(m) < rank(id) by {
                assert(depends_on(info, order, id, m));
            }
            lemma_masters(info, order, rank, f1, mi.master_files, vis1, out, rank(id));
            let r = topo_masters(info, order, f1, mi.master_files, vis1, out);
            assert(vis1.contains(id) && !out.contains(id));
            assert(r.0.contains(id));
            assert(!r.1.contains(id));
            assert forall|m: Seq<char>| #[trigger] depends_on(info, order, id, m) implies r.1.contains(m) by {}
            lemma_push_finished(info, order, r.1, id);
            lemma_push_contains(r.1, id);
            assert forall|g: Seq<char>| (#[trigger] r.0.contains(g) && !r.1.push(id).contains(g)) <==> (vis.contains(g) && !out.contains(g)) by {
                if vis.contains(g) {
                    assert(r.0.contains(g));
                }
            }
        },
        None => {
            assert forall|m: Seq<char>| #[trigger] depends_on(info, order, id, m) implies out.contains(m) by {}
            lemma_push_finished(info, order, out, id);
            lemma_push_contains(out, id);
        },
    }
}

#[verifier::spinoff_prover]
#[verifier::rlimit(40)]
proof fn lemma_masters(
    info: InfoView,
    order: Seq<Seq<char>>,
    rank: spec_fn(Seq<char>) -> int,
    fuel: nat,
    ms: Seq<Seq<char>>,
    vis: Set<Seq<char>>,
    out: Seq<Seq<char>>,
    bound: int,
)
    requires
        ranked(info, order, rank),
        dfs_inv(info, order, vis, out),
        fuel > unvisited(keys_of(info), vis),
        forall|m: Seq<char>| ms.contains(m) && order.contains(m) ==> rank(m) < bound,
        forall|g: Seq<char>| #[trigger] vis.contains(g) && !out.contains(g) ==> rank(g) >= bound,
    ensures
        dfs_inv(info, order, topo_masters(info, order, fuel, ms, vis, out).0, topo_masters(info, order, fuel, ms, vis, out).1),
        forall|m: Seq<char>| ms.contains(m) && order.contains(m) ==> #[trigger] topo_masters(info, order, fuel, ms, vis, out).1.contains(m),
        forall|x: Seq<char>| out.contains(x) ==> #[trigger] topo_masters(info, order, fuel, ms, vis, out).1.contains(x),
        forall|x: Seq<char>| vis.contains(x) ==> #[trigger] topo_masters(info, order, fuel, ms, vis, out).0.contains(x),
        forall|g: Seq<char>|
            (#[trigger] topo_masters(info, order, fuel, ms, vis, out).0.contains(g) && !topo_masters(
                info,
                order,
                fuel,
                ms,
                vis,
                out,
            ).1.contains(g)) <==> (vis.contains(g) && !out.contains(g)),
    decreases fuel, 1int, ms.len(),
{
    if ms.len() > 0 {
        let m = ms[0];
        let rest = ms.drop_first();
        assert(ms.contains(m));
        assert forall|x: Seq<char>| rest.contains(x) implies ms.contains(x) by {
            let k = choose|k: int| 0 <= k < rest.len() && rest[k] == x;
            assert(ms[k + 1] == x);
        }
        if !vis.contains(m) && order.contains(m) {
            lemma_dfs(info, order, rank, fuel, m, vis, out);
            let r = topo_dfs(info, order, fuel, m, vis, out);
            assert(vis.subset_of(r.0));
            lemma_unvisited_mono(keys_of(info), vis, r.0);
            lemma_masters(info, order, rank, fuel, rest, r.0, r.1, bound);
            let fin = topo_masters(info, order, fuel, rest, r.0, r.1);
            assert(fin.1.contains(m));
            assert forall|x: Seq<char>| ms.contains(x) && order.contains(x) implies #[trigger] fin.1.contains(x) by {
                if x != m {
                    let k = choose|k: int| 0 <= k < ms.len() && ms[k] == x;
                    assert(rest[k - 1] == x);
                    assert(rest.contains(x));
                }
            }
        } else {
            if order.contains(m) {
                assert(out.contains(m));
            }
            lemma_masters(info, order, rank, fuel, rest, vis, out, bound);
            let fin = topo_masters(info, order, fuel, rest, vis, out);
            assert forall|x: Seq<char>| ms.contains(x) && order.contains(x) implies #[trigger] fin.1.contains(x) by {
                if x != m {
                    let k = choose|k: int| 0 <= k < ms.len() && ms[k] == x;
                    assert(rest[k - 1] == x);
                    assert(rest.contains(x));
                } else {
                    assert(fin.1.contains(m));
                }
            }
        }
    }
}

proof fn lemma_state(info: InfoView, order: Seq<Seq<char>>, rank: spec_fn(Seq<char>) -> int, ids: Seq<Seq<char>>)
    requires
        ranked(info, order, rank),
        forall|i: int| 0 <= i < ids.len() ==> order.contains(#[trigger] ids[i]),
    ensures
        dfs_inv(info, order, topo_state(info, order, (info.len() + 1) as nat, ids).0, topo_state(info, order, (info.len() + 1) as nat, ids).1),
        forall|x: Seq<char>| #[trigger] topo_state(info, order, (info.len() + 1) as nat, ids).0.contains(x) ==> topo_state(info, order, (info.len() + 1) as nat, ids).1.contains(x),
        forall|i: int| 0 <= i < ids.len() ==> topo_state(info, order, (info.len() + 1) as nat, ids).1.contains(#[trigger] ids[i]),
    decreases ids.len(),
{
    let fuel = (info.len() + 1) as nat;
    if ids.len() == 0 {
        let out = Seq::<Seq<char>>::empty();
        assert(masters_first(info, order, out));
        assert(out.no_duplicates());
    } else {
        let pre = ids.drop_last();
        assert forall|i: int| 0 <= i < pre.len() implies order.contains(#[trigger] pre[i]) by {
            assert(pre[i] == ids[i]);
        }
        lemma_state(info, order, rank, pre);
        let st = topo_state(info, order, fuel, pre);
        assert forall|i: int| 0 <= i < pre.len() implies st.1.contains(#[trigger] ids[i]) by {
            assert(pre[i] == ids[i]);
        }
        if !st.0.contains(ids.last()) {
            lemma_unvisited_le(keys_of(info), st.0);
            assert(order.contains(ids[ids.len() - 1]));
            lemma_dfs(info, order, rank, fuel, ids.last(), st.0, st.1);
        }
    }
}

/// On dependencies without a cycle, the suggested order lists every mod of
/// the load order once and nothing else, and puts each master before every
/// mod that needs it.
pub proof fn law_suggested_masters_first(order: Seq<Seq<char>>, info: InfoView)
    requires
        acyclic(info, order),
    ensures
        suggested(order, info).no_duplicates(),
        forall|x: Seq<char>| #[trigger] suggested(order, info).contains(x) <==> order.contains(x),
        masters_first(info, order, suggested(order, info)),
{
    let rank = choose|rank: spec_fn(Seq<char>) -> int| ranked(info, order, rank);
    assert forall|i: int| 0 <= i < order.len() implies order.contains(#[trigger] order[i]) by {}
    lemma_state(info, order, rank, order);
    let s = suggested(order, info);
    let st = topo_state(info, order, (info.len() + 1) as nat, order);
    assert forall|x: Seq<char>| #[trigger] s.contains(x) <==> order.contains(x) by {
        if order.contains(x) {
            let i = choose|i: int| 0 <= i < order.len() && order[i] == x;
            assert(s.contains(order[i]));
        }
        if s.contains(x) {
            assert(st.0.contains(x));
        }
    }
}

proof fn lemma_sequence_for_empty(order: Seq<Seq<char>>, idx: int, id: Seq<char>, ms: Seq<Seq<char>>)
    requires
        forall|j: int| 0 <= j < ms.len() ==> !comes_after(order, idx, #[trigger] ms[j]),
    ensures
        sequence_for(order, idx, id, ms) == Seq::<Seq<char>>::empty(),
    decreases ms.len(),
{
    if ms.len() > 0 {
        assert forall|j: int| 0 <= j < ms.drop_last().len() implies !comes_after(order, idx, #[trigger] ms.drop_last()[j]) by {
            assert(ms.drop_last()[j] == ms[j]);
        }
        lemma_sequence_for_empty(order, idx, id, ms.drop_last());
        assert(!comes_after(order, idx, ms[ms.len() - 1]));
        assert(sequence_for(order, idx, id, ms) =~= Seq::<Seq<char>>::empty());
    }
}

/// On dependencies without a cycle, the suggested order draws no
/// "Load order issue" from `validate_load_order`: no master comes after a
/// mod that needs it.
pub proof fn law_suggested_in_sequence(order: Seq<Seq<char>>, info: InfoView)
    requires
        acyclic(info, order),
    ensures
        sequence_issues(suggested(order, info), info) == Seq::<Seq<char>>::empty(),
{
    law_suggested_masters_first(order, info);
    let s = suggested(order, info);
    assert forall|k: int| 0 <= k <= s.len() implies #[trigger] sequence_upto(s, info, k) == Seq::<Seq<char>>::empty() by {
        lemma_sequence_upto_empty(order, info, s, k);
    }
}

proof fn lemma_sequence_upto_empty(order: Seq<Seq<char>>, info: InfoView, s: Seq<Seq<char>>, k: int)
    requires
        0 <= k <= s.len(),
        forall|x: Seq<char>| #[trigger] s.contains(x) <==> order.contains(x),
        masters_first(info, order, s),
    ensures
        sequence_upto(s, info, k) == Seq::<Seq<char>>::empty(),
    decreases k,
{
    if k > 0 {
        lemma_sequence_upto_empty(order, info, s, k - 1);
        let idx = k - 1;
        match lookup(info, s[idx]) {
            Some(mi) => {
                let ms = mi.master_files;
                assert forall|j: int| 0 <= j < ms.len() implies !comes_after(s, idx, #[trigger] ms[j]) by {
                    let m = ms[j];
                    assert(ms.contains(m));
                    if order.contains(m) {
                        assert(depends_on(info, order, s[idx], m));
                        let i = choose|i: int| 0 <= i < idx && s[i] == m;
                        assert(s[i] == m);
                    } else {
                        if comes_after(s, idx, m) {
                            let p = choose|p: int| idx < p < s.len() && s[p] == m;
                            assert(s.contains(m));
                        }
                    }
                }
                lemma_sequence_for_empty(s, idx, s[idx], ms);
                assert(sequence_upto(s, info, k) =~= Seq::<Seq<char>>::empty());
            },
            None => {
                assert(sequence_upto(s, info, k) =~= Seq::<Seq<char>>::empty());
            },
        }
    }
}

proof fn lemma_duplicate_reported(order: Seq<Seq<char>>, i: int, j: int)
    requires
        0 <= i < j < order.len(),
        order[i] == order[j],
    ensures
        duplicate_issues(order).contains(duplicate_msg(order[j])),
    decreases order.len(),
{
    let pre = order.drop_last();
    let tail = if pre.contains(order.last()) {
        seq![duplicate_msg(order.last())]
    } else {
        seq![]
    };
    assert(duplicate_issues(order) == duplicate_issues(pre) + tail);
    if j == order.len() - 1 {
        assert(pre[i] == order[i]);
        assert(pre.contains(order.last()));
        assert(tail[0] == duplicate_msg(order[j]));
        lemma_contains_right(duplicate_issues(pre), tail, duplicate_msg(order[j]));
    } else {
        assert(pre[i] == order[i] && pre[j] == order[j]);
        lemma_duplicate_reported(pre, i, j);
        lemma_contains_left(duplicate_issues(pre), tail, duplicate_msg(order[j]));
    }
}

/// A mod listed twice in the load order is reported: when the same id
/// stands at two positions, the issues name it as a duplicate, so the order
/// is not valid.
pub proof fn law_repeated_mod_reported(order: Seq<Seq<char>>, info: InfoView, i: int, j: int)
    requires
        0 <= i < j < order.len(),
        order[i] == order[j],
    ensures
        load_order_issues(order, info).contains("Duplicate mod in load order: "@ + order[i]),
        load_order_issues(order, info).len() > 0,
{
    lemma_duplicate_reported(order, i, j);
    let d = duplicate_issues(order);
    let rest = missing_issues(order, info) + circular_issues(order, info) + sequence_issues(order, info);
    lemma_contains_left(d, rest, duplicate_msg(order[j]));
    assert(load_order_issues(order, info) =~= d + rest);
}

proof fn lemma_owners_listed(ps: Seq<(Seq<char>, Seq<char>)>, f: Seq<char>)
    ensures
        owners(ps, f) == ps.filter_map(|p: (Seq<char>, Seq<char>)| if p.0 == f { Some(p.1) } else { None }),
    decreases ps.len(),
{
    if ps.len() > 0 {
        lemma_owners_listed(ps.drop_last(), f);
        if ps.last().0 == f {
            assert(owners(ps, f) =~= owners(ps.drop_last(), f) + seq![ps.last().1]);
        } else {
            assert(owners(ps, f) =~= owners(ps.drop_last(), f) + Seq::<Seq<char>>::empty());
        }
    }
}

proof fn lemma_owners_count(ps: Seq<(Seq<char>, Seq<char>)>, f: Seq<char>, a: int, b: int)
    requires
        0 <= a < b < ps.len(),
        ps[a].0 == f,
        ps[b].0 == f,
    ensures
        owners(ps, f).len() >= 2,
    decreases ps.len(),
{
    let pre = ps.drop_last();
    if b == ps.len() - 1 {
        assert(pre[a] == ps[a]);
        lemma_owners_one(pre, f, a);
    } else {
        assert(pre[a] == ps[a] && pre[b] == ps[b]);
        lemma_owners_count(pre, f, a, b);
    }
}

proof fn lemma_owners_one(ps: Seq<(Seq<char>, Seq<char>)>, f: Seq<char>, a: int)
    requires
        0 <= a < ps.len(),
        ps[a].0 == f,
    ensures
        owners(ps, f).len() >= 1,
    decreases ps.len(),
{
    if a < ps.len() - 1 {
        assert(ps.drop_last()[a] == ps[a]);
        lemma_owners_one(ps.drop_last(), f, a);
    }
}

proof fn lemma_first_files_has(ps: Seq<(Seq<char>, Seq<char>)>, a: int)
    requires
        0 <= a < ps.len(),
    ensures
        first_files(ps).contains(ps[a].0),
    decreases ps.len(),
{
    let pre = first_files(ps.drop_last());
    if a == ps.len() - 1 {
        if !pre.contains(ps.last().0) {
            assert(pre.push(ps.last().0)[pre.len() as int] == ps[a].0);
        }
    } else {
        assert(ps.drop_last()[a] == ps[a]);
        lemma_first_files_has(ps.drop_last(), a);
        if !pre.contains(ps.last().0) {
            let k = choose|k: int| 0 <= k < pre.len() && pre[k] == ps[a].0;
            assert(pre.push(ps.last().0)[k] == ps[a].0);
        }
    }
}

proof fn lemma_owner_conflict_listed(ps: Seq<(Seq<char>, Seq<char>)>, files: Seq<Seq<char>>, f: Seq<char>)
    requires
        files.contains(f),
        owners(ps, f).len() > 1,
    ensures
        owner_conflicts(ps, files).contains(conflict_msg(f, owners(ps, f))),
    decreases files.len(),
{
    let pre = files.drop_last();
    let tail = if owners(ps, files.last()).len() > 1 {
        seq![conflict_msg(files.last(), owners(ps, files.last()))]
    } else {
        seq![]
    };
    assert(owner_conflicts(ps, files) == owner_conflicts(ps, pre) + tail);
    if files.last() == f {
        assert(tail[0] == conflict_msg(f, owners(ps, f)));
        lemma_contains_right(owner_conflicts(ps, pre), tail, conflict_msg(f, owners(ps, f)));
    } else {
        let k = choose|k: int| 0 <= k < files.len() && files[k] == f;
        assert(k < files.len() - 1);
        assert(pre[k] == f);
        lemma_owner_conflict_listed(ps, pre, f);
        lemma_contains_left(owner_conflicts(ps, pre), tail, conflict_msg(f, owners(ps, f)));
    }
}

/// A master file that two or more mods list is reported as a potential
/// conflict naming every mod that lists it, in order (`pairs` lists each
/// mod's masters as (master, mod)).
pub proof fn law_shared_master_reported(order: Seq<Seq<char>>, info: InfoView, f: Seq<char>, a: int, b: int)
    requires
        0 <= a < b < master_pairs(info).len(),
        master_pairs(info)[a].0 == f,
        master_pairs(info)[b].0 == f,
    ensures
        conflicts(order, info).contains(
            "Potential conflict: Multiple mods modify "@ + f + " (mods: "@ + join(
                master_pairs(info).filter_map(|p: (Seq<char>, Seq<char>)| if p.0 == f { Some(p.1) } else { None }),
                ", "@,
            ) + ")"@,
        ),
{
    let ps = master_pairs(info);
    lemma_owners_count(ps, f, a, b);
    lemma_first_files_has(ps, a);
    lemma_owner_conflict_listed(ps, first_files(ps), f);
    lemma_owners_listed(ps, f);
    let oc = owner_conflicts(ps, first_files(ps));
    let rest = pair_conflict(order, "Fallout4.esm"@, "FalloutNV.esm"@) + pair_conflict(
        order,
        "DLCUltimateEdition.esm"@,
        "DLCRobot.esm"@,
    );
    lemma_contains_left(oc, rest, conflict_msg(f, owners(ps, f)));
    assert(conflicts(order, info) =~= oc + rest);
}

// ───────────────────────── file integrity ─────────────────────────

/// `Path::join` on Unix: an absolute `name` replaces `dir`; otherwise one
/// `/` separates them unless `dir` is empty or already ends in `/`.
pub open spec fn join_path(dir: Seq<char>, name: Seq<char>) -> Seq<char> {
    if name.len() > 0 && name[0] == '/' {
        name
    } else if dir.len() == 0 || dir.last() == '/' {
        dir + name
    } else {
        dir + seq!['/'] + name
    }
}

pub open spec fn folder_missing_msg(id: Seq<char>, path: Seq<char>) -> Seq<char> {
    "Mod folder missing: "@ + id + " (path: "@ + path + ")"@
}

pub open spec fn not_a_folder_msg(id: Seq<char>) -> Seq<char> {
    "Expected mod folder but found file: "@ + id
}

pub open spec fn master_not_found_msg(master: Seq<char>, id: Seq<char>) -> Seq<char> {
    "Master file not found: "@ + master + " (required by "@ + id + ")"@
}

/// Messages for the entries of `ids` whose folder is absent or not a folder.
pub open spec fn folder_issues(
    dir: Seq<char>,
    ids: Seq<Seq<char>>,
    existing: Seq<Seq<char>>,
    folders: Seq<Seq<char>>,
) -> Seq<Seq<char>>
    decreases ids.len(),
{
    if ids.len() == 0 {
        seq![]
    } else {
        let id = ids.last();
        let path = join_path(dir, id);
        folder_issues(dir, ids.drop_last(), existing, folders) + if !existing.contains(path) {
            seq![folder_missing_msg(id, path)]
        } else if !folders.contains(path) {
            seq![not_a_folder_msg(id)]
        } else {
            seq![]
        }
    }
}

/// Messages for the masters whose file is absent and that the order does not list.
pub open spec fn absent_masters(
    dir: Seq<char>,
    order: Seq<Seq<char>>,
    ps: Seq<(Seq<char>, Seq<char>)>,
    existing: Seq<Seq<char>>,
) -> Seq<Seq<char>>
    decreases ps.len(),
{
    if ps.len() == 0 {
        seq![]
    } else {
        let (m, id) = ps.last();
        absent_masters(dir, order, ps.drop_last(), existing) + if !existing.contains(join_path(dir, m))
            && !order.contains(m) {
            seq![master_not_found_msg(m, id)]
        } else {
            seq![]
        }
    }
}

pub open spec fn integrity_issues(
    order: Seq<Seq<char>>,
    info: InfoView,
    dir: Seq<char>,
    existing: Seq<Seq<char>>,
    folders: Seq<Seq<char>>,
) -> Seq<Seq<char>> {
    folder_issues(dir, order, existing, folders) + absent_masters(dir, order, master_pairs(info), existing)
}

// ───────────────────────── summary ─────────────────────────

/// Each item as an indented bullet line.
pub open spec fn bullets(items: Seq<Seq<char>>) -> Seq<char>
    decreases items.len(),
{
    if items.len() == 0 {
        seq![]
    } else {
        bullets(items.drop_last()) + "  - "@ + items.last() + "\n"@
    }
}

/// The text of `get_validation_summary`.
pub open spec fn summary_text(order: Seq<Seq<char>>, info: InfoView) -> Seq<char> {
    let issues = load_order_issues(order, info);
    let cs = conflicts(order, info);
    "Total mods: "@ + decimal(order.len()) + "\n"@ + (if issues.len() == 0 {
        "\u{2713} Load order is valid\n"@
    } else {
        "\u{2717} "@ + decimal(issues.len()) + " issues found:\n"@ + bullets(issues)
    }) + (if cs.len() == 0 {
        seq![]
    } else {
        "\n\u{26a0} "@ + decimal(cs.len()) + " potential conflicts:\n"@ + bullets(cs)
    })
}

/// The set of the strings in `v`.
pub open spec fn set_of(v: Seq<String>) -> Set<Seq<char>> {
    Set::new(|x: Seq<char>| strs(v).contains(x))
}

// ───────────────────────── lemmas ─────────────────────────

proof fn lemma_unvisited_le(keys: Seq<Seq<char>>, vis: Set<Seq<char>>)
    ensures
        unvisited(keys, vis) <= keys.len(),
    decreases keys.len(),
{
    if keys.len() > 0 {
        lemma_unvisited_le(keys.drop_last(), vis);
    }
}

proof fn lemma_unvisited_mono(keys: Seq<Seq<char>>, a: Set<Seq<char>>, b: Set<Seq<char>>)
    requires
        a.subset_of(b),
    ensures
        unvisited(keys, b) <= unvisited(keys, a),
    decreases keys.len(),
{
    if keys.len() > 0 {
        lemma_unvisited_mono(keys.drop_last(), a, b);
    }
}

proof fn lemma_unvisited_insert(keys: Seq<Seq<char>>, vis: Set<Seq<char>>, id: Seq<char>)
    requires
        keys.contains(id),
        !vis.contains(id),
    ensures
        unvisited(keys, vis.insert(id)) < unvisited(keys, vis),
    decreases keys.len(),
{
    let pre = keys.drop_last();
    if keys.last() == id {
        lemma_unvisited_mono(pre, vis, vis.insert(id));
    } else {
        let j = choose|j: int| 0 <= j < keys.len() && keys[j] == id;
        assert(pre[j] == id);
        lemma_unvisited_insert(pre, vis, id);
    }
}

proof fn lemma_key_of_lookup(info: InfoView, id: Seq<char>)
    requires
        lookup(info, id) is Some,
    ensures
        keys_of(info).contains(id),
    decreases info.len(),
{
    if info[0].0 == id {
        assert(keys_of(info)[0] == id);
    } else {
        lemma_key_of_lookup(info.drop_first(), id);
        let j = choose|j: int| 0 <= j < keys_of(info.drop_first()).len() && keys_of(info.drop_first())[j] == id;
        assert(keys_of(info)[j + 1] == id);
    }
}

// ───────────────────────── string-set helpers ─────────────────────────

fn set_contains(v: &Vec<String>, s: &String) -> (b: bool)
    ensures
        b == set_of(v@).contains(s@),
{
    let mut i: usize = 0;
    while i < v.len()
        invariant
            i <= v@.len(),
            forall|k: int| 0 <= k < i ==> v@[k]@ != s@,
        decreases v@.len() - i,
    {
        if v[i] == *s {
            assert(strs(v@)[i as int] == s@);
            return true;
        }
        i += 1;
    }
    assert(!strs(v@).contains(s@)) by {
        if strs(v@).contains(s@) {
            let k = choose|k: int| 0 <= k < strs(v@).len() && strs(v@)[k] == s@;
            assert(v@[k]@ == s@);
        }
    }
    false
}

fn set_insert(v: &mut Vec<String>, s: &String)
    ensures
        set_of(final(v)@) == set_of(old(v)@).insert(s@),
{
    let ghost before = strs(v@);
    v.push(s.clone());
    assert(strs(v@) =~= before.push(s@));
    assert forall|x: Seq<char>| set_of(v@).contains(x) <==> set_of(old(v)@).insert(s@).contains(x) by {
        if strs(v@).contains(x) {
            let k = choose|k: int| 0 <= k < strs(v@).len() && strs(v@)[k] == x;
            if k < before.len() {
                assert(before[k] == x);
            }
        }
        if before.contains(x) {
            let k = choose|k: int| 0 <= k < before.len() && before[k] == x;
            assert(strs(v@)[k] == x);
        }
        if x == s@ {
            assert(strs(v@)[before.len() as int] == x);
        }
    }
    assert(set_of(final(v)@) =~= set_of(old(v)@).insert(s@));
}

fn set_remove(v: &mut Vec<String>, s: &String)
    ensures
        set_of(final(v)@) == set_of(old(v)@).remove(s@),
{
    let mut out: Vec<String> = Vec::new();
    let mut i: usize = 0;
    while i < v.len()
        invariant
            i <= v@.len(),
            forall|x: Seq<char>|
                strs(out@).contains(x) <==> (x != s@ && strs(v@.take(i as int)).contains(x)),
        decreases v@.len() - i,
    {
        let ghost before = strs(out@);
        assert(strs(v@.take(i + 1)) =~= strs(v@.take(i as int)).push(v@[i as int]@));
        if !(v[i] == *s) {
            out.push(v[i].clone());
            assert(strs(out@) =~= before.push(v@[i as int]@));
        }
        proof {
            lemma_filter_step(strs(v@.take(i as int)), v@[i as int]@, s@, before, strs(out@));
        }
        i += 1;
    }
    assert(v@.take(v@.len() as int) =~= v@);
    let ghost old_v = v@;
    *v = out;
    assert(set_of(final(v)@) =~= set_of(old_v).remove(s@));
}

proof fn lemma_filter_step(
    pre: Seq<Seq<char>>,
    x0: Seq<char>,
    s: Seq<char>,
    before: Seq<Seq<char>>,
    after: Seq<Seq<char>>,
)
    requires
        forall|x: Seq<char>| before.contains(x) <==> (x != s && pre.contains(x)),
        after == (if x0 != s { before.push(x0) } else { before }),
    ensures
        forall|x: Seq<char>| after.contains(x) <==> (x != s && pre.push(x0).contains(x)),
{
    let cur = pre.push(x0);
    assert forall|x: Seq<char>| after.contains(x) <==> (x != s && cur.contains(x)) by {
        if cur.contains(x) {
            let k = choose|k: int| 0 <= k < cur.len() && cur[k] == x;
            if k < pre.len() {
                assert(pre[k] == x);
            }
        }
        if pre.contains(x) {
            let k = choose|k: int| 0 <= k < pre.len() && pre[k] == x;
            assert(cur[k] == x);
        }
        if after.contains(x) {
            let k = choose|k: int| 0 <= k < after.len() && after[k] == x;
            if k < before.len() {
                assert(before[k] == x);
            }
        }
        if before.contains(x) {
            let k = choose|k: int| 0 <= k < before.len() && before[k] == x;
            assert(after[k] == x);
        }
        if x == x0 && x != s {
            assert(after[before.len() as int] == x);
            assert(cur[pre.len() as int] == x);
        }
    }
}


/// Position of the first entry of `v` equal to `s`.
fn first_index(v: &Vec<String>, s: &String) -> (r: Option<usize>)
    ensures
        match r {
            Some(p) => p < v@.len() && v@[p as int]@ == s@ && forall|q: int| 0 <= q < p ==> v@[q]@ != s@,
            None => forall|q: int| 0 <= q < v@.len() ==> v@[q]@ != s@,
        },
{
    let mut i: usize = 0;
    while i < v.len()
        invariant
            i <= v@.len(),
            forall|q: int| 0 <= q < i ==> v@[q]@ != s@,
        decreases v@.len() - i,
    {
        if v[i] == *s {
            return Some(i);
        }
        i += 1;
    }
    None
}

/// The lower-cased characters of each string.
fn lowered(v: &Vec<String>) -> (r: Vec<Vec<char>>)
    ensures
        r@.len() == v@.len(),
        forall|j: int| 0 <= j < v@.len() ==> r@[j]@ == lowercase(#[trigger] v@[j]@),
{
    let mut r: Vec<Vec<char>> = Vec::new();
    let mut i: usize = 0;
    while i < v.len()
        invariant
            i <= v@.len(),
            r@.len() == i,
            forall|j: int| 0 <= j < i ==> r@[j]@ == lowercase(#[trigger] v@[j]@),
        decreases v@.len() - i,
    {
        let c = chars_of(v[i].as_str());
        r.push(lower_chars(&c));
        i += 1;
    }
    r
}

/// Appends copies of all of `src`.
fn append_all(dst: &mut Vec<String>, src: &Vec<String>)
    ensures
        strs(final(dst)@) == strs(old(dst)@) + strs(src@),
{
    let mut i: usize = 0;
    while i < src.len()
        invariant
            i <= src@.len(),
            strs(dst@) == strs(old(dst)@) + strs(src@).take(i as int),
        decreases src@.len() - i,
    {
        let ghost before = strs(dst@);
        dst.push(src[i].clone());
        assert(strs(dst@) =~= before.push(src@[i as int]@));
        assert(strs(src@).take(i + 1) =~= strs(src@).take(i as int).push(src@[i as int]@));
        i += 1;
    }
    assert(strs(src@).take(src@.len() as int) =~= strs(src@));
}

/// The views of (file, mod) pairs.
pub open spec fn pair_views(v: Seq<(String, String)>) -> Seq<(Seq<char>, Seq<char>)> {
    v.map_values(|p: (String, String)| (p.0@, p.1@))
}

/// Appends `parts` joined by `sep`.
pub(crate) fn push_joined(out: &mut Vec<char>, parts: &Vec<String>, sep: &str)
    ensures
        final(out)@ == old(out)@ + join(strs(parts@), sep@),
{
    let ghost ps = strs(parts@);
    let mut i: usize = 0;
    assert(join(ps.take(0), sep@) =~= Seq::<char>::empty());
    assert(out@ =~= old(out)@ + join(ps.take(0), sep@));
    while i < parts.len()
        invariant
            i <= parts@.len(),
            ps == strs(parts@),
            out@ == old(out)@ + join(ps.take(i as int), sep@),
        decreases parts@.len() - i,
    {
        assert(ps.take(i + 1).drop_last() =~= ps.take(i as int));
        assert(ps.take(i + 1).last() == parts@[i as int]@);
        if i > 0 {
            push_str(out, sep);
        }
        push_str(out, parts[i].as_str());
        proof {
            if i == 0 {
                assert(ps.take(1)[0] == parts@[0]@);
            }
        }
        assert(out@ =~= old(out)@ + join(ps.take(i + 1), sep@));
        i += 1;
    }
    assert(ps.take(parts@.len() as int) =~= ps);
}

/// Whether some entry of `v` contains `pat`.
fn some_contains(v: &Vec<String>, pat: &str) -> (b: bool)
    ensures
        b == any_contains(strs(v@), pat@),
{
    let mut i: usize = 0;
    while i < v.len()
        invariant
            i <= v@.len(),
            forall|j: int| 0 <= j < i ==> !contains(#[trigger] strs(v@)[j], pat@),
        decreases v@.len() - i,
    {
        let c = chars_of(v[i].as_str());
        if contains_str(&c, pat) {
            assert(contains(strs(v@)[i as int], pat@));
            return true;
        }
        i += 1;
    }
    false
}

/// Appends `"  - " + item + "\n"` for each item.
fn push_bullets(out: &mut Vec<char>, items: &Vec<String>)
    ensures
        final(out)@ == old(out)@ + bullets(strs(items@)),
{
    let ghost it = strs(items@);
    let mut i: usize = 0;
    assert(it.take(0) =~= Seq::<Seq<char>>::empty());
    assert(out@ =~= old(out)@ + bullets(it.take(0)));
    while i < items.len()
        invariant
            i <= items@.len(),
            it == strs(items@),
            out@ == old(out)@ + bullets(it.take(i as int)),
        decreases items@.len() - i,
    {
        assert(it.take(i + 1).drop_last() =~= it.take(i as int));
        assert(it.take(i + 1).last() == items@[i as int]@);
        push_str(out, "  - ");
        push_str(out, items[i].as_str());
        push_str(out, "\n");
        assert(out@ =~= old(out)@ + bullets(it.take(i + 1)));
        i += 1;
    }
    assert(it.take(items@.len() as int) =~= it);
}

/// `Path::join` of two Unix paths.
pub(crate) fn join_path_exec(dir: &str, name: &str) -> (r: Vec<char>)
    ensures
        r@ == join_path(dir@, name@),
{
    let d = chars_of(dir);
    let n = chars_of(name);
    let mut r: Vec<char> = Vec::new();
    if n.len() > 0 && n[0] == '/' {
        crate::text::push_all(&mut r, &n);
    } else if d.len() == 0 || d[d.len() - 1] == '/' {
        crate::text::push_all(&mut r, &d);
        crate::text::push_all(&mut r, &n);
    } else {
        crate::text::push_all(&mut r, &d);
        r.push('/');
        crate::text::push_all(&mut r, &n);
        assert(r@ =~= dir@ + seq!['/'] + name@);
    }
    r
}

/// Whether the characters `c` are one of the strings of `v`.
pub(crate) fn listed(v: &[String], c: &Vec<char>) -> (b: bool)
    ensures
        b == strs(v@).contains(c@),
{
    let mut i: usize = 0;
    while i < v.len()
        invariant
            i <= v@.len(),
            forall|j: int| 0 <= j < i ==> strs(v@)[j] != c@,
        decreases v@.len() - i,
    {
        let vc = chars_of(v[i].as_str());
        if crate::text::eq_chars(&vc, c) {
            assert(strs(v@)[i as int] == c@);
            return true;
        }
        i += 1;
    }
    false
}

/// Appends `s` and returns the result as a string.
fn finish(v: &mut Vec<char>, s: &str) -> (r: String)
    ensures
        r@ == old(v)@ + s@,
{
    push_str(v, s);
    string_of(v)
}

impl LoadOrderValidator {
    /// One message for each entry of the order that repeats an earlier one.
    fn duplicates(order: &Vec<String>) -> (r: Vec<String>)
        ensures
            strs(r@) == duplicate_issues(strs(order@)),
    {
        let ghost o = strs(order@);
        let mut out: Vec<String> = Vec::new();
        let mut i: usize = 0;
        assert(o.take(0) =~= Seq::<Seq<char>>::empty());
        while i < order.len()
            invariant
                i <= order@.len(),
                o == strs(order@),
                strs(out@) == duplicate_issues(o.take(i as int)),
            decreases order@.len() - i,
        {
            let id = &order[i];
            let ghost pre = o.take(i as int);
            assert(o.take(i + 1).drop_last() =~= pre);
            assert(o.take(i + 1).last() == id@);
            let p = first_index(order, id);
            let dup = match p {
                Some(k) => k < i,
                None => false,
            };
            proof {
                if pre.contains(id@) {
                    let k = choose|k: int| 0 <= k < pre.len() && pre[k] == id@;
                    assert(order@[k]@ == id@);
                }
                if dup {
                    let k = p->0;
                    assert(pre[k as int] == id@);
                }
            }
            if dup {
                let mut m: Vec<char> = Vec::new();
                let msg = finish(&mut m, "Duplicate mod in load order: ");
                let mut m2: Vec<char> = Vec::new();
                push_str(&mut m2, msg.as_str());
                let msg = finish(&mut m2, id.as_str());
                let ghost before = strs(out@);
                out.push(msg);
                assert(strs(out@) =~= before.push(duplicate_msg(id@)));
                assert(duplicate_issues(o.take(i + 1)) =~= before + seq![duplicate_msg(id@)]);
            } else {
                assert(duplicate_issues(o.take(i + 1)) =~= strs(out@) + Seq::<Seq<char>>::empty());
            }
            i += 1;
        }
        assert(o.take(o.len() as int) =~= o);
        out
    }

    /// Missing-master messages over all metadata entries.
    fn missing_masters(load_order: &LoadOrder) -> (r: Vec<String>)
        ensures
            strs(r@) == missing_issues(strs(load_order.order@), load_order.mod_info@),
    {
        let ghost o = strs(load_order.order@);
        let ghost info = load_order.mod_info@;
        let low = lowered(&load_order.order);
        let mut out: Vec<String> = Vec::new();
        let mut e: usize = 0;
        let n = load_order.mod_info.len();
        assert(info.take(0) =~= Seq::<(Seq<char>, ModInfoView)>::empty());
        while e < n
            invariant
                e <= n == info.len(),
                o == strs(load_order.order@),
                info == load_order.mod_info@,
                low@.len() == o.len(),
                forall|j: int| 0 <= j < o.len() ==> low@[j]@ == lowercase(#[trigger] o[j]),
                strs(out@) == missing_issues(o, info.take(e as int)),
            decreases n - e,
        {
            let (id, mi) = load_order.mod_info.entry_at(e);
            let ghost ms = mi@.master_files;
            let ghost base = strs(out@);
            assert(info.take(e + 1).drop_last() =~= info.take(e as int));
            assert(info.take(e + 1).last() == info[e as int]);
            let mut k: usize = 0;
            assert(ms.take(0) =~= Seq::<Seq<char>>::empty());
            assert(base + missing_for(o, id@, ms.take(0)) =~= base);
            while k < mi.master_files.len()
                invariant
                    k <= mi.master_files@.len() == ms.len(),
                    ms == mi@.master_files,
                    low@.len() == o.len(),
                    forall|j: int| 0 <= j < o.len() ==> low@[j]@ == lowercase(#[trigger] o[j]),
                    strs(out@) == base + missing_for(o, id@, ms.take(k as int)),
                decreases ms.len() - k,
            {
                let master = &mi.master_files[k];
                assert(ms[k as int] == master@);
                assert(ms.take(k + 1).drop_last() =~= ms.take(k as int));
                assert(ms.take(k + 1).last() == master@);
                let mc = chars_of(master.as_str());
                let ml = lower_chars(&mc);
                let mut j: usize = 0;
                let mut found = false;
                while j < low.len()
                    invariant
                        j <= low@.len() == o.len(),
                        forall|q: int| 0 <= q < o.len() ==> low@[q]@ == lowercase(#[trigger] o[q]),
                        ml@ == lowercase(master@),
                        found ==> listed_ignoring_case(o, master@),
                        !found ==> forall|q: int| 0 <= q < j ==> lowercase(#[trigger] o[q]) != lowercase(master@),
                    decreases low@.len() - j,
                {
                    if crate::text::eq_chars(&low[j], &ml) {
                        found = true;
                        assert(lowercase(o[j as int]) == lowercase(master@));
                    }
                    j += 1;
                }
                let ghost before = strs(out@);
                if !found {
                    let mut m: Vec<char> = Vec::new();
                    push_str(&mut m, "Missing master file for ");
                    push_str(&mut m, id.as_str());
                    push_str(&mut m, ": ");
                    push_str(&mut m, master.as_str());
                    let msg = finish(&mut m, " (required but not in load order)");
                    out.push(msg);
                    assert(strs(out@) =~= before.push(missing_master_msg(id@, master@)));
                    assert(missing_for(o, id@, ms.take(k + 1)) =~= missing_for(o, id@, ms.take(k as int))
                        + seq![missing_master_msg(id@, master@)]);
                } else {
                    assert(missing_for(o, id@, ms.take(k + 1)) =~= missing_for(o, id@, ms.take(k as int))
                        + Seq::<Seq<char>>::empty());
                }
                k += 1;
            }
            assert(ms.take(ms.len() as int) =~= ms);
            e += 1;
        }
        assert(info.take(n as int) =~= info);
        out
    }

    /// Check if load order respects dependency ordering.
    fn check_load_order_sequence(load_order: &LoadOrder) -> (r: Vec<String>)
        ensures
            strs(r@) == sequence_issues(strs(load_order.order@), load_order.mod_info@),
    {
        let ghost o = strs(load_order.order@);
        let ghost info = load_order.mod_info@;
        let mut out: Vec<String> = Vec::new();
        let mut idx: usize = 0;
        while idx < load_order.order.len()
            invariant
                idx <= o.len(),
                o == strs(load_order.order@),
                info == load_order.mod_info@,
                strs(out@) == sequence_upto(o, info, idx as int),
            decreases o.len() - idx,
        {
            let id = &load_order.order[idx];
            assert(o[idx as int] == id@);
            match load_order.mod_info.get(id.as_str()) {
                Some(mi) => {
                    let ghost ms = mi@.master_files;
                    let ghost base = strs(out@);
                    let mut k: usize = 0;
                    assert(ms.take(0) =~= Seq::<Seq<char>>::empty());
                    assert(base + sequence_for(o, idx as int, id@, ms.take(0)) =~= base);
                    while k < mi.master_files.len()
                        invariant
                            k <= mi.master_files@.len() == ms.len(),
                            ms == mi@.master_files,
                            o == strs(load_order.order@),
                            idx < o.len(),
                            strs(out@) == base + sequence_for(o, idx as int, id@, ms.take(k as int)),
                        decreases ms.len() - k,
                    {
                        let master = &mi.master_files[k];
                        assert(ms[k as int] == master@);
                        assert(ms.take(k + 1).drop_last() =~= ms.take(k as int));
                        assert(ms.take(k + 1).last() == master@);
                        let fi = first_index(&load_order.order, master);
                        let late = match fi {
                            Some(p) => p > idx,
                            None => false,
                        };
                        proof {
                            match fi {
                                Some(p) => {
                                    assert(o[p as int] == master@);
                                    if p > idx {
                                        assert forall|q: int| 0 <= q <= idx && q < o.len() implies o[q] != master@ by {
                                            assert(o[q] == load_order.order@[q]@);
                                        }
                                        assert(comes_after(o, idx as int, master@));
                                    }
                                },
                                None => {
                                    assert forall|q: int| idx < q < o.len() implies o[q] != master@ by {
                                        assert(o[q] == load_order.order@[q]@);
                                    }
                                },
                            }
                            assert(late == comes_after(o, idx as int, master@));
                        }
                        let ghost before = strs(out@);
                        if late {
                            let mut m: Vec<char> = Vec::new();
                            push_str(&mut m, "Load order issue: ");
                            push_str(&mut m, id.as_str());
                            push_str(&mut m, " depends on ");
                            push_str(&mut m, master.as_str());
                            push_str(&mut m, " but ");
                            push_str(&mut m, master.as_str());
                            push_str(&mut m, " comes after ");
                            push_str(&mut m, id.as_str());
                            let msg = finish(&mut m, " in load order");
                            out.push(msg);
                            assert(strs(out@) =~= before.push(sequence_msg(id@, master@)));
                            assert(sequence_for(o, idx as int, id@, ms.take(k + 1)) =~= sequence_for(
                                o,
                                idx as int,
                                id@,
                                ms.take(k as int),
                            ) + seq![sequence_msg(id@, master@)]);
                        } else {
                            assert(sequence_for(o, idx as int, id@, ms.take(k + 1)) =~= sequence_for(
                                o,
                                idx as int,
                                id@,
                                ms.take(k as int),
                            ) + Seq::<Seq<char>>::empty());
                        }
                        k += 1;
                    }
                    assert(ms.take(ms.len() as int) =~= ms);
                },
                None => {
                    assert(sequence_upto(o, info, idx + 1) =~= sequence_upto(o, info, idx as int) + Seq::<Seq<char>>::empty());
                },
            }
            idx += 1;
        }
        out
    }

    /// Validate load order for issues including missing masters and circular dependencies.
    pub fn validate_load_order(load_order: &LoadOrder) -> (r: (bool, Vec<String>))
        ensures
            strs(r.1@) == load_order_issues(strs(load_order.order@), load_order.mod_info@),
            r.0 == (r.1@.len() == 0),
    {
        let mut issues = Self::duplicates(&load_order.order);
        let missing = Self::missing_masters(load_order);
        let circular = Self::find_circular_dependencies(load_order);
        let sequence = Self::check_load_order_sequence(load_order);
        append_all(&mut issues, &missing);
        append_all(&mut issues, &circular);
        append_all(&mut issues, &sequence);
        let valid = issues.len() == 0;
        (valid, issues)
    }

    /// (master, mod) for every master of every metadata entry.
    fn pairs_of(load_order: &LoadOrder) -> (r: Vec<(String, String)>)
        ensures
            pair_views(r@) == master_pairs(load_order.mod_info@),
    {
        let ghost info = load_order.mod_info@;
        let mut out: Vec<(String, String)> = Vec::new();
        let n = load_order.mod_info.len();
        let mut e: usize = 0;
        assert(info.take(0) =~= Seq::<(Seq<char>, ModInfoView)>::empty());
        while e < n
            invariant
                e <= n == info.len(),
                info == load_order.mod_info@,
                pair_views(out@) == master_pairs(info.take(e as int)),
            decreases n - e,
        {
            let (id, mi) = load_order.mod_info.entry_at(e);
            let ghost ms = mi@.master_files;
            let ghost base = pair_views(out@);
            assert(info.take(e + 1).drop_last() =~= info.take(e as int));
            assert(info.take(e + 1).last() == info[e as int]);
            let mut k: usize = 0;
            while k < mi.master_files.len()
                invariant
                    k <= mi.master_files@.len() == ms.len(),
                    ms == mi@.master_files,
                    pair_views(out@) == base + ms.take(k as int).map_values(|m: Seq<char>| (m, id@)),
                decreases ms.len() - k,
            {
                let ghost before = pair_views(out@);
                out.push((mi.master_files[k].clone(), id.clone()));
                assert(ms[k as int] == mi.master_files@[k as int]@);
                assert(pair_views(out@) =~= before.push((ms[k as int], id@)));
                assert(ms.take(k + 1).map_values(|m: Seq<char>| (m, id@)) =~= ms.take(k as int).map_values(
                    |m: Seq<char>| (m, id@),
                ).push((ms[k as int], id@)));
                k += 1;
            }
            assert(ms.take(ms.len() as int) =~= ms);
            e += 1;
        }
        assert(info.take(n as int) =~= info);
        out
    }

    /// Check for file conflicts between mods (the same master listed by
    /// several mods) and known incompatible pairs.
    pub fn check_conflicts(load_order: &LoadOrder) -> (r: Vec<String>)
        ensures
            strs(r@) == conflicts(strs(load_order.order@), load_order.mod_info@),
    {
        let pairs = Self::pairs_of(load_order);
        let ghost ps = pair_views(pairs@);
        // distinct files, in order of first appearance
        let mut files: Vec<String> = Vec::new();
        let mut i: usize = 0;
        assert(ps.take(0) =~= Seq::<(Seq<char>, Seq<char>)>::empty());
        while i < pairs.len()
            invariant
                i <= pairs@.len(),
                ps == pair_views(pairs@),
                strs(files@) == first_files(ps.take(i as int)),
            decreases pairs@.len() - i,
        {
            let f = &pairs[i].0;
            assert(ps.take(i + 1).drop_last() =~= ps.take(i as int));
            assert(ps.take(i + 1).last().0 == f@);
            let fi = first_index(&files, f);
            let known = fi.is_some();
            proof {
                if let Some(k) = fi {
                    assert(strs(files@)[k as int] == f@);
                }
                if strs(files@).contains(f@) {
                    let k = choose|k: int| 0 <= k < strs(files@).len() && strs(files@)[k] == f@;
                    assert(files@[k]@ == f@);
                }
            }
            if !known {
                let ghost before = strs(files@);
                files.push(f.clone());
                assert(strs(files@) =~= before.push(f@));
            }
            i += 1;
        }
        assert(ps.take(ps.len() as int) =~= ps);
        let ghost fs = strs(files@);
        let mut out: Vec<String> = Vec::new();
        let mut j: usize = 0;
        assert(fs.take(0) =~= Seq::<Seq<char>>::empty());
        while j < files.len()
            invariant
                j <= files@.len(),
                fs == strs(files@),
                ps == pair_views(pairs@),
                strs(out@) == owner_conflicts(ps, fs.take(j as int)),
            decreases files@.len() - j,
        {
            let f = &files[j];
            assert(fs.take(j + 1).drop_last() =~= fs.take(j as int));
            assert(fs.take(j + 1).last() == f@);
            let mut who: Vec<String> = Vec::new();
            let mut k: usize = 0;
            assert(ps.take(0) =~= Seq::<(Seq<char>, Seq<char>)>::empty());
            while k < pairs.len()
                invariant
                    k <= pairs@.len(),
                    ps == pair_views(pairs@),
                    strs(who@) == owners(ps.take(k as int), f@),
                decreases pairs@.len() - k,
            {
                assert(ps.take(k + 1).drop_last() =~= ps.take(k as int));
                assert(ps.take(k + 1).last() == (pairs@[k as int].0@, pairs@[k as int].1@));
                if pairs[k].0 == *f {
                    let ghost before = strs(who@);
                    who.push(pairs[k].1.clone());
                    assert(strs(who@) =~= before.push(pairs@[k as int].1@));
                    assert(owners(ps.take(k + 1), f@) =~= before + seq![pairs@[k as int].1@]);
                } else {
                    assert(owners(ps.take(k + 1), f@) =~= strs(who@) + Seq::<Seq<char>>::empty());
                }
                k += 1;
            }
            assert(ps.take(ps.len() as int) =~= ps);
            let ghost before = strs(out@);
            if who.len() > 1 {
                let mut m: Vec<char> = Vec::new();
                push_str(&mut m, "Potential conflict: Multiple mods modify ");
                push_str(&mut m, f.as_str());
                push_str(&mut m, " (mods: ");
                push_joined(&mut m, &who, ", ");
                let msg = finish(&mut m, ")");
                out.push(msg);
                assert(strs(out@) =~= before.push(conflict_msg(f@, strs(who@))));
                assert(owner_conflicts(ps, fs.take(j + 1)) =~= before + seq![conflict_msg(f@, strs(who@))]);
            } else {
                assert(owner_conflicts(ps, fs.take(j + 1)) =~= before + Seq::<Seq<char>>::empty());
            }
            j += 1;
        }
        assert(fs.take(fs.len() as int) =~= fs);
        let ghost base = strs(out@);
        if some_contains(&load_order.order, "Fallout4.esm") && some_contains(&load_order.order, "FalloutNV.esm") {
            let mut m: Vec<char> = Vec::new();
            push_str(&mut m, "Incompatible mods detected: ");
            push_str(&mut m, "Fallout4.esm");
            push_str(&mut m, " and ");
            push_str(&mut m, "FalloutNV.esm");
            let msg = finish(&mut m, " cannot be used together");
            out.push(msg);
            assert(strs(out@) =~= base + seq![incompatible_msg("Fallout4.esm"@, "FalloutNV.esm"@)]);
        } else {
            assert(strs(out@) =~= base + Seq::<Seq<char>>::empty());
        }
        let ghost base2 = strs(out@);
        if some_contains(&load_order.order, "DLCUltimateEdition.esm") && some_contains(&load_order.order, "DLCRobot.esm") {
            let mut m: Vec<char> = Vec::new();
            push_str(&mut m, "Incompatible mods detected: ");
            push_str(&mut m, "DLCUltimateEdition.esm");
            push_str(&mut m, " and ");
            push_str(&mut m, "DLCRobot.esm");
            let msg = finish(&mut m, " cannot be used together");
            out.push(msg);
            assert(strs(out@) =~= base2 + seq![incompatible_msg("DLCUltimateEdition.esm"@, "DLCRobot.esm"@)]);
        } else {
            assert(strs(out@) =~= base2 + Seq::<Seq<char>>::empty());
        }
        out
    }

    /// Suggest a load order from the dependencies (a topological sort: each
    /// mod after the masters it needs).
    pub fn suggest_order(load_order: &LoadOrder) -> (r: Vec<String>)
        ensures
            strs(r@) == suggested(strs(load_order.order@), load_order.mod_info@),
    {
        let ghost info = load_order.mod_info@;
        let ghost order = strs(load_order.order@);
        let ghost fuel: nat = (info.len() + 1) as nat;
        let mut visited: Vec<String> = Vec::new();
        let mut order_stack: Vec<String> = Vec::new();
        let mut i: usize = 0;
        assert(set_of(visited@) =~= Set::<Seq<char>>::empty());
        assert(strs(order_stack@) =~= Seq::<Seq<char>>::empty());
        assert(order.take(0) =~= Seq::<Seq<char>>::empty());
        while i < load_order.order.len()
            invariant
                i <= load_order.order@.len(),
                info == load_order.mod_info@,
                order == strs(load_order.order@),
                fuel == info.len() + 1,
                topo_state(info, order, fuel, order.take(i as int)) == (set_of(visited@), strs(order_stack@)),
            decreases load_order.order@.len() - i,
        {
            let id = &load_order.order[i];
            assert(order.take(i + 1).drop_last() =~= order.take(i as int));
            assert(order.take(i + 1).last() == id@);
            if !set_contains(&visited, id) {
                proof {
                    lemma_unvisited_le(keys_of(info), set_of(visited@));
                }
                Self::topological_sort_dfs(id, load_order, &mut visited, &mut order_stack, Ghost(fuel));
            }
            i += 1;
        }
        assert(order.take(order.len() as int) =~= order);
        order_stack
    }

    /// Depth-first search from `id` (not yet visited) that pushes each node
    /// after the masters it reaches.
    fn topological_sort_dfs(
        id: &String,
        load_order: &LoadOrder,
        visited: &mut Vec<String>,
        stack: &mut Vec<String>,
        Ghost(fuel): Ghost<nat>,
    )
        requires
            fuel > unvisited(keys_of(load_order.mod_info@), set_of(old(visited)@)),
            !set_of(old(visited)@).contains(id@),
        ensures
            (set_of(final(visited)@), strs(final(stack)@)) == topo_dfs(
                load_order.mod_info@,
                strs(load_order.order@),
                fuel,
                id@,
                set_of(old(visited)@),
                strs(old(stack)@),
            ),
            set_of(old(visited)@).subset_of(set_of(final(visited)@)),
        decreases fuel,
    {
        let ghost info = load_order.mod_info@;
        let ghost order = strs(load_order.order@);
        let ghost keys = keys_of(info);
        let ghost vis0 = set_of(visited@);
        let ghost out0 = strs(stack@);
        set_insert(visited, id);
        match load_order.mod_info.get(id.as_str()) {
            Some(mi) => {
                proof {
                    lemma_key_of_lookup(info, id@);
                    lemma_unvisited_insert(keys, vis0, id@);
                }
                let ghost ms = mi@.master_files;
                let ghost f1: nat = (fuel - 1) as nat;
                let mut i: usize = 0;
                assert(ms.skip(0) =~= ms);
                while i < mi.master_files.len()
                    invariant
                        i <= mi.master_files@.len() == ms.len(),
                        ms == mi@.master_files,
                        lookup(info, id@) == Some(mi@),
                        info == load_order.mod_info@,
                        order == strs(load_order.order@),
                        keys == keys_of(info),
                        f1 + 1 == fuel,
                        vis0 == set_of(old(visited)@),
                        out0 == strs(old(stack)@),
                        unvisited(keys, vis0.insert(id@)) < f1,
                        vis0.insert(id@).subset_of(set_of(visited@)),
                        topo_masters(info, order, f1, ms, vis0.insert(id@), out0) == topo_masters(
                            info,
                            order,
                            f1,
                            ms.skip(i as int),
                            set_of(visited@),
                            strs(stack@),
                        ),
                    decreases ms.len() - i,
                {
                    let master = &mi.master_files[i];
                    assert(ms[i as int] == master@);
                    assert(ms.skip(i as int).drop_first() =~= ms.skip(i + 1));
                    assert(ms.skip(i as int)[0] == master@);
                    let seen = set_contains(visited, master);
                    let fi = first_index(&load_order.order, master);
                    proof {
                        if let Some(p) = fi {
                            assert(order[p as int] == master@);
                        }
                        if order.contains(master@) {
                            let p = choose|p: int| 0 <= p < order.len() && order[p] == master@;
                            assert(load_order.order@[p]@ == master@);
                        }
                    }
                    if !seen && fi.is_some() {
                        proof {
                            lemma_unvisited_mono(keys, vis0.insert(id@), set_of(visited@));
                        }
                        let ghost v1 = set_of(visited@);
                        Self::topological_sort_dfs(master, load_order, visited, stack, Ghost(f1));
                        assert(v1.subset_of(set_of(visited@)));
                    }
                    i += 1;
                }
                assert(ms.skip(ms.len() as int) =~= Seq::<Seq<char>>::empty());
            },
            None => {},
        }
        let ghost before = strs(stack@);
        stack.push(id.clone());
        assert(strs(stack@) =~= before.push(id@));
    }

    /// Validate that every mod folder exists and that every master is either
    /// present as a file or listed in the order. `existing` holds the paths
    /// that exist and `folders` those of them that are directories.
    pub fn validate_file_integrity(
        load_order: &LoadOrder,
        mod_folder: &str,
        existing: &[String],
        folders: &[String],
    ) -> (r: (bool, Vec<String>))
        ensures
            strs(r.1@) == integrity_issues(
                strs(load_order.order@),
                load_order.mod_info@,
                mod_folder@,
                strs(existing@),
                strs(folders@),
            ),
            r.0 == (r.1@.len() == 0),
    {
        let ghost o = strs(load_order.order@);
        let mut missing: Vec<String> = Vec::new();
        let mut i: usize = 0;
        assert(o.take(0) =~= Seq::<Seq<char>>::empty());
        while i < load_order.order.len()
            invariant
                i <= o.len(),
                o == strs(load_order.order@),
                strs(missing@) == folder_issues(mod_folder@, o.take(i as int), strs(existing@), strs(folders@)),
            decreases o.len() - i,
        {
            let id = &load_order.order[i];
            assert(o.take(i + 1).drop_last() =~= o.take(i as int));
            assert(o.take(i + 1).last() == id@);
            let path = join_path_exec(mod_folder, id.as_str());
            let ghost before = strs(missing@);
            if !listed(existing, &path) {
                let mut m: Vec<char> = Vec::new();
                push_str(&mut m, "Mod folder missing: ");
                push_str(&mut m, id.as_str());
                push_str(&mut m, " (path: ");
                crate::text::push_all(&mut m, &path);
                let msg = finish(&mut m, ")");
                missing.push(msg);
                assert(strs(missing@) =~= before + seq![folder_missing_msg(id@, path@)]);
            } else if !listed(folders, &path) {
                let mut m: Vec<char> = Vec::new();
                push_str(&mut m, "Expected mod folder but found file: ");
                let msg = finish(&mut m, id.as_str());
                missing.push(msg);
                assert(strs(missing@) =~= before + seq![not_a_folder_msg(id@)]);
            } else {
                assert(strs(missing@) =~= before + Seq::<Seq<char>>::empty());
            }
            i += 1;
        }
        assert(o.take(o.len() as int) =~= o);
        let pairs = Self::pairs_of(load_order);
        let ghost ps = pair_views(pairs@);
        let ghost base = strs(missing@);
        let mut k: usize = 0;
        assert(ps.take(0) =~= Seq::<(Seq<char>, Seq<char>)>::empty());
        assert(base =~= base + absent_masters(mod_folder@, o, ps.take(0), strs(existing@)));
        while k < pairs.len()
            invariant
                k <= pairs@.len(),
                ps == pair_views(pairs@),
                o == strs(load_order.order@),
                strs(missing@) == base + absent_masters(mod_folder@, o, ps.take(k as int), strs(existing@)),
            decreases pairs@.len() - k,
        {
            let master = &pairs[k].0;
            let id = &pairs[k].1;
            assert(ps.take(k + 1).drop_last() =~= ps.take(k as int));
            assert(ps.take(k + 1).last() == (master@, id@));
            let path = join_path_exec(mod_folder, master.as_str());
            let fi = first_index(&load_order.order, master);
            proof {
                if let Some(p) = fi {
                    assert(o[p as int] == master@);
                }
                if o.contains(master@) {
                    let p = choose|p: int| 0 <= p < o.len() && o[p] == master@;
                    assert(load_order.order@[p]@ == master@);
                }
            }
            let ghost before = strs(missing@);
            if !listed(existing, &path) && fi.is_none() {
                let mut m: Vec<char> = Vec::new();
                push_str(&mut m, "Master file not found: ");
                push_str(&mut m, master.as_str());
                push_str(&mut m, " (required by ");
                push_str(&mut m, id.as_str());
                let msg = finish(&mut m, ")");
                missing.push(msg);
                assert(strs(missing@) =~= before.push(master_not_found_msg(master@, id@)));
            }
            assert(absent_masters(mod_folder@, o, ps.take(k + 1), strs(existing@)) =~= absent_masters(
                mod_folder@,
                o,
                ps.take(k as int),
                strs(existing@),
            ) + if !strs(existing@).contains(join_path(mod_folder@, master@)) && !o.contains(master@) {
                seq![master_not_found_msg(master@, id@)]
            } else {
                Seq::<Seq<char>>::empty()
            });
            k += 1;
        }
        assert(ps.take(ps.len() as int) =~= ps);
        let valid = missing.len() == 0;
        (valid, missing)
    }

    /// Get validation summary.
    pub fn get_validation_summary(load_order: &LoadOrder) -> (r: String)
        ensures
            r@ == summary_text(strs(load_order.order@), load_order.mod_info@),
    {
        let (valid, issues) = Self::validate_load_order(load_order);
        let conflicts = Self::check_conflicts(load_order);
        let mut s: Vec<char> = Vec::new();
        push_str(&mut s, "Total mods: ");
        push_decimal(&mut s, load_order.order.len() as u64);
        push_str(&mut s, "\n");
        if valid {
            push_str(&mut s, "\u{2713} Load order is valid\n");
        } else {
            push_str(&mut s, "\u{2717} ");
            push_decimal(&mut s, issues.len() as u64);
            push_str(&mut s, " issues found:\n");
            push_bullets(&mut s, &issues);
        }
        if conflicts.len() > 0 {
            push_str(&mut s, "\n\u{26a0} ");
            push_decimal(&mut s, conflicts.len() as u64);
            push_str(&mut s, " potential conflicts:\n");
            push_bullets(&mut s, &conflicts);
        }
        let ghost o = strs(load_order.order@);
        let ghost info = load_order.mod_info@;
        assert(strs(issues@).len() == issues@.len());
        assert(strs(conflicts@).len() == conflicts@.len());
        assert(s@ =~= summary_text(o, info));
        string_of(&s)
    }

    /// Depth-first cycle search from `id` (not yet visited).
    fn has_cycle(
        id: &String,
        load_order: &LoadOrder,
        visited: &mut Vec<String>,
        rec_stack: &mut Vec<String>,
        Ghost(fuel): Ghost<nat>,
    ) -> (r: bool)
        requires
            fuel > unvisited(keys_of(load_order.mod_info@), set_of(old(visited)@)),
            !set_of(old(visited)@).contains(id@),
        ensures
            (r, set_of(final(visited)@), set_of(final(rec_stack)@)) == cycle_dfs(
                load_order.mod_info@,
                fuel,
                id@,
                set_of(old(visited)@),
                set_of(old(rec_stack)@),
            ),
            set_of(old(visited)@).subset_of(set_of(final(visited)@)),
        decreases fuel,
    {
        let ghost info = load_order.mod_info@;
        let ghost keys = keys_of(info);
        let ghost vis0 = set_of(visited@);
        let ghost stk0 = set_of(rec_stack@);
        set_insert(visited, id);
        set_insert(rec_stack, id);
        match load_order.mod_info.get(id.as_str()) {
            Some(mi) => {
                proof {
                    lemma_key_of_lookup(info, id@);
                    lemma_unvisited_insert(keys, vis0, id@);
                }
                let ghost ms = mi@.master_files;
                let ghost f1: nat = (fuel - 1) as nat;
                let mut i: usize = 0;
                assert(ms.skip(0) =~= ms);
                while i < mi.master_files.len()
                    invariant
                        i <= mi.master_files@.len() == ms.len(),
                        ms == mi@.master_files,
                        lookup(info, id@) == Some(mi@),
                        info == load_order.mod_info@,
                        keys == keys_of(info),
                        f1 + 1 == fuel,
                        vis0 == set_of(old(visited)@),
                        stk0 == set_of(old(rec_stack)@),
                        unvisited(keys, vis0.insert(id@)) < f1,
                        vis0.insert(id@).subset_of(set_of(visited@)),
                        cycle_masters(info, f1, ms, vis0.insert(id@), stk0.insert(id@)) == cycle_masters(
                            info,
                            f1,
                            ms.skip(i as int),
                            set_of(visited@),
                            set_of(rec_stack@),
                        ),
                    decreases ms.len() - i,
                {
                    let master = &mi.master_files[i];
                    assert(ms[i as int] == master@);
                    assert(ms.skip(i as int).drop_first() =~= ms.skip(i + 1));
                    assert(ms.skip(i as int)[0] == master@);
                    if !set_contains(visited, master) {
                        proof {
                            lemma_unvisited_mono(keys, vis0.insert(id@), set_of(visited@));
                        }
                        let ghost v1 = set_of(visited@);
                        if Self::has_cycle(master, load_order, visited, rec_stack, Ghost(f1)) {
                            return true;
                        }
                        assert(v1.subset_of(set_of(visited@)));
                    } else if set_contains(rec_stack, master) {
                        return true;
                    }
                    i += 1;
                }
                assert(ms.skip(ms.len() as int) =~= Seq::<Seq<char>>::empty());
                set_remove(rec_stack, id);
                false
            },
            None => {
                set_remove(rec_stack, id);
                false
            },
        }
    }

    /// Find circular dependencies in the load order.
    fn find_circular_dependencies(load_order: &LoadOrder) -> (r: Vec<String>)
        ensures
            strs(r@) == circular_issues(strs(load_order.order@), load_order.mod_info@),
    {
        let ghost info = load_order.mod_info@;
        let ghost order = strs(load_order.order@);
        let ghost fuel: nat = (info.len() + 1) as nat;
        let mut circular: Vec<String> = Vec::new();
        let mut visited: Vec<String> = Vec::new();
        let mut rec_stack: Vec<String> = Vec::new();
        let mut i: usize = 0;
        assert(set_of(visited@) =~= Set::<Seq<char>>::empty());
        assert(set_of(rec_stack@) =~= Set::<Seq<char>>::empty());
        assert(order.take(0) =~= Seq::<Seq<char>>::empty());
        while i < load_order.order.len()
            invariant
                i <= load_order.order@.len(),
                info == load_order.mod_info@,
                order == strs(load_order.order@),
                fuel == info.len() + 1,
                circular_state(info, fuel, order.take(i as int)) == (
                    strs(circular@),
                    set_of(visited@),
                    set_of(rec_stack@),
                ),
            decreases load_order.order@.len() - i,
        {
            let id = &load_order.order[i];
            assert(order.take(i + 1).drop_last() =~= order.take(i as int));
            assert(order.take(i + 1).last() == id@);
            if !set_contains(&visited, id) {
                proof {
                    lemma_unvisited_le(keys_of(info), set_of(visited@));
                }
                let found = Self::has_cycle(id, load_order, &mut visited, &mut rec_stack, Ghost(fuel));
                if found {
                    let mut m: Vec<char> = Vec::new();
                    push_str(&mut m, "Circular dependency detected involving: ");
                    let msg = finish(&mut m, id.as_str());
                    let ghost before = strs(circular@);
                    circular.push(msg);
                    assert(strs(circular@) =~= before.push(circular_msg(id@)));
                }
            }
            i += 1;
        }
        assert(order.take(order.len() as int) =~= order);
        circular
    }
}

} // verus!
