//! Depth-first search of a unit's entry tree, bounded by address ranges.
//!
//! Each entry is given an action: it is the entry sought, or its children are
//! visited, or its whole subtree is skipped. An entry is reached from a root when
//! every entry on the path from the root down to it (the root included, the
//! entry itself excluded) visits its children. Since a parent always precedes
//! its children, one forward pass over the entries decides reachability.

use vstd::prelude::*;
use crate::dwarf::{DebugUnit, Entry, EntryTag, entry_covers, entry_ok, in_range, is_ancestor, lemma_ancestor_below, lemma_parent_before};
use crate::text::same_text;

verus! {

/// What a search does at one entry.
#[derive(Debug, PartialEq, Eq)]
pub enum SearchAction<T> {
    Found(T),
    VisitChildren,
    SkipChildren,
}

/// The name of the variable that a capture guard declares in a frame.
pub const GUARD_VARIABLE: &'static str = "__pretty_backtrace_guard";

/// Entry `i` is reached from `root` when each entry on the path between them
/// visits its children (`skip` marks those that do not).
pub open spec fn reaches(entries: Seq<Entry>, root: int, skip: Seq<bool>, i: int) -> bool
    decreases i,
{
    if i == root {
        0 <= root < entries.len()
    } else if i <= root || i >= entries.len() || root < 0 {
        false
    } else {
        match entries[i].parent {
            Some(p) => root <= p < i && reaches(entries, root, skip, p as int) && !skip[p as int],
            None => false,
        }
    }
}

/// For every entry, whether it is reached from `root`.
pub fn reachable_from(unit: &DebugUnit, root: usize, skip: &Vec<bool>) -> (reach: Vec<bool>)
    requires
        unit.wf(),
        root < unit.entries@.len(),
        skip@.len() == unit.entries@.len(),
    ensures
        reach@.len() == unit.entries@.len(),
        forall|i: int| 0 <= i < reach@.len() ==> #[trigger] reach@[i] == reaches(unit.entries@, root as int, skip@, i),
{
    let n = unit.entries.len();
    let mut reach: Vec<bool> = Vec::new();
    let mut i: usize = 0;
    while i < n
        invariant
            unit.wf(),
            n == unit.entries@.len(),
            root < n,
            skip@.len() == n,
            0 <= i <= n,
            reach@.len() == i,
            forall|k: int| 0 <= k < i ==> #[trigger] reach@[k] == reaches(unit.entries@, root as int, skip@, k),
        decreases n - i,
    {
        let v = if i == root {
            true
        } else if i < root {
            false
        } else {
            match unit.entries[i].parent {
                Some(p) => {
                    proof {
                        lemma_parent_before(unit, i as int);
                    }
                    root <= p && reach[p] && !skip[p]
                },
                None => false,
            }
        };
        reach.push(v);
        i = i + 1;
    }
    reach
}

/// Marks the entries whose action does not visit their children.
pub open spec fn skips_of<T>(actions: Seq<SearchAction<T>>) -> Seq<bool> {
    Seq::new(actions.len(), |i: int| !(actions[i] is VisitChildren))
}

/// `i` is reached from `root` and its action finds a value.
pub open spec fn found_at<T>(entries: Seq<Entry>, root: int, actions: Seq<SearchAction<T>>, i: int) -> bool {
    &&& 0 <= i < entries.len()
    &&& reaches(entries, root, skips_of(actions), i)
    &&& actions[i] is Found
}

/// Depth-first search below `root`, given each entry's action: the value of
/// the first entry reached whose action finds one. A well-formed unit keeps
/// its entries in depth-first pre-order, so the first by index is the first
/// that a depth-first walk meets.
pub fn search_tree<T: Copy>(unit: &DebugUnit, root: usize, actions: &Vec<SearchAction<T>>) -> (r: Option<T>)
    requires
        unit.wf(),
        root < unit.entries@.len(),
        actions@.len() == unit.entries@.len(),
    ensures
        match r {
            Some(v) => exists|i: int| {
                &&& #[trigger] found_at(unit.entries@, root as int, actions@, i)
                &&& actions@[i] == SearchAction::Found(v)
                &&& forall|j: int| 0 <= j < i ==> !#[trigger] found_at(unit.entries@, root as int, actions@, j)
            },
            None => forall|j: int| !#[trigger] found_at(unit.entries@, root as int, actions@, j),
        },
{
    let n = unit.entries.len();
    let mut skip: Vec<bool> = Vec::new();
    let mut i: usize = 0;
    while i < n
        invariant
            n == unit.entries@.len(),
            actions@.len() == n,
            0 <= i <= n,
            skip@.len() == i,
            forall|k: int| 0 <= k < i ==> #[trigger] skip@[k] == skips_of(actions@)[k],
        decreases n - i,
    {
        skip.push(!matches!(actions[i], SearchAction::VisitChildren));
        i = i + 1;
    }
    assert(skip@ =~= skips_of(actions@));
    let reach = reachable_from(unit, root, &skip);
    let mut j: usize = 0;
    while j < n
        invariant
            n == unit.entries@.len(),
            actions@.len() == n,
            reach@.len() == n,
            skip@ == skips_of(actions@),
            forall|k: int| 0 <= k < n ==> #[trigger] reach@[k] == reaches(unit.entries@, root as int, skip@, k),
            0 <= j <= n,
            forall|k: int| 0 <= k < j ==> !#[trigger] found_at(unit.entries@, root as int, actions@, k),
        decreases n - j,
    {
        if reach[j] {
            match actions[j] {
                SearchAction::Found(v) => {
                    assert(found_at(unit.entries@, root as int, actions@, j as int));
                    return Some(v);
                },
                _ => {},
            }
        }
        assert(!found_at(unit.entries@, root as int, actions@, j as int));
        j = j + 1;
    }
    None
}

/// Whether the search for the subprogram that covers `svma` looks below an
/// entry: an entry whose own ranges miss the address prunes its subtree; one
/// that covers it, or has no ranges, is looked through, so that nested
/// subprograms are reached.
pub open spec fn die_visits(e: Entry, svma: u64) -> bool {
    entry_covers(e, svma) || e.ranges is None
}

pub open spec fn die_skips(entries: Seq<Entry>, svma: u64) -> Seq<bool> {
    Seq::new(entries.len(), |i: int| !die_visits(entries[i], svma))
}

/// `i` is a subprogram that covers `svma` and is reached from the unit's root.
pub open spec fn die_candidate(entries: Seq<Entry>, svma: u64, i: int) -> bool {
    &&& 0 <= i < entries.len()
    &&& reaches(entries, 0, die_skips(entries, svma), i)
    &&& entries[i].tag == EntryTag::Subprogram
    &&& entry_covers(entries[i], svma)
}

/// The innermost subprogram that covers `svma`, on a path of entries that
/// cover it or carry no ranges: the last such subprogram in depth-first order,
/// so that no covering subprogram lies below it.
pub fn find_die_for_svma(unit: &DebugUnit, svma: u64) -> (r: Option<usize>)
    requires
        unit.wf(),
    ensures
        match r {
            Some(i) => {
                &&& die_candidate(unit.entries@, svma, i as int)
                &&& forall|j: int| i < j ==> !#[trigger] die_candidate(unit.entries@, svma, j)
                &&& forall|j: int| is_ancestor(unit.entries@, i as int, j) ==> !#[trigger] die_candidate(unit.entries@, svma, j)
            },
            None => forall|j: int| !#[trigger] die_candidate(unit.entries@, svma, j),
        },
{
    let n = unit.entries.len();
    if n == 0 {
        return None;
    }
    let mut skip: Vec<bool> = Vec::new();
    let mut i: usize = 0;
    while i < n
        invariant
            n == unit.entries@.len(),
            0 <= i <= n,
            skip@.len() == i,
            forall|k: int| 0 <= k < i ==> #[trigger] skip@[k] == die_skips(unit.entries@, svma)[k],
        decreases n - i,
    {
        let visits = in_range(unit, Some(i), svma) || unit.entries[i].ranges.is_none();
        skip.push(!visits);
        i = i + 1;
    }
    assert(skip@ =~= die_skips(unit.entries@, svma));
    let reach = reachable_from(unit, 0, &skip);
    let mut j: usize = n;
    while j > 0
        invariant
            n == unit.entries@.len(),
            reach@.len() == n,
            skip@ == die_skips(unit.entries@, svma),
            forall|k: int| 0 <= k < n ==> #[trigger] reach@[k] == reaches(unit.entries@, 0, skip@, k),
            0 <= j <= n,
            forall|k: int| j <= k ==> !#[trigger] die_candidate(unit.entries@, svma, k),
        decreases j,
    {
        let k = j - 1;
        if reach[k] && in_range(unit, Some(k), svma) && matches!(unit.entries[k].tag, EntryTag::Subprogram) {
            assert(die_candidate(unit.entries@, svma, k as int));
            proof {
                assert forall|m: int| is_ancestor(unit.entries@, k as int, m)
                    implies !#[trigger] die_candidate(unit.entries@, svma, m) by {
                    lemma_ancestor_below(unit.entries@, k as int, m);
                }
            }
            return Some(k);
        }
        assert(!die_candidate(unit.entries@, svma, k as int));
        j = k;
    }
    None
}

/// The action of the search for the variables in scope below `root`: nested
/// inlined calls are left out (they are reported as frames of their own), and
/// an entry whose own ranges miss the address prunes its subtree.
pub open spec fn scope_skips(entries: Seq<Entry>, root: int, svma: u64) -> Seq<bool> {
    Seq::new(entries.len(), |i: int|
        (i != root && entries[i].tag == EntryTag::InlinedSubroutine)
            || (entries[i].ranges is Some && !entry_covers(entries[i], svma)))
}

pub open spec fn is_variable_tag(t: EntryTag) -> bool {
    t == EntryTag::Variable || t == EntryTag::FormalParameter
}

/// `i` is a variable or parameter in scope at `svma` below `root`.
pub open spec fn in_scope(entries: Seq<Entry>, root: int, svma: u64, i: int) -> bool {
    &&& 0 <= i < entries.len()
    &&& reaches(entries, root, scope_skips(entries, root, svma), i)
    &&& is_variable_tag(entries[i].tag)
}

fn scope_skip_vector(unit: &DebugUnit, root: usize, svma: u64) -> (skip: Vec<bool>)
    ensures
        skip@ == scope_skips(unit.entries@, root as int, svma),
{
    let n = unit.entries.len();
    let mut skip: Vec<bool> = Vec::new();
    let mut i: usize = 0;
    while i < n
        invariant
            n == unit.entries@.len(),
            0 <= i <= n,
            skip@.len() == i,
            forall|k: int| 0 <= k < i ==> #[trigger] skip@[k] == scope_skips(unit.entries@, root as int, svma)[k],
        decreases n - i,
    {
        let inlined = i != root && matches!(unit.entries[i].tag, EntryTag::InlinedSubroutine);
        let misses = unit.entries[i].ranges.is_some() && !in_range(unit, Some(i), svma);
        skip.push(inlined || misses);
        i = i + 1;
    }
    assert(skip@ =~= scope_skips(unit.entries@, root as int, svma));
    skip
}

/// The variables and parameters in scope at `svma` below the function or
/// block entry `root`, in depth-first order.
pub fn variables_in_scope(unit: &DebugUnit, root: usize, svma: u64) -> (r: Vec<usize>)
    requires
        unit.wf(),
        root < unit.entries@.len(),
    ensures
        forall|k: int| 0 <= k < r@.len() ==> in_scope(unit.entries@, root as int, svma, #[trigger] r@[k] as int),
        forall|k1: int, k2: int| 0 <= k1 < k2 < r@.len() ==> r@[k1] < r@[k2],
        forall|i: int| #[trigger] in_scope(unit.entries@, root as int, svma, i) ==> r@.contains(i as usize),
{
    let n = unit.entries.len();
    let skip = scope_skip_vector(unit, root, svma);
    let reach = reachable_from(unit, root, &skip);
    let mut r: Vec<usize> = Vec::new();
    let mut j: usize = 0;
    while j < n
        invariant
            n == unit.entries@.len(),
            reach@.len() == n,
            skip@ == scope_skips(unit.entries@, root as int, svma),
            forall|k: int| 0 <= k < n ==> #[trigger] reach@[k] == reaches(unit.entries@, root as int, skip@, k),
            0 <= j <= n,
            forall|k: int| 0 <= k < r@.len() ==> in_scope(unit.entries@, root as int, svma, #[trigger] r@[k] as int),
            forall|k: int| 0 <= k < r@.len() ==> #[trigger] r@[k] < j,
            forall|k1: int, k2: int| 0 <= k1 < k2 < r@.len() ==> r@[k1] < r@[k2],
            forall|i: int| 0 <= i < j && #[trigger] in_scope(unit.entries@, root as int, svma, i) ==> r@.contains(i as usize),
        decreases n - j,
    {
        let var = matches!(unit.entries[j].tag, EntryTag::Variable | EntryTag::FormalParameter);
        if reach[j] && var {
            assert(in_scope(unit.entries@, root as int, svma, j as int));
            let ghost old_r = r@;
            r.push(j);
            assert(r@[r@.len() - 1] == j);
            assert forall|i: int| 0 <= i < j && #[trigger] in_scope(unit.entries@, root as int, svma, i)
                implies r@.contains(i as usize) by {
                assert(old_r.contains(i as usize));
                let k = choose|k: int| 0 <= k < old_r.len() && old_r[k] == i as usize;
                assert(r@[k] == old_r[k]);
            }
        }
        j = j + 1;
    }
    r
}

/// Every entry between `root` and a reached entry visits its children.
proof fn lemma_reached_path(entries: Seq<Entry>, root: int, skip: Seq<bool>, b: int, v: int)
    requires
        reaches(entries, root, skip, v),
        is_ancestor(entries, b, v),
        root <= b,
    ensures
        reaches(entries, root, skip, b),
        !skip[b],
    decreases v,
{
    lemma_ancestor_below(entries, b, v);
    if v == root {
    } else {
        let p = entries[v].parent->Some_0 as int;
        if p != b {
            lemma_reached_path(entries, root, skip, b, p);
        }
    }
}

/// A variable declared below an entry (other than the root) whose own ranges
/// miss the address is not in scope there: a block not on the current path
/// hides everything declared in it.
pub proof fn lemma_uncovered_block_hides_variables(entries: Seq<Entry>, root: int, svma: u64, b: int, v: int)
    requires
        is_ancestor(entries, b, v),
        root < b,
        entries[b].ranges is Some,
        !entry_covers(entries[b], svma),
    ensures
        !in_scope(entries, root, svma, v),
{
    lemma_ancestor_below(entries, b, v);
    if in_scope(entries, root, svma, v) {
        lemma_reached_path(entries, root, scope_skips(entries, root, svma), b, v);
    }
}

/// The nearest subprogram at or above entry `i`, whose frame base the
/// variables below it are located against.
pub open spec fn subprogram_above(entries: Seq<Entry>, i: int) -> Option<int>
    decreases i,
{
    if i < 0 || i >= entries.len() {
        None
    } else if entries[i].tag == EntryTag::Subprogram {
        Some(i)
    } else {
        match entries[i].parent {
            Some(p) => if p < i { subprogram_above(entries, p as int) } else { None },
            None => None,
        }
    }
}

/// The subprogram that contains entry `i`, or `i` itself where it is one.
pub fn enclosing_subprogram(unit: &DebugUnit, i: usize) -> (r: Option<usize>)
    requires
        i < unit.entries@.len(),
    ensures
        match r {
            Some(s) => subprogram_above(unit.entries@, i as int) == Some(s as int),
            None => subprogram_above(unit.entries@, i as int) is None,
        },
{
    let mut cur = i;
    loop
        invariant
            cur < unit.entries@.len(),
            subprogram_above(unit.entries@, i as int) == subprogram_above(unit.entries@, cur as int),
        decreases cur,
    {
        if matches!(unit.entries[cur].tag, EntryTag::Subprogram) {
            return Some(cur);
        }
        match unit.entries[cur].parent {
            Some(p) => {
                if p >= cur {
                    return None;
                }
                cur = p;
            },
            None => {
                return None;
            },
        }
    }
}

/// The entry that carries a variable's declaration: its abstract origin where
/// it has one, else the entry itself.
pub open spec fn declaration_of(entries: Seq<Entry>, i: int) -> int {
    match entries[i].abstract_origin {
        Some(o) => o as int,
        None => i,
    }
}

pub open spec fn name_view(n: Option<String>) -> Option<Seq<char>> {
    match n {
        Some(s) => Some(s@),
        None => None,
    }
}

/// The declared name of variable `i`.
pub fn variable_name(unit: &DebugUnit, i: usize) -> (r: Option<String>)
    requires
        unit.wf(),
        i < unit.entries@.len(),
    ensures
        name_view(r) == name_view(unit.entries@[declaration_of(unit.entries@, i as int)].name),
{
    proof {
        assert(entry_ok(unit.entries@, i as int));
    }
    let d = match unit.entries[i].abstract_origin {
        Some(o) => o,
        None => i,
    };
    match &unit.entries[d].name {
        Some(s) => Some(s.clone()),
        None => None,
    }
}

/// Variable `i` was declared by a capture guard.
pub open spec fn is_guard_variable(entries: Seq<Entry>, i: int) -> bool {
    name_view(entries[declaration_of(entries, i)].name) == Some(GUARD_VARIABLE@)
}

/// The number of in-scope variables among entries `0 .. n` that capture guards declared.
pub open spec fn guards_below(entries: Seq<Entry>, root: int, svma: u64, n: int) -> nat
    decreases n,
{
    if n <= 0 {
        0
    } else {
        guards_below(entries, root, svma, n - 1)
            + if in_scope(entries, root, svma, n - 1) && is_guard_variable(entries, n - 1) { 1nat } else { 0nat }
    }
}

/// The number of capture guards declared in scope at `svma` below `root`.
pub fn count_guard_variables(unit: &DebugUnit, root: usize, svma: u64) -> (r: usize)
    requires
        unit.wf(),
        root < unit.entries@.len(),
    ensures
        r == guards_below(unit.entries@, root as int, svma, unit.entries@.len() as int),
{
    let n = unit.entries.len();
    let skip = scope_skip_vector(unit, root, svma);
    let reach = reachable_from(unit, root, &skip);
    let mut count: usize = 0;
    let mut j: usize = 0;
    while j < n
        invariant
            unit.wf(),
            n == unit.entries@.len(),
            reach@.len() == n,
            skip@ == scope_skips(unit.entries@, root as int, svma),
            forall|k: int| 0 <= k < n ==> #[trigger] reach@[k] == reaches(unit.entries@, root as int, skip@, k),
            0 <= j <= n,
            count <= j,
            count == guards_below(unit.entries@, root as int, svma, j as int),
        decreases n - j,
    {
        let var = matches!(unit.entries[j].tag, EntryTag::Variable | EntryTag::FormalParameter);
        if reach[j] && var {
            let name = variable_name(unit, j);
            let guard = match &name {
                Some(s) => same_text(s.as_str(), GUARD_VARIABLE),
                None => false,
            };
            if guard {
                count = count + 1;
            }
        }
        j = j + 1;
    }
    count
}

} // verus!
