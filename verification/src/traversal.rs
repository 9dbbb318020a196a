//! Structural analysis of the control-flow graph: predecessor-free role
//! inference (entry / return / panic / cleanup / branch / loop), detection of
//! notable function properties, and loop detection by self-reachability.
use vstd::prelude::*;

use crate::ir::{
    CfgNode, FnBody, StmtKind, Term, TermKind, UnwindInfo, is_path, reach_plus, spec_in_loop,
    spec_node_targets, spec_targets, spec_unwind_target, wf_body, wf_node,
};
use crate::render::{call_marks_panic, call_name_marks_panic, call_name_of, extract_call_name};
use crate::text::str_eq;

verus! {

// =========================================================================
// Common types
// =========================================================================

/// Detected properties of a function.
#[derive(Clone)]
pub struct FunctionProperties {
    pub has_panic_path: bool,
    pub has_checked_ops: bool,
    pub has_borrows: bool,
    pub has_drops: bool,
    pub has_recursion: bool,
    pub has_assertions: bool,
    pub has_switches: bool,
}

/// Inferred role of a basic block. The roles are mutually exclusive; when a
/// node satisfies several conditions the precedence is
/// Entry > Cleanup > Loop > (Return, Panic, Branch).
#[derive(Clone, Copy, PartialEq, Eq, Structural, Debug)]
pub enum BlockRole {
    Entry,
    Return,
    Panic,
    Cleanup,
    Branch,
    Loop,
    Normal,
}

pub open spec fn spec_role_title(role: BlockRole) -> Seq<char> {
    match role {
        BlockRole::Entry => "entry"@,
        BlockRole::Return => "return / success"@,
        BlockRole::Panic => "panic path"@,
        BlockRole::Cleanup => "cleanup / unwind"@,
        BlockRole::Branch => "branch point"@,
        BlockRole::Loop => "loop"@,
        BlockRole::Normal => ""@,
    }
}

pub open spec fn spec_role_cfg_suffix(role: BlockRole) -> Seq<char> {
    match role {
        BlockRole::Entry => " (entry)"@,
        BlockRole::Return => " (return)"@,
        BlockRole::Panic => " (panic)"@,
        BlockRole::Cleanup => " (cleanup)"@,
        BlockRole::Branch => " (branch)"@,
        BlockRole::Loop => " (loop)"@,
        BlockRole::Normal => ""@,
    }
}

impl BlockRole {
    /// Human-readable title for the block role.
    pub fn title(&self) -> (r: &'static str)
        ensures
            r@ == spec_role_title(*self),
    {
        match self {
            BlockRole::Entry => "entry",
            BlockRole::Return => "return / success",
            BlockRole::Panic => "panic path",
            BlockRole::Cleanup => "cleanup / unwind",
            BlockRole::Branch => "branch point",
            BlockRole::Loop => "loop",
            BlockRole::Normal => "",
        }
    }

    /// Suffix for ASCII CFG diagrams.
    pub fn cfg_suffix(&self) -> (r: &'static str)
        ensures
            r@ == spec_role_cfg_suffix(*self),
    {
        match self {
            BlockRole::Entry => " (entry)",
            BlockRole::Return => " (return)",
            BlockRole::Panic => " (panic)",
            BlockRole::Cleanup => " (cleanup)",
            BlockRole::Branch => " (branch)",
            BlockRole::Loop => " (loop)",
            BlockRole::Normal => "",
        }
    }
}

// =========================================================================
// Terminator targets
// =========================================================================

/// Get target block indices from a terminator, value branches before the
/// fallthrough and normal targets before unwind targets.
pub fn get_terminator_targets(term: &Term) -> (r: Vec<usize>)
    ensures
        r@ == spec_targets(term.kind),
{
    match &term.kind {
        TermKind::Goto { target } => {
            let r = vec![*target];
            assert(r@ =~= spec_targets(term.kind));
            r
        },
        TermKind::SwitchInt { discr: _, targets } => {
            let mut r: Vec<usize> = Vec::new();
            let m = targets.branches.len();
            let mut i: usize = 0;
            while i < m
                invariant
                    i <= m,
                    m == targets.branches@.len(),
                    r@ =~= targets.branches@.take(i as int).map_values(|p: (u128, usize)| p.1),
                decreases m - i,
            {
                let t = targets.branches[i].1;
                r.push(t);
                proof {
                    assert(r@ =~= targets.branches@.take(i + 1).map_values(
                        |p: (u128, usize)| p.1,
                    ));
                }
                i = i + 1;
            }
            r.push(targets.otherwise);
            proof {
                assert(targets.branches@.take(m as int) =~= targets.branches@);
                assert(r@ =~= spec_targets(term.kind));
            }
            r
        },
        TermKind::Return => {
            let r: Vec<usize> = vec![];
            assert(r@ =~= spec_targets(term.kind));
            r
        },
        TermKind::Resume => {
            let r: Vec<usize> = vec![];
            assert(r@ =~= spec_targets(term.kind));
            r
        },
        TermKind::Abort => {
            let r: Vec<usize> = vec![];
            assert(r@ =~= spec_targets(term.kind));
            r
        },
        TermKind::Unreachable => {
            let r: Vec<usize> = vec![];
            assert(r@ =~= spec_targets(term.kind));
            r
        },
        TermKind::Drop { place: _, target, unwind } => {
            let mut r = vec![*target];
            if let UnwindInfo::Cleanup(t) = unwind {
                r.push(*t);
            }
            assert(r@ =~= spec_targets(term.kind));
            r
        },
        TermKind::Call { func: _, args: _, destination: _, target, unwind } => {
            let mut r: Vec<usize> = Vec::new();
            if let Some(t) = target {
                r.push(*t);
            }
            if let UnwindInfo::Cleanup(t) = unwind {
                r.push(*t);
            }
            assert(r@ =~= spec_targets(term.kind));
            r
        },
        TermKind::Assert { cond: _, expected: _, target, unwind } => {
            let mut r = vec![*target];
            if let UnwindInfo::Cleanup(t) = unwind {
                r.push(*t);
            }
            assert(r@ =~= spec_targets(term.kind));
            r
        },
        TermKind::InlineAsm { destination, unwind } => {
            let mut r: Vec<usize> = Vec::new();
            if let Some(t) = destination {
                r.push(*t);
            }
            if let UnwindInfo::Cleanup(t) = unwind {
                r.push(*t);
            }
            assert(r@ =~= spec_targets(term.kind));
            r
        },
    }
}

// =========================================================================
// Reachability and loop detection
// =========================================================================

/// The number of `false` entries of a boolean sequence.
pub open spec fn count_false(s: Seq<bool>) -> nat
    decreases s.len(),
{
    if s.len() == 0 {
        0
    } else {
        (if s.first() { 0nat } else { 1nat }) + count_false(s.drop_first())
    }
}

pub(crate) proof fn lemma_count_false_update(s: Seq<bool>, i: int)
    requires
        0 <= i < s.len(),
        !s[i],
    ensures
        count_false(s.update(i, true)) < count_false(s),
    decreases s.len(),
{
    if i == 0 {
        assert(s.update(0, true).drop_first() =~= s.drop_first());
    } else {
        assert(s.update(i, true).drop_first() =~= s.drop_first().update(i - 1, true));
        lemma_count_false_update(s.drop_first(), i - 1);
    }
}

/// Appending an edge to a path that reaches `b` reaches the edge's target.
proof fn lemma_reach_step(body: FnBody, a: usize, b: usize, t: usize)
    requires
        reach_plus(body, a, b),
        t < body.blocks.len(),
        spec_node_targets(body, b as int).contains(t),
    ensures
        reach_plus(body, a, t),
{
    let p = choose |p: Seq<usize>|
        #[trigger] is_path(body, p) && p.len() >= 2 && p.first() == a && p.last() == b;
    let q = p.push(t);
    assert forall |i: int| 0 <= i < q.len() - 1 implies #[trigger] spec_node_targets(
        body,
        q[i] as int,
    ).contains(q[i + 1]) by {
        if i < p.len() - 1 {
            assert(spec_node_targets(body, p[i] as int).contains(p[i + 1]));
        } else {
            assert(q[i] == b && q[i + 1] == t);
        }
    }
    assert(is_path(body, q));
    assert(q.len() >= 2 && q.first() == a && q.last() == t);
}

/// A single edge is a path of length two.
proof fn lemma_edge_reach(body: FnBody, a: usize, t: usize)
    requires
        a < body.blocks.len(),
        t < body.blocks.len(),
        spec_node_targets(body, a as int).contains(t),
    ensures
        reach_plus(body, a, t),
{
    let q = seq![a, t];
    assert(is_path(body, q));
    assert(q.first() == a && q.last() == t);
}

/// A set of visited nodes that contains every successor of `start` and is
/// closed under successors cannot miss a self-path of `start`.
proof fn lemma_path_visited(body: FnBody, visited: Seq<bool>, start: usize, p: Seq<usize>, i: int)
    requires
        visited.len() == body.blocks.len(),
        is_path(body, p),
        p.first() == start,
        forall |j: int|
            0 <= j < spec_node_targets(body, start as int).len() ==> visited[#[trigger] spec_node_targets(
                body,
                start as int,
            )[j] as int],
        forall |v: int, j: int|
            0 <= v < body.blocks.len() && visited[v] && 0 <= j < spec_node_targets(body, v).len()
                ==> visited[#[trigger] spec_node_targets(body, v)[j] as int],
        1 <= i < p.len(),
    ensures
        visited[p[i] as int],
    decreases i,
{
    if i == 1 {
        assert(spec_node_targets(body, p[0] as int).contains(p[1]));
        let j = choose |j: int|
            0 <= j < spec_node_targets(body, start as int).len() && spec_node_targets(
                body,
                start as int,
            )[j] == p[1];
        assert(visited[spec_node_targets(body, start as int)[j] as int]);
    } else {
        lemma_path_visited(body, visited, start, p, i - 1);
        assert(spec_node_targets(body, p[i - 1] as int).contains(p[i]));
        let v = p[i - 1] as int;
        let j = choose |j: int|
            0 <= j < spec_node_targets(body, v).len() && spec_node_targets(body, v)[j] == p[i];
        assert(visited[spec_node_targets(body, v)[j] as int]);
    }
}

/// Whether node `start` can reach itself through one or more successor edges.
/// The search visits each node at most once, so it terminates on cyclic
/// graphs; the visited count plus the pending stack is the measure.
pub fn reaches_itself(body: &FnBody, start: usize) -> (r: bool)
    requires
        wf_body(*body),
        start < body.blocks.len(),
    ensures
        r == spec_in_loop(*body, start),
{
    let n = body.blocks.len();
    let mut visited: Vec<bool> = Vec::new();
    let mut k: usize = 0;
    while k < n
        invariant
            k <= n,
            visited@.len() == k,
            forall |v: int| 0 <= v < k ==> !visited@[v],
        decreases n - k,
    {
        visited.push(false);
        k = k + 1;
    }
    assert(wf_node(body.blocks[start as int], n as nat));
    let mut stack = get_terminator_targets(&body.blocks[start].terminator);
    proof {
        assert forall |k2: int| 0 <= k2 < stack@.len() implies stack@[k2] < n && reach_plus(
            *body,
            start,
            stack@[k2],
        ) by {
            assert(spec_targets(body.blocks[start as int].terminator.kind)[k2] < n);
            assert(spec_node_targets(*body, start as int).contains(stack@[k2]));
            lemma_edge_reach(*body, start, stack@[k2]);
        }
    }
    loop
        invariant
            n == body.blocks.len(),
            wf_body(*body),
            start < n,
            visited@.len() == n,
            !visited@[start as int],
            forall |k2: int|
                0 <= k2 < stack@.len() ==> #[trigger] stack@[k2] < n && reach_plus(
                    *body,
                    start,
                    stack@[k2],
                ),
            forall |j: int|
                0 <= j < spec_node_targets(*body, start as int).len() ==> visited@[#[trigger] spec_node_targets(
                    *body,
                    start as int,
                )[j] as int] || stack@.contains(
                    spec_node_targets(*body, start as int)[j],
                ),
            forall |v: int, j: int|
                0 <= v < n && visited@[v] && 0 <= j < spec_node_targets(*body, v).len()
                    ==> visited@[#[trigger] spec_node_targets(*body, v)[j] as int]
                    || stack@.contains(spec_node_targets(*body, v)[j]),
            forall |v: int| 0 <= v < n && visited@[v] ==> reach_plus(*body, start, v as usize),
        decreases count_false(visited@), stack@.len(),
    {
        let ghost entry_stack = stack@;
        let ghost entry_visited = visited@;
        if stack.len() == 0 {
            proof {
                if spec_in_loop(*body, start) {
                    let p = choose |p: Seq<usize>|
                        #[trigger] is_path(*body, p) && p.len() >= 2 && p.first() == start
                            && p.last() == start;
                    lemma_path_visited(*body, visited@, start, p, p.len() - 1);
                }
            }
            return false;
        }
        let curr = stack.pop().unwrap();
        proof {
            assert(curr == entry_stack.last());
            assert(entry_stack =~= stack@.push(curr));
            assert(reach_plus(*body, start, curr) && curr < n) by {
                assert(entry_stack[entry_stack.len() - 1] == curr);
            }
        }
        if curr == start {
            return true;
        }
        if !visited[curr] {
            let ghost post_pop = stack@;
            visited.set(curr, true);
            proof {
                lemma_count_false_update(entry_visited, curr as int);
            }
            assert(wf_node(body.blocks[curr as int], n as nat));
            let ts = get_terminator_targets(&body.blocks[curr].terminator);
            let m = ts.len();
            let mut j: usize = 0;
            while j < m
                invariant
                    j <= m,
                    n == body.blocks.len(),
                    wf_body(*body),
                    start < n,
                    curr < n,
                    curr != start,
                    visited@.len() == n,
                    visited@ == entry_visited.update(curr as int, true),
                    ts@ == spec_node_targets(*body, curr as int),
                    m == ts@.len(),
                    reach_plus(*body, start, curr),
                    forall |k2: int|
                        0 <= k2 < stack@.len() ==> #[trigger] stack@[k2] < n && reach_plus(
                            *body,
                            start,
                            stack@[k2],
                        ),
                    forall |t: usize| post_pop.contains(t) ==> stack@.contains(t),
                    forall |k2: int| 0 <= k2 < j ==> stack@.contains(#[trigger] ts@[k2]),
                decreases m - j,
            {
                let t = ts[j];
                proof {
                    assert(wf_node(body.blocks[curr as int], n as nat));
                    assert(spec_targets(body.blocks[curr as int].terminator.kind)[j as int] < n);
                    assert(spec_node_targets(*body, curr as int).contains(t)) by {
                        assert(ts@[j as int] == t);
                    }
                    lemma_reach_step(*body, start, curr, t);
                }
                let ghost pre = stack@;
                stack.push(t);
                proof {
                    assert forall |x: usize| pre.contains(x) implies stack@.contains(x) by {
                        let ix = choose |ix: int| 0 <= ix < pre.len() && pre[ix] == x;
                        assert(stack@[ix] == x);
                    }
                    assert(stack@[stack@.len() - 1] == t);
                }
                j = j + 1;
            }
            proof {
                assert forall |v: int, j2: int|
                    0 <= v < n && visited@[v] && 0 <= j2 < spec_node_targets(*body, v).len()
                        implies visited@[#[trigger] spec_node_targets(*body, v)[j2] as int]
                        || stack@.contains(spec_node_targets(*body, v)[j2]) by {
                    if v == curr as int {
                        assert(stack@.contains(ts@[j2]));
                    } else {
                        assert(entry_visited[v]);
                        assert(wf_node(body.blocks[v], n as nat));
                        assert(spec_targets(body.blocks[v].terminator.kind)[j2] < n);
                        let t = spec_node_targets(*body, v)[j2];
                        if entry_visited[t as int] || t == curr {
                            assert(visited@[t as int]);
                        } else {
                            assert(entry_stack.contains(t));
                            let ix = choose |ix: int|
                                0 <= ix < entry_stack.len() && entry_stack[ix] == t;
                            assert(ix < entry_stack.len() - 1);
                            assert(post_pop[ix] == t);
                            assert(post_pop.contains(t));
                            assert(stack@.contains(t));
                        }
                    }
                }
                assert forall |j2: int|
                    0 <= j2 < spec_node_targets(*body, start as int).len()
                        implies visited@[#[trigger] spec_node_targets(*body, start as int)[j2] as int]
                        || stack@.contains(spec_node_targets(*body, start as int)[j2]) by {
                    assert(wf_node(body.blocks[start as int], n as nat));
                    assert(spec_targets(body.blocks[start as int].terminator.kind)[j2] < n);
                    let t = spec_node_targets(*body, start as int)[j2];
                    if entry_visited[t as int] || t == curr {
                        assert(visited@[t as int]);
                    } else {
                        assert(entry_stack.contains(t));
                        let ix = choose |ix: int|
                            0 <= ix < entry_stack.len() && entry_stack[ix] == t;
                        assert(ix < entry_stack.len() - 1);
                        assert(post_pop[ix] == t);
                        assert(post_pop.contains(t));
                        assert(stack@.contains(t));
                    }
                }
            }
        } else {
            proof {
                assert forall |v: int, j2: int|
                    0 <= v < n && visited@[v] && 0 <= j2 < spec_node_targets(*body, v).len()
                        implies visited@[#[trigger] spec_node_targets(*body, v)[j2] as int]
                        || stack@.contains(spec_node_targets(*body, v)[j2]) by {
                    assert(wf_node(body.blocks[v], n as nat));
                    assert(spec_targets(body.blocks[v].terminator.kind)[j2] < n);
                    let t = spec_node_targets(*body, v)[j2];
                    if !visited@[t as int] {
                        assert(entry_stack.contains(t));
                        let ix = choose |ix: int|
                            0 <= ix < entry_stack.len() && entry_stack[ix] == t;
                        assert(t != curr);
                        assert(ix < entry_stack.len() - 1);
                        assert(stack@[ix] == t);
                    }
                }
                assert forall |j2: int|
                    0 <= j2 < spec_node_targets(*body, start as int).len()
                        implies visited@[#[trigger] spec_node_targets(*body, start as int)[j2] as int]
                        || stack@.contains(spec_node_targets(*body, start as int)[j2]) by {
                    assert(wf_node(body.blocks[start as int], n as nat));
                    assert(spec_targets(body.blocks[start as int].terminator.kind)[j2] < n);
                    let t = spec_node_targets(*body, start as int)[j2];
                    if !visited@[t as int] {
                        assert(entry_stack.contains(t));
                        let ix = choose |ix: int|
                            0 <= ix < entry_stack.len() && entry_stack[ix] == t;
                        assert(t != curr);
                        assert(ix < entry_stack.len() - 1);
                        assert(stack@[ix] == t);
                    }
                }
            }
        }
    }
}

/// Detect blocks that are part of loops: entry `i` of the result says whether
/// node `i` can reach itself through one or more successor edges.
pub fn detect_loops(body: &FnBody) -> (r: Vec<bool>)
    requires
        wf_body(*body),
    ensures
        r@.len() == body.blocks.len(),
        forall |i: int| 0 <= i < r@.len() ==> r@[i] == spec_in_loop(*body, i as usize),
{
    let n = body.blocks.len();
    let mut r: Vec<bool> = Vec::new();
    let mut i: usize = 0;
    while i < n
        invariant
            i <= n,
            n == body.blocks.len(),
            wf_body(*body),
            r@.len() == i,
            forall |k: int| 0 <= k < i ==> r@[k] == spec_in_loop(*body, k as usize),
        decreases n - i,
    {
        let b = reaches_itself(body, i);
        r.push(b);
        i = i + 1;
    }
    r
}


// =========================================================================
// Cleanup targets
// =========================================================================

/// The cleanup target of an unwind action, if any.
pub open spec fn spec_unwind_cleanup(u: UnwindInfo) -> Option<usize> {
    match u {
        UnwindInfo::Cleanup(t) => Some(t),
        _ => None,
    }
}

/// The unwind target of the terminator kinds whose unwind edge marks its
/// target as a cleanup block.
pub open spec fn spec_cleanup_unwind(k: TermKind) -> Option<usize> {
    match k {
        TermKind::Drop { place: _, target: _, unwind } => spec_unwind_cleanup(unwind),
        TermKind::Call { func: _, args: _, destination: _, target: _, unwind } => spec_unwind_cleanup(
            unwind,
        ),
        TermKind::Assert { cond: _, expected: _, target: _, unwind } => spec_unwind_cleanup(unwind),
        _ => None,
    }
}

/// Node `t` is the target of some unwind edge of the body.
pub open spec fn spec_is_cleanup_target(body: FnBody, t: usize) -> bool {
    exists |b: int|
        0 <= b < body.blocks.len() && spec_cleanup_unwind(
            #[trigger] body.blocks[b].terminator.kind,
        ) == Some(t)
}

proof fn lemma_cleanup_unwind_is_target(k: TermKind, t: usize)
    requires
        spec_cleanup_unwind(k) == Some(t),
    ensures
        spec_targets(k).contains(t),
{
    match k {
        TermKind::Drop { place: _, target, unwind } => {
            assert(spec_targets(k)[1] == t);
        },
        TermKind::Call { func: _, args: _, destination: _, target, unwind } => {
            assert(spec_targets(k)[spec_targets(k).len() - 1] == t);
        },
        TermKind::Assert { cond: _, expected: _, target, unwind } => {
            assert(spec_targets(k)[1] == t);
        },
        _ => {},
    }
}

pub(crate) fn cleanup_unwind(term: &Term) -> (r: Option<usize>)
    ensures
        r == spec_cleanup_unwind(term.kind),
{
    match &term.kind {
        TermKind::Drop { place: _, target: _, unwind } => match unwind {
            UnwindInfo::Cleanup(t) => Some(*t),
            _ => None,
        },
        TermKind::Call { func: _, args: _, destination: _, target: _, unwind } => match unwind {
            UnwindInfo::Cleanup(t) => Some(*t),
            _ => None,
        },
        TermKind::Assert { cond: _, expected: _, target: _, unwind } => match unwind {
            UnwindInfo::Cleanup(t) => Some(*t),
            _ => None,
        },
        _ => None,
    }
}

/// Mark every node that is the target of an unwind edge.
fn mark_cleanup_targets(body: &FnBody) -> (r: Vec<bool>)
    requires
        wf_body(*body),
    ensures
        r@.len() == body.blocks.len(),
        forall |t: int| 0 <= t < r@.len() ==> r@[t] == spec_is_cleanup_target(*body, t as usize),
{
    let n = body.blocks.len();
    let mut r: Vec<bool> = Vec::new();
    let mut k: usize = 0;
    while k < n
        invariant
            k <= n,
            r@.len() == k,
            forall |v: int| 0 <= v < k ==> !r@[v],
        decreases n - k,
    {
        r.push(false);
        k = k + 1;
    }
    let mut b: usize = 0;
    while b < n
        invariant
            b <= n,
            n == body.blocks.len(),
            wf_body(*body),
            r@.len() == n,
            forall |t: int|
                0 <= t < n ==> r@[t] == exists |b2: int|
                    0 <= b2 < b && spec_cleanup_unwind(
                        #[trigger] body.blocks[b2].terminator.kind,
                    ) == Some(t as usize),
        decreases n - b,
    {
        let ghost prev = r@;
        if let Some(t) = cleanup_unwind(&body.blocks[b].terminator) {
            proof {
                lemma_cleanup_unwind_is_target(body.blocks[b as int].terminator.kind, t);
                let ts = spec_targets(body.blocks[b as int].terminator.kind);
                let ix = choose |ix: int| 0 <= ix < ts.len() && ts[ix] == t;
                assert(wf_node(body.blocks[b as int], n as nat));
                assert(ts[ix] < n);
            }
            r.set(t, true);
            proof {
                assert forall |t2: int| 0 <= t2 < n implies r@[t2] == exists |b2: int|
                    0 <= b2 < b + 1 && spec_cleanup_unwind(
                        #[trigger] body.blocks[b2].terminator.kind,
                    ) == Some(t2 as usize) by {
                    if t2 == t as int {
                        assert(spec_cleanup_unwind(body.blocks[b as int].terminator.kind) == Some(
                            t2 as usize,
                        ));
                    } else {
                        assert(r@[t2] == prev[t2]);
                    }
                }
            }
        } else {
            proof {
                assert forall |t2: int| 0 <= t2 < n implies r@[t2] == exists |b2: int|
                    0 <= b2 < b + 1 && spec_cleanup_unwind(
                        #[trigger] body.blocks[b2].terminator.kind,
                    ) == Some(t2 as usize) by {
                    assert(spec_cleanup_unwind(body.blocks[b as int].terminator.kind) is None);
                }
            }
        }
        b = b + 1;
    }
    r
}

// =========================================================================
// Role inference
// =========================================================================

/// The role a node earns from the shape of its terminator alone.
pub open spec fn spec_shape_role(k: TermKind) -> BlockRole {
    match k {
        TermKind::Return => BlockRole::Return,
        TermKind::Resume => BlockRole::Panic,
        TermKind::Abort => BlockRole::Panic,
        TermKind::Unreachable => BlockRole::Panic,
        TermKind::Call { func, args: _, destination: _, target, unwind: _ } => if target is None
            || call_marks_panic(func) {
            BlockRole::Panic
        } else {
            BlockRole::Normal
        },
        TermKind::SwitchInt { discr: _, targets: _ } => BlockRole::Branch,
        _ => BlockRole::Normal,
    }
}

/// The role of node `i`, with the precedence
/// Entry > Cleanup > Loop > (Return, Panic, Branch).
pub open spec fn spec_role(body: FnBody, i: int) -> BlockRole {
    if i == 0 {
        BlockRole::Entry
    } else if spec_is_cleanup_target(body, i as usize) {
        BlockRole::Cleanup
    } else if spec_in_loop(body, i as usize) {
        BlockRole::Loop
    } else {
        spec_shape_role(body.blocks[i].terminator.kind)
    }
}

fn shape_role(term: &Term) -> (r: BlockRole)
    ensures
        r == spec_shape_role(term.kind),
{
    match &term.kind {
        TermKind::Return => BlockRole::Return,
        TermKind::Resume => BlockRole::Panic,
        TermKind::Abort => BlockRole::Panic,
        TermKind::Unreachable => BlockRole::Panic,
        TermKind::Call { func, args: _, destination: _, target, unwind: _ } => {
            if target.is_none() {
                BlockRole::Panic
            } else if call_name_marks_panic(func) {
                BlockRole::Panic
            } else {
                BlockRole::Normal
            }
        },
        TermKind::SwitchInt { discr: _, targets: _ } => BlockRole::Branch,
        _ => BlockRole::Normal,
    }
}

/// Infer the role of each basic block. Entry 0 is the entry node; unwind
/// targets are cleanup blocks; self-reaching nodes are loops; the remaining
/// nodes are classified by their terminator's shape.
pub fn infer_block_roles(body: &FnBody) -> (r: Vec<BlockRole>)
    requires
        wf_body(*body),
    ensures
        r@.len() == body.blocks.len(),
        forall |i: int| 0 <= i < r@.len() ==> r@[i] == spec_role(*body, i),
{
    let n = body.blocks.len();
    let cleanups = mark_cleanup_targets(body);
    let loops = detect_loops(body);
    let mut r: Vec<BlockRole> = Vec::new();
    let mut i: usize = 0;
    while i < n
        invariant
            i <= n,
            n == body.blocks.len(),
            wf_body(*body),
            cleanups@.len() == n,
            loops@.len() == n,
            forall |t: int| 0 <= t < n ==> cleanups@[t] == spec_is_cleanup_target(*body, t as usize),
            forall |t: int| 0 <= t < n ==> loops@[t] == spec_in_loop(*body, t as usize),
            r@.len() == i,
            forall |k: int| 0 <= k < i ==> r@[k] == spec_role(*body, k),
        decreases n - i,
    {
        let role = if i == 0 {
            BlockRole::Entry
        } else if cleanups[i] {
            BlockRole::Cleanup
        } else if loops[i] {
            BlockRole::Loop
        } else {
            shape_role(&body.blocks[i].terminator)
        };
        r.push(role);
        i = i + 1;
    }
    r
}

// =========================================================================
// Laws of the role classification
// =========================================================================

/// Exactly one node has the Entry role, and it is node 0: every other node's
/// role is drawn from Cleanup, Loop and the terminator shapes, none of which
/// is Entry.
pub proof fn lemma_entry_role_unique(body: FnBody)
    requires
        0 < body.blocks.len(),
    ensures
        spec_role(body, 0) == BlockRole::Entry,
        forall |i: int|
            1 <= i < body.blocks.len() ==> #[trigger] spec_role(body, i) != BlockRole::Entry,
{
    assert forall |i: int|
        1 <= i < body.blocks.len() implies #[trigger] spec_role(body, i) != BlockRole::Entry by {
        assert(spec_shape_role(body.blocks[i].terminator.kind) != BlockRole::Entry);
    }
}

/// Away from the entry node and away from unwind targets, a node's role is
/// Loop exactly when the node can reach itself through one or more successor
/// edges; the Entry and Cleanup roles take precedence over Loop.
pub proof fn lemma_loop_role_iff_self_reach(body: FnBody, i: int)
    requires
        1 <= i < body.blocks.len(),
        !spec_is_cleanup_target(body, i as usize),
    ensures
        (spec_role(body, i) == BlockRole::Loop) <==> spec_in_loop(body, i as usize),
{
    assert(spec_shape_role(body.blocks[i].terminator.kind) != BlockRole::Loop);
}

/// The non-unwind successor edges of a terminator.
pub open spec fn spec_normal_targets(k: TermKind) -> Seq<usize> {
    match k {
        TermKind::Goto { target } => seq![target],
        TermKind::SwitchInt { discr: _, targets } => targets.branches@.map_values(
            |p: (u128, usize)| p.1,
        ).push(targets.otherwise),
        TermKind::Return => Seq::empty(),
        TermKind::Resume => Seq::empty(),
        TermKind::Abort => Seq::empty(),
        TermKind::Unreachable => Seq::empty(),
        TermKind::Drop { place: _, target, unwind: _ } => seq![target],
        TermKind::Call { func: _, args: _, destination: _, target, unwind: _ } => crate::ir::spec_opt_target(
            target,
        ),
        TermKind::Assert { cond: _, expected: _, target, unwind: _ } => seq![target],
        TermKind::InlineAsm { destination, unwind } => crate::ir::spec_opt_target(destination)
            + spec_unwind_target(unwind),
    }
}

proof fn lemma_target_not_normal_is_unwind(k: TermKind, t: usize)
    requires
        spec_targets(k).contains(t),
        !spec_normal_targets(k).contains(t),
    ensures
        spec_cleanup_unwind(k) == Some(t),
{
    let ix = choose |ix: int| 0 <= ix < spec_targets(k).len() && spec_targets(k)[ix] == t;
    match k {
        TermKind::Goto { target } => {
            assert(spec_normal_targets(k)[ix] == t);
        },
        TermKind::SwitchInt { discr: _, targets } => {
            assert(spec_normal_targets(k)[ix] == t);
        },
        TermKind::Drop { place: _, target, unwind } => {
            if ix == 0 {
                assert(spec_normal_targets(k)[0] == t);
            }
        },
        TermKind::Call { func: _, args: _, destination: _, target, unwind } => {
            if ix < crate::ir::spec_opt_target(target).len() {
                assert(spec_normal_targets(k)[ix] == t);
            }
        },
        TermKind::Assert { cond: _, expected: _, target, unwind } => {
            if ix == 0 {
                assert(spec_normal_targets(k)[0] == t);
            }
        },
        TermKind::InlineAsm { destination, unwind } => {
            assert(spec_normal_targets(k)[ix] == t);
        },
        _ => {},
    }
}

/// Every path from the entry node to a node with the Cleanup role ends in an
/// unwind edge — so it passes through at least one unwind edge. This holds
/// whenever no unwind target is also a normal successor of some node; a graph
/// that aims a normal edge at an unwind target can reach that node without
/// crossing any unwind edge.
pub proof fn lemma_cleanup_reached_by_unwind(body: FnBody, p: Seq<usize>)
    requires
        wf_body(body),
        0 < body.blocks.len(),
        forall |b: int, t: usize|
            0 <= b < body.blocks.len() && spec_is_cleanup_target(body, t)
                ==> !#[trigger] spec_normal_targets(body.blocks[b].terminator.kind).contains(t),
        is_path(body, p),
        p.first() == 0,
        spec_role(body, p.last() as int) == BlockRole::Cleanup,
    ensures
        p.len() >= 2,
        spec_cleanup_unwind(body.blocks[p[p.len() - 2] as int].terminator.kind) == Some(p.last()),
{
    let node = p.last();
    assert(spec_role(body, 0) == BlockRole::Entry);
    assert(node != 0);
    assert(p.len() >= 2);
    assert(spec_is_cleanup_target(body, node));
    let prev = p[p.len() - 2];
    assert(spec_node_targets(body, prev as int).contains(p[p.len() - 2 + 1]));
    assert(!spec_normal_targets(body.blocks[prev as int].terminator.kind).contains(node));
    lemma_target_not_normal_is_unwind(body.blocks[prev as int].terminator.kind, node);
}

// =========================================================================
// Function properties
// =========================================================================

/// The statement assigns the result of a checked arithmetic operation.
pub open spec fn stmt_is_checked_op(s: StmtKind) -> bool {
    match s {
        StmtKind::Assign(_, crate::ir::RvalueData::CheckedBinaryOp(_, _, _)) => true,
        _ => false,
    }
}

/// The statement creates a reference or a raw pointer.
pub open spec fn stmt_is_borrow(s: StmtKind) -> bool {
    match s {
        StmtKind::Assign(_, crate::ir::RvalueData::Ref(_, _)) => true,
        StmtKind::Assign(_, crate::ir::RvalueData::AddressOf(_)) => true,
        _ => false,
    }
}

/// The terminator can enter a panic path: a call into a panic-marked or
/// diverging callee, an assertion, or a diverging terminator.
pub open spec fn term_panics(k: TermKind) -> bool {
    match k {
        TermKind::Call { func, args: _, destination: _, target, unwind: _ } => call_marks_panic(
            func,
        ) || target is None,
        TermKind::Assert { cond: _, expected: _, target: _, unwind: _ } => true,
        TermKind::Resume => true,
        TermKind::Abort => true,
        TermKind::Unreachable => true,
        _ => false,
    }
}

/// The terminator calls the function named `fname` (by display name).
pub open spec fn term_calls(k: TermKind, fname: Seq<char>) -> bool {
    match k {
        TermKind::Call { func, args: _, destination: _, target: _, unwind: _ } => call_name_of(
            func,
        ) == fname,
        _ => false,
    }
}

pub open spec fn term_is_assert(k: TermKind) -> bool {
    match k {
        TermKind::Assert { cond: _, expected: _, target: _, unwind: _ } => true,
        _ => false,
    }
}

pub open spec fn term_is_switch(k: TermKind) -> bool {
    match k {
        TermKind::SwitchInt { discr: _, targets: _ } => true,
        _ => false,
    }
}

pub open spec fn term_is_drop(k: TermKind) -> bool {
    match k {
        TermKind::Drop { place: _, target: _, unwind: _ } => true,
        _ => false,
    }
}

/// Some statement of the node satisfies `checked`/`borrow` below.
pub open spec fn node_has_checked_op(node: CfgNode) -> bool {
    exists |s: int|
        0 <= s < node.statements.len() && stmt_is_checked_op(#[trigger] node.statements[s].kind)
}

pub open spec fn node_has_borrow(node: CfgNode) -> bool {
    exists |s: int|
        0 <= s < node.statements.len() && stmt_is_borrow(#[trigger] node.statements[s].kind)
}

fn node_checked_op(node: &CfgNode) -> (r: bool)
    ensures
        r == node_has_checked_op(*node),
{
    let m = node.statements.len();
    let mut s: usize = 0;
    while s < m
        invariant
            s <= m,
            m == node.statements.len(),
            forall |k: int| 0 <= k < s ==> !stmt_is_checked_op(#[trigger] node.statements@[k].kind),
        decreases m - s,
    {
        if let StmtKind::Assign(_, crate::ir::RvalueData::CheckedBinaryOp(_, _, _)) =
            &node.statements[s].kind {
            return true;
        }
        s = s + 1;
    }
    false
}

fn node_borrow(node: &CfgNode) -> (r: bool)
    ensures
        r == node_has_borrow(*node),
{
    let m = node.statements.len();
    let mut s: usize = 0;
    while s < m
        invariant
            s <= m,
            m == node.statements.len(),
            forall |k: int| 0 <= k < s ==> !stmt_is_borrow(#[trigger] node.statements@[k].kind),
        decreases m - s,
    {
        match &node.statements[s].kind {
            StmtKind::Assign(_, crate::ir::RvalueData::Ref(_, _)) => {
                return true;
            },
            StmtKind::Assign(_, crate::ir::RvalueData::AddressOf(_)) => {
                return true;
            },
            _ => {},
        }
        s = s + 1;
    }
    false
}

/// Each detected flag holds exactly when some node of the body witnesses
/// it.
pub open spec fn spec_props_ok(props: FunctionProperties, body: FnBody, fname: Seq<char>) -> bool {
    &&& props.has_checked_ops == exists |b: int|
        0 <= b < body.blocks.len() && node_has_checked_op(#[trigger] body.blocks[b])
    &&& props.has_borrows == exists |b: int|
        0 <= b < body.blocks.len() && node_has_borrow(#[trigger] body.blocks[b])
    &&& props.has_panic_path == exists |b: int|
        0 <= b < body.blocks.len() && term_panics(#[trigger] body.blocks[b].terminator.kind)
    &&& props.has_recursion == exists |b: int|
        0 <= b < body.blocks.len() && term_calls(#[trigger] body.blocks[b].terminator.kind, fname)
    &&& props.has_assertions == exists |b: int|
        0 <= b < body.blocks.len() && term_is_assert(#[trigger] body.blocks[b].terminator.kind)
    &&& props.has_switches == exists |b: int|
        0 <= b < body.blocks.len() && term_is_switch(#[trigger] body.blocks[b].terminator.kind)
    &&& props.has_drops == exists |b: int|
        0 <= b < body.blocks.len() && term_is_drop(#[trigger] body.blocks[b].terminator.kind)
}

/// Analyze a function body to detect notable properties. Each flag holds
/// exactly when some node of the body witnesses it.
pub fn analyze_function(body: &FnBody, current_fn: &str) -> (props: FunctionProperties)
    ensures
        spec_props_ok(props, *body, current_fn@),
{
    let n = body.blocks.len();
    let mut props = FunctionProperties {
        has_panic_path: false,
        has_checked_ops: false,
        has_borrows: false,
        has_drops: false,
        has_recursion: false,
        has_assertions: false,
        has_switches: false,
    };
    let mut b: usize = 0;
    while b < n
        invariant
            b <= n,
            n == body.blocks.len(),
            props.has_checked_ops == exists |k: int|
                0 <= k < b && node_has_checked_op(#[trigger] body.blocks@[k]),
            props.has_borrows == exists |k: int|
                0 <= k < b && node_has_borrow(#[trigger] body.blocks@[k]),
            props.has_panic_path == exists |k: int|
                0 <= k < b && term_panics(#[trigger] body.blocks@[k].terminator.kind),
            props.has_recursion == exists |k: int|
                0 <= k < b && term_calls(#[trigger] body.blocks@[k].terminator.kind, current_fn@),
            props.has_assertions == exists |k: int|
                0 <= k < b && term_is_assert(#[trigger] body.blocks@[k].terminator.kind),
            props.has_switches == exists |k: int|
                0 <= k < b && term_is_switch(#[trigger] body.blocks@[k].terminator.kind),
            props.has_drops == exists |k: int|
                0 <= k < b && term_is_drop(#[trigger] body.blocks@[k].terminator.kind),
        decreases n - b,
    {
        let node = &body.blocks[b];
        if node_checked_op(node) {
            props.has_checked_ops = true;
        }
        if node_borrow(node) {
            props.has_borrows = true;
        }
        match &node.terminator.kind {
            TermKind::Call { func, args: _, destination: _, target, unwind: _ } => {
                let func_name = extract_call_name(func);
                if str_eq(func_name.as_str(), current_fn) {
                    props.has_recursion = true;
                }
                if call_name_marks_panic(func) || target.is_none() {
                    props.has_panic_path = true;
                }
            },
            TermKind::Assert { cond: _, expected: _, target: _, unwind: _ } => {
                props.has_assertions = true;
                props.has_panic_path = true;
            },
            TermKind::SwitchInt { discr: _, targets: _ } => {
                props.has_switches = true;
            },
            TermKind::Drop { place: _, target: _, unwind: _ } => {
                props.has_drops = true;
            },
            TermKind::Resume => {
                props.has_panic_path = true;
            },
            TermKind::Abort => {
                props.has_panic_path = true;
            },
            TermKind::Unreachable => {
                props.has_panic_path = true;
            },
            _ => {},
        }
        b = b + 1;
    }
    props
}

/// The display lines that `format_properties` owes for the given flags,
/// in their fixed order.
pub open spec fn spec_property_strings(props: FunctionProperties) -> Seq<Seq<char>> {
    (if props.has_panic_path { seq!["Contains panic path"@] } else { Seq::empty() })
    + (if props.has_checked_ops { seq!["Uses checked arithmetic"@] } else { Seq::empty() })
    + (if props.has_borrows { seq!["Introduces borrows"@] } else { Seq::empty() })
    + (if props.has_drops { seq!["Has explicit drops"@] } else { Seq::empty() })
    + (if props.has_recursion { seq!["Recursive"@] } else { Seq::empty() })
    + (if props.has_assertions { seq!["Contains assertions"@] } else { Seq::empty() })
    + (if props.has_switches { seq!["Has conditional branches"@] } else { Seq::empty() })
}

/// Append `text` to the property list when `flag` is set.
fn push_prop(r: &mut Vec<&'static str>, flag: bool, text: &'static str)
    ensures
        final(r)@.map_values(|x: &'static str| x@) == old(r)@.map_values(|x: &'static str| x@)
            + (if flag { seq![text@] } else { Seq::<Seq<char>>::empty() }),
{
    if flag {
        r.push(text);
    }
    proof {
        assert(r@.map_values(|x: &'static str| x@) =~= old(r)@.map_values(|x: &'static str| x@)
            + (if flag { seq![text@] } else { Seq::<Seq<char>>::empty() }));
    }
}

/// Format detected properties as display strings.
pub fn format_properties(props: &FunctionProperties) -> (r: Vec<&'static str>)
    ensures
        r@.map_values(|s: &'static str| s@) == spec_property_strings(*props),
{
    let mut r: Vec<&'static str> = Vec::new();
    proof {
        assert(r@.map_values(|s: &'static str| s@) =~= Seq::<Seq<char>>::empty());
    }
    push_prop(&mut r, props.has_panic_path, "Contains panic path");
    push_prop(&mut r, props.has_checked_ops, "Uses checked arithmetic");
    push_prop(&mut r, props.has_borrows, "Introduces borrows");
    push_prop(&mut r, props.has_drops, "Has explicit drops");
    push_prop(&mut r, props.has_recursion, "Recursive");
    push_prop(&mut r, props.has_assertions, "Contains assertions");
    push_prop(&mut r, props.has_switches, "Has conditional branches");
    proof {
        assert(r@.map_values(|s: &'static str| s@) =~= spec_property_strings(*props));
    }
    r
}


// =========================================================================
// Statement and terminator rendering
// =========================================================================

/// A rendered row of a block: the instruction, a reading aid, and whether
/// it is the block's terminator or a recursive call.
#[derive(Clone)]
pub struct AnnotatedRow {
    pub mir: String,
    pub annotation: String,
    pub is_terminator: bool,
    pub is_recursive: bool,
}

/// The rendered instruction of a statement.
pub open spec fn spec_row_stmt_mir(k: StmtKind) -> Seq<char> {
    match k {
        StmtKind::Assign(place, rv) => crate::render::place_str(place) + " = "@
            + crate::render::rvalue_str(rv),
        StmtKind::SetDiscriminant { place, variant_index } => "discr("@ + crate::render::place_str(
            place,
        ) + ") = "@ + crate::text::dec_of(variant_index as nat),
        StmtKind::StorageLive(l) => "StorageLive(_"@ + crate::text::dec_of(l as nat) + ")"@,
        StmtKind::StorageDead(l) => "StorageDead(_"@ + crate::text::dec_of(l as nat) + ")"@,
        StmtKind::Retag(p) => "retag("@ + crate::render::place_str(p) + ")"@,
        StmtKind::FakeRead(p) => "FakeRead("@ + crate::render::place_str(p) + ")"@,
        StmtKind::PlaceMention(p) => "PlaceMention("@ + crate::render::place_str(p) + ")"@,
        StmtKind::Nop => "nop"@,
    }
}

/// The reading aid of a statement row.
pub open spec fn spec_row_stmt_note(k: StmtKind) -> Seq<char> {
    match k {
        StmtKind::Assign(_, rv) => crate::render::rvalue_note(rv),
        StmtKind::SetDiscriminant { .. } => "Set enum discriminant"@,
        StmtKind::StorageLive(l) => "Allocate stack slot for _"@ + crate::text::dec_of(l as nat),
        StmtKind::StorageDead(l) => "Deallocate stack slot for _"@ + crate::text::dec_of(l as nat),
        StmtKind::Retag(_) => "Stacked borrows retag"@,
        StmtKind::FakeRead(_) => "Compiler hint for borrow checker"@,
        StmtKind::PlaceMention(_) => "Compiler hint for borrow checker"@,
        StmtKind::Nop => "No operation"@,
    }
}

/// Render a statement with an annotation.
pub fn render_statement_annotated(stmt: &crate::ir::Stmt) -> (r: (String, String))
    ensures
        r.0@ == spec_row_stmt_mir(stmt.kind),
        r.1@ == spec_row_stmt_note(stmt.kind),
{
    match &stmt.kind {
        StmtKind::Assign(place, rv) => {
            let mut mir = crate::render::render_place(place);
            mir.append(" = ");
            let rs = crate::render::render_rvalue(rv);
            mir.append(rs.as_str());
            let note = crate::render::annotate_rvalue(rv);
            proof {
                assert(mir@ =~= spec_row_stmt_mir(stmt.kind));
            }
            (mir, note)
        },
        StmtKind::SetDiscriminant { place, variant_index } => {
            let mut mir = String::from_str("discr(");
            let pl = crate::render::render_place(place);
            mir.append(pl.as_str());
            mir.append(") = ");
            let d = crate::text::usize_to_dec(*variant_index);
            mir.append(d.as_str());
            proof {
                assert(mir@ =~= spec_row_stmt_mir(stmt.kind));
            }
            (mir, String::from_str("Set enum discriminant"))
        },
        StmtKind::StorageLive(l) => {
            let d = crate::text::usize_to_dec(*l);
            let mut mir = String::from_str("StorageLive(_");
            mir.append(d.as_str());
            mir.append(")");
            let mut note = String::from_str("Allocate stack slot for _");
            note.append(d.as_str());
            proof {
                assert(mir@ =~= spec_row_stmt_mir(stmt.kind));
                assert(note@ =~= spec_row_stmt_note(stmt.kind));
            }
            (mir, note)
        },
        StmtKind::StorageDead(l) => {
            let d = crate::text::usize_to_dec(*l);
            let mut mir = String::from_str("StorageDead(_");
            mir.append(d.as_str());
            mir.append(")");
            let mut note = String::from_str("Deallocate stack slot for _");
            note.append(d.as_str());
            proof {
                assert(mir@ =~= spec_row_stmt_mir(stmt.kind));
                assert(note@ =~= spec_row_stmt_note(stmt.kind));
            }
            (mir, note)
        },
        StmtKind::Retag(p) => {
            let mut mir = String::from_str("retag(");
            let pl = crate::render::render_place(p);
            mir.append(pl.as_str());
            mir.append(")");
            proof {
                assert(mir@ =~= spec_row_stmt_mir(stmt.kind));
            }
            (mir, String::from_str("Stacked borrows retag"))
        },
        StmtKind::FakeRead(p) => {
            let mut mir = String::from_str("FakeRead(");
            let pl = crate::render::render_place(p);
            mir.append(pl.as_str());
            mir.append(")");
            proof {
                assert(mir@ =~= spec_row_stmt_mir(stmt.kind));
            }
            (mir, String::from_str("Compiler hint for borrow checker"))
        },
        StmtKind::PlaceMention(p) => {
            let mut mir = String::from_str("PlaceMention(");
            let pl = crate::render::render_place(p);
            mir.append(pl.as_str());
            mir.append(")");
            proof {
                assert(mir@ =~= spec_row_stmt_mir(stmt.kind));
            }
            (mir, String::from_str("Compiler hint for borrow checker"))
        },
        StmtKind::Nop => (String::from_str("nop"), String::from_str("No operation")),
    }
}

/// One switch branch of the compact form: value, arrow, target.
pub open spec fn spec_branch_strs(branches: Seq<(u128, usize)>) -> Seq<Seq<char>> {
    branches.map_values(
        |p: (u128, usize)| crate::text::dec_of(p.0 as nat) + "\u{2192}bb"@ + crate::text::dec_of(
            p.1 as nat,
        ),
    )
}

/// The rendered instruction of a terminator row.
pub open spec fn spec_row_term_mir(k: TermKind) -> Seq<char> {
    match k {
        TermKind::Goto { target } => "goto bb"@ + crate::text::dec_of(target as nat),
        TermKind::Return => "return"@,
        TermKind::Unreachable => "unreachable"@,
        TermKind::SwitchInt { discr, targets } => "switch("@ + crate::render::operand_str(discr)
            + ") ["@ + crate::index::join_comma(spec_branch_strs(targets.branches@))
            + "; else\u{2192}bb"@ + crate::text::dec_of(targets.otherwise as nat) + "]"@,
        TermKind::Call { func, args, destination, target, unwind: _ } => crate::render::place_str(
            destination,
        ) + " = "@ + crate::render::call_name_of(func) + "("@ + crate::explore::spec_args_str(
            args@,
        ) + ")"@ + (match target {
            Some(t) => " \u{2192} bb"@ + crate::text::dec_of(t as nat),
            None => ""@,
        }),
        TermKind::Assert { cond, expected, target, unwind: _ } => "assert("@
            + crate::render::operand_str(cond) + " == "@ + (if expected {
            "true"@
        } else {
            "false"@
        }) + ") \u{2192} bb"@ + crate::text::dec_of(target as nat),
        TermKind::Drop { place, target, unwind: _ } => "drop("@ + crate::render::place_str(place)
            + ") \u{2192} bb"@ + crate::text::dec_of(target as nat),
        TermKind::Resume => "resume"@,
        TermKind::Abort => "abort"@,
        TermKind::InlineAsm { .. } => "inline_asm"@,
    }
}

/// The reading aid of a terminator row.
pub open spec fn spec_row_term_note(k: TermKind, fname: Seq<char>) -> Seq<char> {
    match k {
        TermKind::Goto { target } => "Jump to bb"@ + crate::text::dec_of(target as nat),
        TermKind::Return => "Return from function"@,
        TermKind::Unreachable => "Unreachable code"@,
        TermKind::SwitchInt { discr, targets: _ } => "Branch on "@ + crate::render::operand_str(
            discr,
        ),
        TermKind::Call { func, .. } => if crate::render::call_name_of(func) == fname {
            "Recursive call to "@ + crate::render::call_name_of(func)
        } else {
            "Call "@ + crate::render::call_name_of(func)
        },
        TermKind::Assert { cond, expected, .. } => if expected {
            "Panic if "@ + crate::render::operand_str(cond) + " is false"@
        } else {
            "Panic if "@ + crate::render::operand_str(cond) + " is true"@
        },
        TermKind::Drop { place, .. } => "Drop "@ + crate::render::place_str(place),
        TermKind::Resume => "Resume unwinding"@,
        TermKind::Abort => "Abort program"@,
        TermKind::InlineAsm { .. } => ""@,
    }
}

/// Render a terminator with an annotation; the third component says whether
/// it is a recursive call into the current function.
pub fn render_terminator_annotated(term: &Term, current_fn: &str) -> (r: (String, String, bool))
    ensures
        r.0@ == spec_row_term_mir(term.kind),
        r.1@ == spec_row_term_note(term.kind, current_fn@),
        r.2 == term_calls(term.kind, current_fn@),
{
    match &term.kind {
        TermKind::Goto { target } => {
            let d = crate::text::usize_to_dec(*target);
            let mut mir = String::from_str("goto bb");
            mir.append(d.as_str());
            let mut note = String::from_str("Jump to bb");
            note.append(d.as_str());
            proof {
                assert(mir@ =~= spec_row_term_mir(term.kind));
                assert(note@ =~= spec_row_term_note(term.kind, current_fn@));
            }
            (mir, note, false)
        },
        TermKind::Return => (
            String::from_str("return"),
            String::from_str("Return from function"),
            false,
        ),
        TermKind::Unreachable => (
            String::from_str("unreachable"),
            String::from_str("Unreachable code"),
            false,
        ),
        TermKind::SwitchInt { discr, targets } => {
            let discr_str = crate::render::render_operand(discr);
            let mut mir = String::from_str("switch(");
            mir.append(discr_str.as_str());
            mir.append(") [");
            let mut joined = String::new();
            let m = targets.branches.len();
            let mut i: usize = 0;
            proof {
                assert(targets.branches@.take(0) =~= Seq::<(u128, usize)>::empty());
                assert(spec_branch_strs(targets.branches@.take(0)) =~= Seq::<Seq<char>>::empty());
                assert(joined@ =~= crate::index::join_comma(
                    spec_branch_strs(targets.branches@.take(0)),
                ));
            }
            while i < m
                invariant
                    i <= m,
                    m == targets.branches@.len(),
                    joined@ == crate::index::join_comma(
                        spec_branch_strs(targets.branches@.take(i as int)),
                    ),
                decreases m - i,
            {
                let val = targets.branches[i].0;
                let t = targets.branches[i].1;
                let mut piece = crate::text::u128_to_dec(val);
                piece.append("\u{2192}bb");
                let td = crate::text::usize_to_dec(t);
                piece.append(td.as_str());
                if i > 0 {
                    joined.append(", ");
                }
                joined.append(piece.as_str());
                proof {
                    let prev = spec_branch_strs(targets.branches@.take(i as int));
                    let now = spec_branch_strs(targets.branches@.take(i + 1));
                    assert(targets.branches@.take(i + 1).drop_last() =~= targets.branches@.take(
                        i as int,
                    ));
                    assert(targets.branches@.take(i + 1).last() == targets.branches@[i as int]);
                    assert(now.drop_last() =~= prev);
                    assert(now.last() == crate::text::dec_of(
                        targets.branches@[i as int].0 as nat,
                    ) + "\u{2192}bb"@ + crate::text::dec_of(targets.branches@[i as int].1 as nat));
                    assert(piece@ =~= now.last());
                    if i == 0 {
                        assert(crate::index::join_comma(now) == now[0]);
                    } else {
                        assert(crate::index::join_comma(now) == crate::index::join_comma(prev)
                            + ", "@ + now.last());
                    }
                    assert(joined@ =~= crate::index::join_comma(now));
                }
                i = i + 1;
            }
            mir.append(joined.as_str());
            mir.append("; else\u{2192}bb");
            let od = crate::text::usize_to_dec(targets.otherwise);
            mir.append(od.as_str());
            mir.append("]");
            let mut note = String::from_str("Branch on ");
            note.append(discr_str.as_str());
            proof {
                assert(targets.branches@.take(m as int) =~= targets.branches@);
                assert(mir@ =~= spec_row_term_mir(term.kind));
                assert(note@ =~= spec_row_term_note(term.kind, current_fn@));
            }
            (mir, note, false)
        },
        TermKind::Call { func, args, destination, target, unwind: _ } => {
            let func_name = crate::render::extract_call_name(func);
            let mut mir = crate::render::render_place(destination);
            mir.append(" = ");
            mir.append(func_name.as_str());
            mir.append("(");
            let args_str = crate::explore::render_args_pub(args);
            mir.append(args_str.as_str());
            mir.append(")");
            match target {
                Some(t) => {
                    mir.append(" \u{2192} bb");
                    let td = crate::text::usize_to_dec(*t);
                    mir.append(td.as_str());
                },
                None => {},
            }
            let is_recursive = crate::text::str_eq(func_name.as_str(), current_fn);
            let mut note = if is_recursive {
                String::from_str("Recursive call to ")
            } else {
                String::from_str("Call ")
            };
            note.append(func_name.as_str());
            proof {
                reveal_strlit("");
                assert(mir@ =~= spec_row_term_mir(term.kind));
                assert(note@ =~= spec_row_term_note(term.kind, current_fn@));
            }
            (mir, note, is_recursive)
        },
        TermKind::Assert { cond, expected, target, unwind: _ } => {
            let cond_str = crate::render::render_operand(cond);
            let mut mir = String::from_str("assert(");
            mir.append(cond_str.as_str());
            mir.append(" == ");
            mir.append(if *expected { "true" } else { "false" });
            mir.append(") \u{2192} bb");
            let td = crate::text::usize_to_dec(*target);
            mir.append(td.as_str());
            let mut note = String::from_str("Panic if ");
            note.append(cond_str.as_str());
            note.append(if *expected { " is false" } else { " is true" });
            proof {
                assert(mir@ =~= spec_row_term_mir(term.kind));
                assert(note@ =~= spec_row_term_note(term.kind, current_fn@));
            }
            (mir, note, false)
        },
        TermKind::Drop { place, target, unwind: _ } => {
            let place_str = crate::render::render_place(place);
            let mut mir = String::from_str("drop(");
            mir.append(place_str.as_str());
            mir.append(") \u{2192} bb");
            let td = crate::text::usize_to_dec(*target);
            mir.append(td.as_str());
            let mut note = String::from_str("Drop ");
            note.append(place_str.as_str());
            proof {
                assert(mir@ =~= spec_row_term_mir(term.kind));
                assert(note@ =~= spec_row_term_note(term.kind, current_fn@));
            }
            (mir, note, false)
        },
        TermKind::Resume => (
            String::from_str("resume"),
            String::from_str("Resume unwinding"),
            false,
        ),
        TermKind::Abort => (String::from_str("abort"), String::from_str("Abort program"), false),
        TermKind::InlineAsm { .. } => {
            let note = String::new();
            proof {
                reveal_strlit("");
                assert(note@ =~= ""@);
            }
            (String::from_str("inline_asm"), note, false)
        },
    }
}

/// Render a basic block as annotated rows: one row per statement, then the
/// terminator's row.
pub fn render_block_rows(block: &CfgNode, current_fn: &str) -> (rows: Vec<AnnotatedRow>)
    ensures
        rows@.len() == block.statements@.len() + 1,
        forall |i: int|
            0 <= i < block.statements@.len() ==> {
                &&& (#[trigger] rows@[i]).mir@ == spec_row_stmt_mir(block.statements@[i].kind)
                &&& rows@[i].annotation@ == spec_row_stmt_note(block.statements@[i].kind)
                &&& rows@[i].is_terminator == false
                &&& rows@[i].is_recursive == false
            },
        rows@.last().mir@ == spec_row_term_mir(block.terminator.kind),
        rows@.last().annotation@ == spec_row_term_note(block.terminator.kind, current_fn@),
        rows@.last().is_terminator == true,
        rows@.last().is_recursive == term_calls(block.terminator.kind, current_fn@),
{
    let n = block.statements.len();
    let mut rows: Vec<AnnotatedRow> = Vec::new();
    let mut i: usize = 0;
    while i < n
        invariant
            i <= n,
            n == block.statements@.len(),
            rows@.len() == i,
            forall |k: int|
                0 <= k < i ==> {
                    &&& (#[trigger] rows@[k]).mir@ == spec_row_stmt_mir(
                        block.statements@[k].kind,
                    )
                    &&& rows@[k].annotation@ == spec_row_stmt_note(block.statements@[k].kind)
                    &&& rows@[k].is_terminator == false
                    &&& rows@[k].is_recursive == false
                },
        decreases n - i,
    {
        let (mir, annotation) = render_statement_annotated(&block.statements[i]);
        rows.push(AnnotatedRow { mir, annotation, is_terminator: false, is_recursive: false });
        i = i + 1;
    }
    let (mir, annotation, is_recursive) = render_terminator_annotated(
        &block.terminator,
        current_fn,
    );
    rows.push(AnnotatedRow { mir, annotation, is_terminator: true, is_recursive });
    rows
}

// =========================================================================
// ASCII CFG generation
// =========================================================================

/// The role recorded for node `i`, Normal where the table is short.
pub open spec fn spec_role_at(roles: Seq<BlockRole>, i: int) -> BlockRole {
    if 0 <= i < roles.len() {
        roles[i]
    } else {
        BlockRole::Normal
    }
}

/// The labels of a node's successors.
pub open spec fn spec_target_labels(targets: Seq<usize>) -> Seq<Seq<char>> {
    targets.map_values(|t: usize| "bb"@ + crate::text::dec_of(t as nat))
}

/// One line of the ASCII control-flow graph.
pub open spec fn spec_ascii_line(body: FnBody, roles: Seq<BlockRole>, i: int) -> Seq<char> {
    let targets = spec_targets(body.blocks[i].terminator.kind);
    let head = "bb"@ + crate::text::dec_of(i as nat) + spec_role_cfg_suffix(
        spec_role_at(roles, i),
    );
    if targets.len() == 0 {
        head
    } else {
        head + " \u{2500}\u{2500}\u{25b6} "@ + crate::index::join_comma(
            spec_target_labels(targets),
        )
    }
}

/// The ASCII control-flow graph up to node `upto`: one line per node.
pub open spec fn spec_ascii_upto(body: FnBody, roles: Seq<BlockRole>, upto: int) -> Seq<char>
    decreases upto,
{
    if upto <= 0 {
        Seq::empty()
    } else {
        spec_ascii_upto(body, roles, upto - 1) + spec_ascii_line(body, roles, upto - 1) + "\n"@
    }
}

/// Generate an ASCII control-flow graph: one line per node with its role
/// suffix and its successors.
pub fn generate_ascii_cfg(body: &FnBody, roles: &Vec<BlockRole>) -> (r: String)
    ensures
        r@ == spec_ascii_upto(*body, roles@, body.blocks.len() as int),
{
    let n = body.blocks.len();
    let mut r = String::new();
    let mut i: usize = 0;
    proof {
        assert(r@ =~= spec_ascii_upto(*body, roles@, 0));
    }
    while i < n
        invariant
            i <= n,
            n == body.blocks.len(),
            r@ == spec_ascii_upto(*body, roles@, i as int),
        decreases n - i,
    {
        let role = if i < roles.len() {
            roles[i]
        } else {
            BlockRole::Normal
        };
        let mut line = String::from_str("bb");
        let d = crate::text::usize_to_dec(i);
        line.append(d.as_str());
        line.append(role.cfg_suffix());
        let targets = get_terminator_targets(&body.blocks[i].terminator);
        if targets.len() > 0 {
            line.append(" \u{2500}\u{2500}\u{25b6} ");
            let mut joined = String::new();
            let m = targets.len();
            let mut j: usize = 0;
            let ghost ts = spec_targets(body.blocks[i as int].terminator.kind);
            proof {
                assert(ts.take(0) =~= Seq::<usize>::empty());
                assert(spec_target_labels(ts.take(0)) =~= Seq::<Seq<char>>::empty());
                assert(joined@ =~= crate::index::join_comma(spec_target_labels(ts.take(0))));
            }
            while j < m
                invariant
                    j <= m,
                    m == ts.len(),
                    targets@ == ts,
                    joined@ == crate::index::join_comma(spec_target_labels(ts.take(j as int))),
                decreases m - j,
            {
                let mut piece = String::from_str("bb");
                let td = crate::text::usize_to_dec(targets[j]);
                piece.append(td.as_str());
                if j > 0 {
                    joined.append(", ");
                }
                joined.append(piece.as_str());
                proof {
                    let prev = spec_target_labels(ts.take(j as int));
                    let now = spec_target_labels(ts.take(j + 1));
                    assert(ts.take(j + 1).drop_last() =~= ts.take(j as int));
                    assert(ts.take(j + 1).last() == ts[j as int]);
                    assert(now.drop_last() =~= prev);
                    assert(now.last() == "bb"@ + crate::text::dec_of(ts[j as int] as nat));
                    assert(piece@ =~= now.last());
                    if j == 0 {
                        assert(crate::index::join_comma(now) == now[0]);
                    } else {
                        assert(crate::index::join_comma(now) == crate::index::join_comma(prev)
                            + ", "@ + now.last());
                    }
                    assert(joined@ =~= crate::index::join_comma(now));
                }
                j = j + 1;
            }
            line.append(joined.as_str());
            proof {
                assert(ts.take(m as int) =~= ts);
                assert(line@ =~= spec_ascii_line(*body, roles@, i as int));
            }
        } else {
            proof {
                assert(line@ =~= spec_ascii_line(*body, roles@, i as int));
            }
        }
        r.append(line.as_str());
        r.append("\n");
        proof {
            assert(r@ =~= spec_ascii_upto(*body, roles@, i + 1));
        }
        i = i + 1;
    }
    r
}

/// Get fill and stroke colors for a block based on its role.
pub open spec fn spec_block_colors(role: BlockRole) -> (Seq<char>, Seq<char>) {
    match role {
        BlockRole::Entry => ("#e8f5e9"@, "#4caf50"@),
        BlockRole::Return => ("#e3f2fd"@, "#2196f3"@),
        BlockRole::Panic => ("#ffebee"@, "#f44336"@),
        BlockRole::Cleanup => ("#fff3e0"@, "#ff9800"@),
        BlockRole::Branch => ("#f3e5f5"@, "#9c27b0"@),
        BlockRole::Loop => ("#fff8e1"@, "#ffc107"@),
        BlockRole::Normal => ("#fafafa"@, "#9e9e9e"@),
    }
}

/// The fill and stroke colors of a role.
pub fn block_colors(role: BlockRole) -> (r: (&'static str, &'static str))
    ensures
        r.0@ == spec_block_colors(role).0,
        r.1@ == spec_block_colors(role).1,
{
    match role {
        BlockRole::Entry => ("#e8f5e9", "#4caf50"),
        BlockRole::Return => ("#e3f2fd", "#2196f3"),
        BlockRole::Panic => ("#ffebee", "#f44336"),
        BlockRole::Cleanup => ("#fff3e0", "#ff9800"),
        BlockRole::Branch => ("#f3e5f5", "#9c27b0"),
        BlockRole::Loop => ("#fff8e1", "#ffc107"),
        BlockRole::Normal => ("#fafafa", "#9e9e9e"),
    }
}

// =========================================================================
// Traversal framework
// =========================================================================

/// Context for function traversal: the names, the body and the precomputed
/// analyses.
pub struct FunctionContext<'a> {
    pub short_name: &'a str,
    pub full_name: &'a str,
    pub body: &'a FnBody,
    pub properties: FunctionProperties,
    pub block_roles: Vec<BlockRole>,
}

impl<'a> FunctionContext<'a> {
    /// Create a new function context with all analysis precomputed.
    pub fn new(short_name: &'a str, full_name: &'a str, body: &'a FnBody) -> (r: FunctionContext<
        'a,
    >)
        requires
            wf_body(*body),
        ensures
            r.short_name == short_name,
            r.full_name == full_name,
            r.body == body,
            spec_props_ok(r.properties, *body, short_name@),
            r.block_roles@.len() == body.blocks.len(),
            forall |i: int|
                0 <= i < r.block_roles@.len() ==> r.block_roles@[i] == spec_role(*body, i),
    {
        let properties = analyze_function(body, short_name);
        let block_roles = infer_block_roles(body);
        FunctionContext { short_name, full_name, body, properties, block_roles }
    }

    /// Get the role of a block; an out-of-range index reads as Normal.
    pub fn block_role(&self, idx: usize) -> (r: BlockRole)
        ensures
            r == spec_role_at(self.block_roles@, idx as int),
    {
        if idx < self.block_roles.len() {
            self.block_roles[idx]
        } else {
            BlockRole::Normal
        }
    }

    /// Render a block to annotated rows: one row per statement, then the
    /// terminator's row.
    pub fn render_block(&self, idx: usize) -> (rows: Vec<AnnotatedRow>)
        requires
            idx < self.body.blocks@.len(),
        ensures
            rows@.len() == self.body.blocks@[idx as int].statements@.len() + 1,
            forall |i: int|
                0 <= i < self.body.blocks@[idx as int].statements@.len() ==> {
                    &&& (#[trigger] rows@[i]).mir@ == spec_row_stmt_mir(
                        self.body.blocks@[idx as int].statements@[i].kind,
                    )
                    &&& rows@[i].annotation@ == spec_row_stmt_note(
                        self.body.blocks@[idx as int].statements@[i].kind,
                    )
                    &&& rows@[i].is_terminator == false
                    &&& rows@[i].is_recursive == false
                },
            rows@.last().mir@ == spec_row_term_mir(
                self.body.blocks@[idx as int].terminator.kind,
            ),
            rows@.last().annotation@ == spec_row_term_note(
                self.body.blocks@[idx as int].terminator.kind,
                self.short_name@,
            ),
            rows@.last().is_terminator == true,
            rows@.last().is_recursive == term_calls(
                self.body.blocks@[idx as int].terminator.kind,
                self.short_name@,
            ),
    {
        render_block_rows(&self.body.blocks[idx], self.short_name)
    }

    /// Generate the ASCII control-flow graph.
    pub fn ascii_cfg(&self) -> (r: String)
        ensures
            r@ == spec_ascii_upto(*self.body, self.block_roles@, self.body.blocks.len() as int),
    {
        generate_ascii_cfg(self.body, &self.block_roles)
    }

    /// Get the formatted property strings.
    pub fn property_strings(&self) -> (r: Vec<&'static str>)
        ensures
            r@.map_values(|s: &'static str| s@) == spec_property_strings(self.properties),
    {
        format_properties(&self.properties)
    }
}

} // verus!
