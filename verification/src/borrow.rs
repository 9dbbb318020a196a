//! The borrow liveness engine: a conservative worklist analysis over the
//! control-flow graph that computes, for every (node, statement-offset)
//! location, the set of reference-creating operations still considered in
//! scope there. A borrow is live from its creation until the first location,
//! reachable through successor edges, where its borrower variable is
//! explicitly destroyed or reassigned as a whole; a return terminates every
//! borrow. This is a may-analysis that over-approximates true liveness: it
//! does not model partial moves, disjoint-field borrows or non-lexical
//! precision, and that imprecision is deliberate.
use vstd::prelude::*;

use crate::index::{SpanIndex, SpanInfo, spec_span_lookup};
use crate::ir::{
    FnBody, PlaceData, RefKind, RvalueData, Stmt, StmtKind, Term, TermKind, wf_body, wf_node,
    spec_node_targets, spec_targets,
};
use crate::traversal::get_terminator_targets;

verus! {

// =========================================================================
// Data model
// =========================================================================

/// A CFG location (block + statement index).
#[derive(Clone, Copy, PartialEq, Eq, Structural, Debug)]
pub struct LocationKey {
    pub block: usize,
    pub statement: usize,
}

/// Simplified borrow kind for downstream consumers.
#[derive(Clone, Copy, PartialEq, Eq, Structural, Debug)]
pub enum BorrowKindInfo {
    /// A shared reference.
    Shared,
    /// A mutable reference.
    Mutable,
    /// A shallow borrow, used in match guards.
    Shallow,
}

/// A borrow operation detected in the IR.
#[derive(Clone, Copy, PartialEq, Eq, Structural, Debug)]
pub struct BorrowInfo {
    /// Index of this borrow (for cross-referencing).
    pub index: usize,
    /// The local receiving the reference.
    pub borrower_local: usize,
    /// The local being borrowed.
    pub borrowed_local: usize,
    /// Kind of borrow.
    pub kind: BorrowKindInfo,
    /// Location where the borrow is created.
    pub start_location: LocationKey,
    /// Span ID for source mapping.
    pub span_id: usize,
}

/// The simplified kind a reference kind maps to.
pub open spec fn kind_info_of(rk: RefKind) -> BorrowKindInfo {
    match rk {
        RefKind::Shared => BorrowKindInfo::Shared,
        RefKind::Mut => BorrowKindInfo::Mutable,
        RefKind::Fake => BorrowKindInfo::Shallow,
    }
}

// =========================================================================
// Kill conditions
// =========================================================================

/// A statement ends the borrow whose borrower is `borrower`: the borrower's
/// storage dies, or the borrower is reassigned as a whole (not through a
/// projection).
pub open spec fn spec_kills_borrow(kind: StmtKind, borrower: usize) -> bool {
    match kind {
        StmtKind::StorageDead(local) => local == borrower,
        StmtKind::Assign(place, _) => place.projection@.len() == 0 && place.local == borrower,
        _ => false,
    }
}

/// A terminator ends the borrow: the borrower is dropped as a whole, or the
/// function returns (which ends every borrow).
pub open spec fn spec_term_kills_borrow(kind: TermKind, borrower: usize) -> bool {
    match kind {
        TermKind::Drop { place, target: _, unwind: _ } => place.projection@.len() == 0
            && place.local == borrower,
        TermKind::Return => true,
        _ => false,
    }
}

/// Check if a statement kills a borrow (ends its lifetime).
pub fn kills_borrow(stmt: &Stmt, borrower: usize) -> (r: bool)
    ensures
        r == spec_kills_borrow(stmt.kind, borrower),
{
    match &stmt.kind {
        StmtKind::StorageDead(local) => *local == borrower,
        StmtKind::Assign(place, _) => place.projection.len() == 0 && place.local == borrower,
        _ => false,
    }
}

/// Check if a terminator kills a borrow.
pub fn terminator_kills_borrow(term: &Term, borrower: usize) -> (r: bool)
    ensures
        r == spec_term_kills_borrow(term.kind, borrower),
{
    match &term.kind {
        TermKind::Drop { place, target: _, unwind: _ } => place.projection.len() == 0
            && place.local == borrower,
        TermKind::Return => true,
        _ => false,
    }
}

// =========================================================================
// The borrow scan
// =========================================================================

/// The borrow a statement assignment records, if it is one: a direct local
/// assigned a reference to a direct local (no projections on either side).
pub open spec fn spec_stmt_borrow(kind: StmtKind) -> Option<(usize, usize, RefKind)> {
    match kind {
        StmtKind::Assign(place, RvalueData::Ref(rk, bp)) => if place.projection@.len() == 0
            && bp.projection@.len() == 0 {
            Some((place.local, bp.local, rk))
        } else {
            None
        },
        _ => None,
    }
}

/// The site record one borrow contributes: its location, borrower, borrowed
/// local, kind and span.
pub open spec fn stmt_site(b: int, s: int, st: Stmt) -> Seq<
    (LocationKey, usize, usize, BorrowKindInfo, usize),
> {
    match spec_stmt_borrow(st.kind) {
        Some(t) => seq![
            (
                LocationKey { block: b as usize, statement: s as usize },
                t.0,
                t.1,
                kind_info_of(t.2),
                st.span,
            ),
        ],
        None => Seq::empty(),
    }
}

/// All borrow sites of the body from position (b, s) onward, in scan order:
/// blocks in order, statements in order within each block.
pub open spec fn sites_from(body: FnBody, b: int, s: int) -> Seq<
    (LocationKey, usize, usize, BorrowKindInfo, usize),
>
    decreases
            body.blocks.len() - b,
            (if 0 <= b < body.blocks.len() {
                body.blocks[b].statements.len() + 1 - s
            } else {
                0
            }),
    when 0 <= s
{
    if b < 0 || b >= body.blocks.len() {
        Seq::empty()
    } else if s >= body.blocks[b].statements.len() {
        sites_from(body, b + 1, 0)
    } else {
        stmt_site(b, s, body.blocks[b].statements[s]) + sites_from(body, b, s + 1)
    }
}

/// All borrow sites of the body, in scan order.
pub open spec fn spec_borrow_sites(body: FnBody) -> Seq<
    (LocationKey, usize, usize, BorrowKindInfo, usize),
> {
    sites_from(body, 0, 0)
}

/// A discovered borrow record carries exactly one site's facts.
pub open spec fn site_matches(
    info: BorrowInfo,
    site: (LocationKey, usize, usize, BorrowKindInfo, usize),
) -> bool {
    &&& info.start_location == site.0
    &&& info.borrower_local == site.1
    &&& info.borrowed_local == site.2
    &&& info.kind == site.3
    &&& info.span_id == site.4
}

/// The borrow an assignment records, if it is one.
pub open spec fn spec_extract_borrow(
    place: PlaceData,
    rvalue: RvalueData,
    block_idx: usize,
    stmt_idx: usize,
    span_id: usize,
    index: usize,
) -> Option<BorrowInfo> {
    match rvalue {
        RvalueData::Ref(rk, bp) => if place.projection@.len() == 0 && bp.projection@.len() == 0 {
            Some(
                BorrowInfo {
                    index,
                    borrower_local: place.local,
                    borrowed_local: bp.local,
                    kind: kind_info_of(rk),
                    start_location: LocationKey { block: block_idx, statement: stmt_idx },
                    span_id,
                },
            )
        } else {
            None
        },
        _ => None,
    }
}

/// Extract borrow info from an assignment if it is a borrow of a direct
/// local into a direct local.
pub fn extract_borrow(
    place: &PlaceData,
    rvalue: &RvalueData,
    block_idx: usize,
    stmt_idx: usize,
    span_id: usize,
    index: usize,
) -> (r: Option<BorrowInfo>)
    ensures
        r == spec_extract_borrow(*place, *rvalue, block_idx, stmt_idx, span_id, index),
{
    if place.projection.len() != 0 {
        return None;
    }
    match rvalue {
        RvalueData::Ref(rk, bp) => {
            if bp.projection.len() != 0 {
                return None;
            }
            let kind = match rk {
                RefKind::Shared => BorrowKindInfo::Shared,
                RefKind::Mut => BorrowKindInfo::Mutable,
                RefKind::Fake => BorrowKindInfo::Shallow,
            };
            Some(
                BorrowInfo {
                    index,
                    borrower_local: place.local,
                    borrowed_local: bp.local,
                    kind,
                    start_location: LocationKey { block: block_idx, statement: stmt_idx },
                    span_id,
                },
            )
        },
        _ => None,
    }
}

/// The site tuples a sequence of borrow records carries.
pub open spec fn sites_of(borrows: Seq<BorrowInfo>) -> Seq<
    (LocationKey, usize, usize, BorrowKindInfo, usize),
> {
    borrows.map_values(
        |i: BorrowInfo|
            (i.start_location, i.borrower_local, i.borrowed_local, i.kind, i.span_id),
    )
}

/// Scan the body for borrows, in block and statement order; the record at
/// position k carries index k.
fn scan_borrows(body: &FnBody) -> (r: Vec<BorrowInfo>)
    ensures
        sites_of(r@) == spec_borrow_sites(*body),
        forall |k: int| 0 <= k < r@.len() ==> #[trigger] r@[k].index == k,
{
    let n = body.blocks.len();
    let mut r: Vec<BorrowInfo> = Vec::new();
    let mut b: usize = 0;
    while b < n
        invariant
            b <= n,
            n == body.blocks.len(),
            spec_borrow_sites(*body) == sites_of(r@) + sites_from(*body, b as int, 0),
            forall |k: int| 0 <= k < r@.len() ==> #[trigger] r@[k].index == k,
        decreases n - b,
    {
        let m = body.blocks[b].statements.len();
        let mut s: usize = 0;
        while s < m
            invariant
                s <= m,
                b < n,
                n == body.blocks.len(),
                m == body.blocks@[b as int].statements.len(),
                spec_borrow_sites(*body) == sites_of(r@) + sites_from(*body, b as int, s as int),
                forall |k: int| 0 <= k < r@.len() ==> #[trigger] r@[k].index == k,
            decreases m - s,
        {
            let stmt = &body.blocks[b].statements[s];
            let ghost prev = r@;
            match &stmt.kind {
                StmtKind::Assign(place, rvalue) => {
                    if let Some(info) = extract_borrow(place, rvalue, b, s, stmt.span, r.len()) {
                        r.push(info);
                    }
                },
                _ => {},
            }
            proof {
                let st = body.blocks@[b as int].statements[s as int];
                assert(sites_of(r@) =~= sites_of(prev) + stmt_site(b as int, s as int, st));
                assert(sites_of(prev) + sites_from(*body, b as int, s as int) =~= (sites_of(prev)
                    + stmt_site(b as int, s as int, st)) + sites_from(*body, b as int, s + 1));
            }
            s = s + 1;
        }
        proof {
            assert(sites_from(*body, b as int, m as int) == sites_from(*body, b + 1, 0));
        }
        b = b + 1;
    }
    proof {
        assert(sites_from(*body, n as int, 0) =~= Seq::<
            (LocationKey, usize, usize, BorrowKindInfo, usize),
        >::empty());
        assert(spec_borrow_sites(*body) =~= sites_of(r@));
    }
    r
}


// =========================================================================
// Liveness structure
// =========================================================================

/// The borrow set stored at location (b, s).
pub open spec fn cell_of(active: Vec<Vec<Vec<usize>>>, b: int, s: int) -> Seq<usize> {
    active@[b]@[s]@
}

/// The liveness table has one row per node and one cell per statement
/// offset, the offset after the last statement (the terminator) included.
pub open spec fn active_wf(active: Vec<Vec<Vec<usize>>>, body: FnBody) -> bool {
    &&& active@.len() == body.blocks.len()
    &&& forall |b: int|
        0 <= b < active@.len() ==> #[trigger] active@[b]@.len() == body.blocks[b].statements.len()
            + 1
}

/// Borrow `k` is live at location (b, s).
pub open spec fn live_at(active: Vec<Vec<Vec<usize>>>, b: int, s: int, k: usize) -> bool {
    cell_of(active, b, s).contains(k)
}

pub open spec fn strictly_inc(l: Seq<usize>) -> bool {
    forall |i: int, j: int| 0 <= i < j < l.len() ==> l[i] < l[j]
}

pub open spec fn bounded_by(l: Seq<usize>, bound: usize) -> bool {
    forall |i: int| 0 <= i < l.len() ==> #[trigger] l[i] < bound
}

/// Every cell lists its borrows in strictly increasing order below `bound`.
pub open spec fn cells_wf(active: Vec<Vec<Vec<usize>>>, bound: usize) -> bool {
    forall |b: int, s: int|
        0 <= b < active@.len() && 0 <= s < active@[b]@.len() ==> strictly_inc(
            #[trigger] cell_of(active, b, s),
        ) && bounded_by(cell_of(active, b, s), bound)
}

/// Two tables have the same shape.
pub open spec fn same_shape(a: Vec<Vec<Vec<usize>>>, c: Vec<Vec<Vec<usize>>>) -> bool {
    &&& a@.len() == c@.len()
    &&& forall |b: int| 0 <= b < a@.len() ==> #[trigger] a@[b]@.len() == c@[b]@.len()
}

/// Membership of every borrow other than `k` agrees between the tables.
pub open spec fn others_unchanged(a: Vec<Vec<Vec<usize>>>, c: Vec<Vec<Vec<usize>>>, k: usize) -> bool {
    forall |b: int, s: int, j: usize|
        #![trigger cell_of(c, b, s).contains(j)]
        0 <= b < a@.len() && 0 <= s < a@[b]@.len() && j != k ==> cell_of(a, b, s).contains(j)
            == cell_of(c, b, s).contains(j)
}

/// The closure a live location owes under the conservative rule, with a
/// pending worklist: a kill-free statement step stays live at the next
/// offset; a kill-free terminator stays live at offset 0 of every successor,
/// or that successor's start is still queued.
pub open spec fn closure_pending(
    body: FnBody,
    active: Vec<Vec<Vec<usize>>>,
    wl: Seq<LocationKey>,
    k: usize,
    w: usize,
    b: int,
    s: int,
) -> bool {
    if s < body.blocks[b].statements.len() {
        !spec_kills_borrow(body.blocks[b].statements[s].kind, w) ==> live_at(active, b, s + 1, k)
    } else {
        !spec_term_kills_borrow(body.blocks[b].terminator.kind, w) ==> forall |j: int|
            0 <= j < spec_node_targets(body, b).len() ==> (live_at(
                active,
                #[trigger] spec_node_targets(body, b)[j] as int,
                0,
                k,
            ) || wl.contains(
                LocationKey { block: spec_node_targets(body, b)[j], statement: 0 },
            ))
    }
}

/// The closure a live location owes: liveness is monotonic along kill-free
/// steps, within a node and across its successor edges.
pub open spec fn stmt_closure(
    body: FnBody,
    active: Vec<Vec<Vec<usize>>>,
    k: usize,
    w: usize,
    b: int,
    s: int,
) -> bool {
    if s < body.blocks[b].statements.len() {
        !spec_kills_borrow(body.blocks[b].statements[s].kind, w) ==> live_at(active, b, s + 1, k)
    } else {
        !spec_term_kills_borrow(body.blocks[b].terminator.kind, w) ==> forall |j: int|
            0 <= j < spec_node_targets(body, b).len() ==> live_at(
                active,
                #[trigger] spec_node_targets(body, b)[j] as int,
                0,
                k,
            )
    }
}

/// Liveness of borrow `k` (with borrower `w`) is closed under kill-free
/// steps everywhere.
pub open spec fn live_closed(body: FnBody, active: Vec<Vec<Vec<usize>>>, k: usize, w: usize) -> bool {
    forall |b: int, s: int|
        #![trigger live_at(active, b, s, k)]
        0 <= b < body.blocks.len() && 0 <= s <= body.blocks[b].statements.len() && live_at(
            active,
            b,
            s,
            k,
        ) ==> stmt_closure(body, active, k, w, b, s)
}

// =========================================================================
// Marking
// =========================================================================

/// Record borrow `k` as live at (b, s), keeping the cell strictly
/// increasing: the traversal visits borrows in index order, so `k` can only
/// be appended, and only when it is not already the cell's last element.
fn mark_cell(active: &mut Vec<Vec<Vec<usize>>>, b: usize, s: usize, k: usize)
    requires
        b < old(active)@.len(),
        s < old(active)@[b as int]@.len(),
        k < usize::MAX,
        strictly_inc(cell_of(*old(active), b as int, s as int)),
        bounded_by(cell_of(*old(active), b as int, s as int), (k + 1) as usize),
    ensures
        same_shape(*old(active), *final(active)),
        others_unchanged(*old(active), *final(active), k),
        forall |b2: int, s2: int|
            0 <= b2 < old(active)@.len() && 0 <= s2 < old(active)@[b2]@.len() && !(b2 == b && s2
                == s) ==> #[trigger] cell_of(*final(active), b2, s2) == cell_of(
                *old(active),
                b2,
                s2,
            ),
        live_at(*final(active), b as int, s as int, k),
        forall |b2: int, s2: int|
            0 <= b2 < old(active)@.len() && 0 <= s2 < old(active)@[b2]@.len() && live_at(
                *old(active),
                b2,
                s2,
                k,
            ) ==> #[trigger] live_at(*final(active), b2, s2, k),
        strictly_inc(cell_of(*final(active), b as int, s as int)),
        bounded_by(cell_of(*final(active), b as int, s as int), (k + 1) as usize),
{
    let ghost pre = *active;
    let cell_len = active[b][s].len();
    let mut needs = true;
    if cell_len > 0 {
        if active[b][s][cell_len - 1] == k {
            needs = false;
        }
    }
    if needs {
        active[b][s].push(k);
        proof {
            let old_cell = cell_of(pre, b as int, s as int);
            let new_cell = cell_of(*active, b as int, s as int);
            assert(new_cell =~= old_cell.push(k));
            assert(new_cell[new_cell.len() - 1] == k);
            assert(live_at(*active, b as int, s as int, k));
            assert forall |i: int, j: int| 0 <= i < j < new_cell.len() implies new_cell[i]
                < new_cell[j] by {
                if j < new_cell.len() - 1 {
                    assert(old_cell[i] < old_cell[j]);
                } else {
                    assert(new_cell[i] == old_cell[i]);
                    if i == old_cell.len() - 1 {
                        assert(old_cell[i] != k);
                        assert(old_cell[i] < (k + 1) as usize);
                    } else {
                        assert(old_cell[i] < old_cell[old_cell.len() - 1]);
                        assert(old_cell[old_cell.len() - 1] < (k + 1) as usize);
                    }
                    assert(new_cell[i] < k);
                }
            }
            assert forall |b2: int, s2: int, j: usize|
                #![trigger cell_of(*active, b2, s2).contains(j)]
                0 <= b2 < pre@.len() && 0 <= s2 < pre@[b2]@.len() && j != k implies cell_of(
                pre,
                b2,
                s2,
            ).contains(j) == cell_of(*active, b2, s2).contains(j) by {
                if b2 == b && s2 == s {
                    if old_cell.contains(j) {
                        let ix = choose |ix: int| 0 <= ix < old_cell.len() && old_cell[ix] == j;
                        assert(new_cell[ix] == j);
                    }
                    if new_cell.contains(j) {
                        let ix = choose |ix: int| 0 <= ix < new_cell.len() && new_cell[ix] == j;
                        assert(ix < new_cell.len() - 1);
                        assert(old_cell[ix] == j);
                    }
                }
            }
            assert forall |b2: int, s2: int|
                0 <= b2 < pre@.len() && 0 <= s2 < pre@[b2]@.len() && live_at(pre, b2, s2, k)
                implies #[trigger] live_at(*active, b2, s2, k) by {
                if !(b2 == b as int && s2 == s as int) {
                    assert(cell_of(*active, b2, s2) == cell_of(pre, b2, s2));
                }
            }
        }
    } else {
        proof {
            let old_cell = cell_of(pre, b as int, s as int);
            assert(old_cell[old_cell.len() - 1] == k);
            assert(live_at(*active, b as int, s as int, k));
        }
    }
}

// =========================================================================
// Counting unvisited locations (the termination measure)
// =========================================================================

pub open spec fn visited_view(v: Vec<Vec<bool>>) -> Seq<Seq<bool>> {
    v@.map_values(|r: Vec<bool>| r@)
}

pub open spec fn count2_rows(rows: Seq<Seq<bool>>) -> nat
    decreases rows.len(),
{
    if rows.len() == 0 {
        0
    } else {
        count2_rows(rows.drop_last()) + crate::traversal::count_false(rows.last())
    }
}

proof fn lemma_count2_update(rows: Seq<Seq<bool>>, b: int, row2: Seq<bool>)
    requires
        0 <= b < rows.len(),
        crate::traversal::count_false(row2) < crate::traversal::count_false(rows[b]),
    ensures
        count2_rows(rows.update(b, row2)) < count2_rows(rows),
    decreases rows.len(),
{
    if b == rows.len() - 1 {
        assert(rows.update(b, row2).drop_last() =~= rows.drop_last());
        assert(rows.update(b, row2).last() == row2);
    } else {
        assert(rows.update(b, row2).drop_last() =~= rows.drop_last().update(b, row2));
        assert(rows.update(b, row2).last() == rows.last());
        lemma_count2_update(rows.drop_last(), b, row2);
    }
}

// =========================================================================
// The per-borrow traversal
// =========================================================================

/// Re-establish the table invariants after one marking step, chaining the
/// frame facts through the intermediate table.
proof fn lemma_mark_preserves(
    init: Vec<Vec<Vec<usize>>>,
    before: Vec<Vec<Vec<usize>>>,
    after: Vec<Vec<Vec<usize>>>,
    body: FnBody,
    k: usize,
    b: usize,
    s: usize,
)
    requires
        active_wf(before, body),
        cells_wf(before, (k + 1) as usize),
        others_unchanged(init, before, k),
        same_shape(init, before),
        same_shape(before, after),
        b < before@.len(),
        s < before@[b as int]@.len(),
        forall |b2: int, s2: int|
            0 <= b2 < before@.len() && 0 <= s2 < before@[b2]@.len() && !(b2 == b && s2 == s)
                ==> #[trigger] cell_of(after, b2, s2) == cell_of(before, b2, s2),
        others_unchanged(before, after, k),
        strictly_inc(cell_of(after, b as int, s as int)),
        bounded_by(cell_of(after, b as int, s as int), (k + 1) as usize),
    ensures
        active_wf(after, body),
        cells_wf(after, (k + 1) as usize),
        others_unchanged(init, after, k),
        same_shape(init, after),
{
    assert(after@.len() == body.blocks.len());
    assert forall |b2: int| 0 <= b2 < after@.len() implies #[trigger] after@[b2]@.len()
        == body.blocks[b2].statements.len() + 1 by {
        assert(before@[b2]@.len() == after@[b2]@.len());
    }
    assert forall |b2: int, s2: int|
        0 <= b2 < after@.len() && 0 <= s2 < after@[b2]@.len() implies strictly_inc(
        #[trigger] cell_of(after, b2, s2),
    ) && bounded_by(cell_of(after, b2, s2), (k + 1) as usize) by {
        assert(before@[b2]@.len() == after@[b2]@.len());
        if !(b2 == b as int && s2 == s as int) {
            assert(cell_of(after, b2, s2) == cell_of(before, b2, s2));
            assert(strictly_inc(cell_of(before, b2, s2)));
            assert(bounded_by(cell_of(before, b2, s2), (k + 1) as usize));
        }
    }
    assert forall |b2: int, s2: int, j: usize|
        #![trigger cell_of(after, b2, s2).contains(j)]
        0 <= b2 < init@.len() && 0 <= s2 < init@[b2]@.len() && j != k implies cell_of(
        init,
        b2,
        s2,
    ).contains(j) == cell_of(after, b2, s2).contains(j) by {
        assert(before@[b2]@.len() == init@[b2]@.len());
        assert(cell_of(before, b2, s2).contains(j) == cell_of(after, b2, s2).contains(j));
        assert(cell_of(init, b2, s2).contains(j) == cell_of(before, b2, s2).contains(j));
    }
    assert(others_unchanged(init, after, k));
}

/// Carry one location's pending closure across a step that can only mark
/// more locations live and only replace queued worklist entries by live
/// ones.
proof fn lemma_pending_transfer(
    body: FnBody,
    before: Vec<Vec<Vec<usize>>>,
    after: Vec<Vec<Vec<usize>>>,
    wl_before: Seq<LocationKey>,
    wl_after: Seq<LocationKey>,
    k: usize,
    w: usize,
    b2: int,
    s2: int,
)
    requires
        wf_body(body),
        active_wf(before, body),
        active_wf(after, body),
        forall |b3: int, s3: int|
            0 <= b3 < before@.len() && 0 <= s3 < before@[b3]@.len() && live_at(before, b3, s3, k)
                ==> #[trigger] live_at(after, b3, s3, k),
        forall |x: LocationKey|
            #![trigger wl_before.contains(x)]
            wl_before.contains(x) && x.block < body.blocks.len() ==> (wl_after.contains(x)
                || live_at(after, x.block as int, x.statement as int, k)),
        closure_pending(body, before, wl_before, k, w, b2, s2),
        0 <= b2 < body.blocks.len(),
        0 <= s2 <= body.blocks[b2].statements.len(),
    ensures
        closure_pending(body, after, wl_after, k, w, b2, s2),
{
    if s2 < body.blocks[b2].statements.len() {
        if !spec_kills_borrow(body.blocks[b2].statements[s2].kind, w) {
            assert(live_at(before, b2, s2 + 1, k));
            assert(before@[b2]@.len() == body.blocks[b2].statements.len() + 1);
            assert(live_at(after, b2, s2 + 1, k));
        }
    } else {
        if !spec_term_kills_borrow(body.blocks[b2].terminator.kind, w) {
            assert forall |j: int| 0 <= j < spec_node_targets(body, b2).len() implies (live_at(
                after,
                #[trigger] spec_node_targets(body, b2)[j] as int,
                0,
                k,
            ) || wl_after.contains(
                LocationKey { block: spec_node_targets(body, b2)[j], statement: 0 },
            )) by {
                let t = spec_node_targets(body, b2)[j];
                let x = LocationKey { block: t, statement: 0 };
                assert(wf_node(body.blocks[b2], body.blocks.len() as nat));
                assert(spec_targets(body.blocks[b2].terminator.kind)[j] < body.blocks.len());
                if live_at(before, t as int, 0, k) {
                    assert(before@[t as int]@.len() == body.blocks[t as int].statements.len() + 1);
                    assert(live_at(after, t as int, 0, k));
                } else {
                    assert(wl_before.contains(x));
                }
            }
        }
    }
}

/// Borrow `k` is live only at locations the kill-free forward walk reaches
/// from `start` — the upper bound of the conservative liveness.
pub open spec fn live_reach_ok(
    body: FnBody,
    active: Vec<Vec<Vec<usize>>>,
    k: usize,
    w: usize,
    start: LocationKey,
) -> bool {
    forall |b: int, s: int|
        #![trigger live_at(active, b, s, k)]
        0 <= b < body.blocks.len() && 0 <= s <= body.blocks[b].statements.len() && live_at(
            active,
            b,
            s,
            k,
        ) ==> walk_reachable(
            body,
            w,
            start,
            LocationKey { block: b as usize, statement: s as usize },
        )
}

/// Marking one walk-reachable location keeps liveness within the walk's
/// reach.
proof fn lemma_mark_reach(
    body: FnBody,
    w: usize,
    start: LocationKey,
    before: Vec<Vec<Vec<usize>>>,
    after: Vec<Vec<Vec<usize>>>,
    k: usize,
    b: usize,
    s: usize,
)
    requires
        active_wf(before, body),
        same_shape(before, after),
        b < before@.len(),
        s < before@[b as int]@.len(),
        forall |b2: int, s2: int|
            0 <= b2 < before@.len() && 0 <= s2 < before@[b2]@.len() && !(b2 == b && s2 == s)
                ==> #[trigger] cell_of(after, b2, s2) == cell_of(before, b2, s2),
        live_reach_ok(body, before, k, w, start),
        walk_reachable(body, w, start, LocationKey { block: b, statement: s }),
    ensures
        live_reach_ok(body, after, k, w, start),
{
    assert forall |b2: int, s2: int|
        #![trigger live_at(after, b2, s2, k)]
        0 <= b2 < body.blocks.len() && 0 <= s2 <= body.blocks[b2].statements.len() && live_at(
            after,
            b2,
            s2,
            k,
        ) implies walk_reachable(
        body,
        w,
        start,
        LocationKey { block: b2 as usize, statement: s2 as usize },
    ) by {
        assert(before@[b2]@.len() == body.blocks[b2].statements.len() + 1);
        if !(b2 == b as int && s2 == s as int) {
            assert(cell_of(after, b2, s2) == cell_of(before, b2, s2));
            assert(live_at(before, b2, s2, k));
        }
    }
}

/// Trace where borrow `k` (whose borrower is local `w`) is live, starting at
/// its creation location: a worklist traversal that walks each entered node
/// forward until a kill condition and pushes every successor of a kill-free
/// terminator. A visited set over (node, offset) pairs lets the traversal
/// enter each location at most once, so it terminates on cyclic graphs: the
/// count of unvisited locations, then the worklist length, decreases.
fn trace_borrow(
    body: &FnBody,
    active: &mut Vec<Vec<Vec<usize>>>,
    k: usize,
    w: usize,
    start: LocationKey,
)
    requires
        wf_body(*body),
        k < usize::MAX,
        active_wf(*old(active), *body),
        cells_wf(*old(active), k),
        start.block < body.blocks.len(),
        start.statement <= body.blocks[start.block as int].statements.len(),
    ensures
        active_wf(*final(active), *body),
        cells_wf(*final(active), (k + 1) as usize),
        others_unchanged(*old(active), *final(active), k),
        same_shape(*old(active), *final(active)),
        live_at(*final(active), start.block as int, start.statement as int, k),
        live_closed(*body, *final(active), k, w),
        live_reach_ok(*body, *final(active), k, w, start),
{
    let ghost init_active = *active;
    let n = body.blocks.len();
    let mut visited: Vec<Vec<bool>> = Vec::new();
    let mut bi: usize = 0;
    while bi < n
        invariant
            bi <= n,
            n == body.blocks.len(),
            visited@.len() == bi,
            forall |b2: int|
                0 <= b2 < bi ==> #[trigger] visited@[b2]@.len() == body.blocks[b2].statements.len()
                    + 1,
            forall |b2: int, s2: int|
                0 <= b2 < bi && 0 <= s2 < visited@[b2]@.len() ==> !(#[trigger] visited@[b2]@[s2]),
        decreases n - bi,
    {
        let m = body.blocks[bi].statements.len();
        let mut row: Vec<bool> = Vec::new();
        let mut si: usize = 0;
        while si < m
            invariant
                si <= m,
                row@.len() == si,
                forall |s2: int| 0 <= s2 < si ==> !(#[trigger] row@[s2]),
            decreases m - si,
        {
            row.push(false);
            si = si + 1;
        }
        row.push(false);
        visited.push(row);
        bi = bi + 1;
    }
    let mut worklist: Vec<LocationKey> = Vec::new();
    worklist.push(start);
    proof {
        assert(worklist@[0] == start);
        assert(worklist@.contains(start));
        assert(same_shape(init_active, *active));
        lemma_walk_here(*body, w, start);
        assert forall |b2: int, s2: int|
            #![trigger live_at(*active, b2, s2, k)]
            0 <= b2 < body.blocks.len() && 0 <= s2 <= body.blocks[b2].statements.len()
                implies !live_at(*active, b2, s2, k) by {
            assert(cell_of(*active, b2, s2) == cell_of(init_active, b2, s2));
            if cell_of(init_active, b2, s2).contains(k) {
                let ix = choose |ix: int|
                    0 <= ix < cell_of(init_active, b2, s2).len() && cell_of(
                        init_active,
                        b2,
                        s2,
                    )[ix] == k;
                assert(cell_of(init_active, b2, s2)[ix] < k);
            }
        }
    }
    loop
        invariant
            n == body.blocks.len(),
            wf_body(*body),
            k < usize::MAX,
            start.block < n,
            start.statement <= body.blocks[start.block as int].statements.len(),
            active_wf(*active, *body),
            cells_wf(*active, (k + 1) as usize),
            others_unchanged(init_active, *active, k),
            same_shape(init_active, *active),
            visited@.len() == n,
            forall |b2: int|
                0 <= b2 < n ==> #[trigger] visited@[b2]@.len() == body.blocks[b2].statements.len()
                    + 1,
            forall |i: int|
                0 <= i < worklist@.len() ==> (#[trigger] worklist@[i]).block < n
                    && worklist@[i].statement
                    <= body.blocks[worklist@[i].block as int].statements.len(),
            forall |i: int|
                0 <= i < worklist@.len() ==> walk_reachable(
                    *body,
                    w,
                    start,
                    #[trigger] worklist@[i],
                ),
            live_reach_ok(*body, *active, k, w, start),
            forall |b2: int, s2: int|
                0 <= b2 < n && 0 <= s2 < visited@[b2]@.len() && #[trigger] visited@[b2]@[s2]
                    ==> live_at(*active, b2, s2, k),
            live_at(*active, start.block as int, start.statement as int, k) || worklist@.contains(
                start,
            ),
            forall |b2: int, s2: int|
                #![trigger live_at(*active, b2, s2, k)]
                0 <= b2 < n && 0 <= s2 <= body.blocks[b2].statements.len() && live_at(
                    *active,
                    b2,
                    s2,
                    k,
                ) ==> closure_pending(*body, *active, worklist@, k, w, b2, s2),
        ensures
            active_wf(*active, *body),
            cells_wf(*active, (k + 1) as usize),
            others_unchanged(init_active, *active, k),
            same_shape(init_active, *active),
            live_at(*active, start.block as int, start.statement as int, k),
            live_closed(*body, *active, k, w),
            live_reach_ok(*body, *active, k, w, start),
        decreases count2_rows(visited_view(visited)), worklist@.len(),
    {
        let ghost entry_wl = worklist@;
        let ghost entry_active = *active;
        if worklist.len() == 0 {
            proof {
                assert forall |b2: int, s2: int|
                    #![trigger live_at(*active, b2, s2, k)]
                    0 <= b2 < n && 0 <= s2 <= body.blocks[b2].statements.len() && live_at(
                        *active,
                        b2,
                        s2,
                        k,
                    ) implies stmt_closure(*body, *active, k, w, b2, s2) by {
                    assert(closure_pending(*body, *active, worklist@, k, w, b2, s2));
                }
            }
            break;
        }
        let loc = worklist.pop().unwrap();
        proof {
            assert(entry_wl =~= worklist@.push(loc));
            assert(entry_wl[entry_wl.len() - 1] == loc);
            assert(walk_reachable(*body, w, start, loc));
        }
        let b = loc.block;
        let s = loc.statement;
        let len_b = body.blocks[b].statements.len();
        if visited[b][s] {
            proof {
                assert(live_at(*active, b as int, s as int, k));
                assert forall |x: LocationKey|
                    #![trigger entry_wl.contains(x)]
                    entry_wl.contains(x) && x.block < n implies (worklist@.contains(x) || live_at(
                        *active,
                        x.block as int,
                        x.statement as int,
                        k,
                    )) by {
                    let ix = choose |ix: int| 0 <= ix < entry_wl.len() && entry_wl[ix] == x;
                    if ix < entry_wl.len() - 1 {
                        assert(worklist@[ix] == x);
                    } else {
                        assert(x == loc);
                    }
                }
                assert forall |b2: int, s2: int|
                    #![trigger live_at(*active, b2, s2, k)]
                    0 <= b2 < n && 0 <= s2 <= body.blocks[b2].statements.len() && live_at(
                        *active,
                        b2,
                        s2,
                        k,
                    ) implies closure_pending(*body, *active, worklist@, k, w, b2, s2) by {
                    assert(closure_pending(*body, *active, entry_wl, k, w, b2, s2));
                    lemma_pending_transfer(
                        *body,
                        *active,
                        *active,
                        entry_wl,
                        worklist@,
                        k,
                        w,
                        b2,
                        s2,
                    );
                }
            }
            continue;
        }
        let ghost pre_rows = visited_view(visited);
        visited[b].set(s, true);
        proof {
            let row2 = visited_view(visited)[b as int];
            assert(row2 =~= pre_rows[b as int].update(s as int, true));
            crate::traversal::lemma_count_false_update(pre_rows[b as int], s as int);
            assert(visited_view(visited) =~= pre_rows.update(b as int, row2));
            lemma_count2_update(pre_rows, b as int, row2);
        }
        let ghost active_before_mark = *active;
        mark_cell(active, b, s, k);
        proof {
            lemma_mark_preserves(init_active, active_before_mark, *active, *body, k, b, s);
            lemma_mark_reach(*body, w, start, active_before_mark, *active, k, b, s);
            assert forall |b2: int, s2: int|
                0 <= b2 < n && 0 <= s2 < visited@[b2]@.len() && #[trigger] visited@[b2]@[s2]
                    implies live_at(*active, b2, s2, k) by {
                if !(b2 == b as int && s2 == s as int) {
                    assert(live_at(active_before_mark, b2, s2, k));
                }
            }
            assert forall |x: LocationKey|
                #![trigger entry_wl.contains(x)]
                entry_wl.contains(x) && x.block < n implies (worklist@.contains(x) || live_at(
                    *active,
                    x.block as int,
                    x.statement as int,
                    k,
                )) by {
                let ix = choose |ix: int| 0 <= ix < entry_wl.len() && entry_wl[ix] == x;
                if ix < entry_wl.len() - 1 {
                    assert(worklist@[ix] == x);
                } else {
                    assert(x == loc);
                    assert(live_at(*active, b as int, s as int, k));
                }
            }
            assert forall |b2: int, s2: int|
                #![trigger live_at(*active, b2, s2, k)]
                0 <= b2 < n && 0 <= s2 <= body.blocks[b2].statements.len() && live_at(
                    *active,
                    b2,
                    s2,
                    k,
                ) implies (closure_pending(*body, *active, worklist@, k, w, b2, s2) || (b2
                    == b as int && s2 == s as int)) by {
                if !(b2 == b as int && s2 == s as int) {
                    assert(active_before_mark@[b2]@.len() == body.blocks[b2].statements.len() + 1);
                    assert(cell_of(*active, b2, s2) == cell_of(active_before_mark, b2, s2));
                    assert(live_at(entry_active, b2, s2, k));
                    assert(closure_pending(*body, entry_active, entry_wl, k, w, b2, s2));
                    lemma_pending_transfer(
                        *body,
                        entry_active,
                        *active,
                        entry_wl,
                        worklist@,
                        k,
                        w,
                        b2,
                        s2,
                    );
                }
            }
        }
        let mut cur = s;
        loop
            invariant
                n == body.blocks.len(),
                wf_body(*body),
                k < usize::MAX,
                b < n,
                s <= len_b,
                cur <= len_b,
                s <= cur,
                len_b == body.blocks[b as int].statements.len(),
                start.block < n,
                start.statement <= body.blocks[start.block as int].statements.len(),
                active_wf(*active, *body),
                cells_wf(*active, (k + 1) as usize),
                others_unchanged(init_active, *active, k),
                same_shape(init_active, *active),
                visited@.len() == n,
                forall |b2: int|
                    0 <= b2 < n ==> #[trigger] visited@[b2]@.len()
                        == body.blocks[b2].statements.len() + 1,
                forall |i: int|
                    0 <= i < worklist@.len() ==> (#[trigger] worklist@[i]).block < n
                        && worklist@[i].statement
                        <= body.blocks[worklist@[i].block as int].statements.len(),
                forall |b2: int, s2: int|
                    0 <= b2 < n && 0 <= s2 < visited@[b2]@.len() && #[trigger] visited@[b2]@[s2]
                        ==> live_at(*active, b2, s2, k),
                live_at(*active, start.block as int, start.statement as int, k)
                    || worklist@.contains(start),
                live_at(*active, b as int, cur as int, k),
                walk_reachable(*body, w, start, LocationKey { block: b, statement: cur }),
                forall |i: int|
                    0 <= i < worklist@.len() ==> walk_reachable(
                        *body,
                        w,
                        start,
                        #[trigger] worklist@[i],
                    ),
                live_reach_ok(*body, *active, k, w, start),
                forall |b2: int, s2: int|
                    #![trigger live_at(*active, b2, s2, k)]
                    0 <= b2 < n && 0 <= s2 <= body.blocks[b2].statements.len() && live_at(
                        *active,
                        b2,
                        s2,
                        k,
                    ) ==> (closure_pending(*body, *active, worklist@, k, w, b2, s2) || (b2
                        == b as int && s2 == cur as int)),
            ensures
                active_wf(*active, *body),
                cells_wf(*active, (k + 1) as usize),
                others_unchanged(init_active, *active, k),
                same_shape(init_active, *active),
                visited@.len() == n,
                forall |b2: int|
                    0 <= b2 < n ==> #[trigger] visited@[b2]@.len()
                        == body.blocks[b2].statements.len() + 1,
                forall |i: int|
                    0 <= i < worklist@.len() ==> (#[trigger] worklist@[i]).block < n
                        && worklist@[i].statement
                        <= body.blocks[worklist@[i].block as int].statements.len(),
                forall |b2: int, s2: int|
                    0 <= b2 < n && 0 <= s2 < visited@[b2]@.len() && #[trigger] visited@[b2]@[s2]
                        ==> live_at(*active, b2, s2, k),
                live_at(*active, start.block as int, start.statement as int, k)
                    || worklist@.contains(start),
                forall |i: int|
                    0 <= i < worklist@.len() ==> walk_reachable(
                        *body,
                        w,
                        start,
                        #[trigger] worklist@[i],
                    ),
                live_reach_ok(*body, *active, k, w, start),
                forall |b2: int, s2: int|
                    #![trigger live_at(*active, b2, s2, k)]
                    0 <= b2 < n && 0 <= s2 <= body.blocks[b2].statements.len() && live_at(
                        *active,
                        b2,
                        s2,
                        k,
                    ) ==> closure_pending(*body, *active, worklist@, k, w, b2, s2),
            decreases len_b - cur,
        {
            if cur < len_b {
                if kills_borrow(&body.blocks[b].statements[cur], w) {
                    proof {
                        assert forall |b2: int, s2: int|
                            #![trigger live_at(*active, b2, s2, k)]
                            0 <= b2 < n && 0 <= s2 <= body.blocks[b2].statements.len() && live_at(
                                *active,
                                b2,
                                s2,
                                k,
                            ) implies closure_pending(*body, *active, worklist@, k, w, b2, s2) by {
                            if b2 == b as int && s2 == cur as int {
                                assert(spec_kills_borrow(
                                    body.blocks[b2].statements[s2].kind,
                                    w,
                                ));
                            }
                        }
                    }
                    break;
                }
                let ghost before = *active;
                mark_cell(active, b, cur + 1, k);
                proof {
                    lemma_mark_preserves(
                        init_active,
                        before,
                        *active,
                        *body,
                        k,
                        b,
                        (cur + 1) as usize,
                    );
                    lemma_walk_extend(
                        *body,
                        w,
                        start,
                        LocationKey { block: b, statement: cur },
                        LocationKey { block: b, statement: (cur + 1) as usize },
                    );
                    lemma_mark_reach(
                        *body,
                        w,
                        start,
                        before,
                        *active,
                        k,
                        b,
                        (cur + 1) as usize,
                    );
                    assert forall |b2: int, s2: int|
                        0 <= b2 < n && 0 <= s2 < visited@[b2]@.len() && #[trigger] visited@[b2]@[s2]
                            implies live_at(*active, b2, s2, k) by {
                        assert(before@[b2]@.len() == body.blocks[b2].statements.len() + 1);
                        assert(live_at(before, b2, s2, k));
                    }
                    assert(live_at(*active, b as int, cur + 1, k));
                    if live_at(before, start.block as int, start.statement as int, k) {
                        assert(before@[start.block as int]@.len()
                            == body.blocks[start.block as int].statements.len() + 1);
                        assert(live_at(*active, start.block as int, start.statement as int, k));
                    }
                    assert forall |b2: int, s2: int|
                        #![trigger live_at(*active, b2, s2, k)]
                        0 <= b2 < n && 0 <= s2 <= body.blocks[b2].statements.len() && live_at(
                            *active,
                            b2,
                            s2,
                            k,
                        ) implies (closure_pending(*body, *active, worklist@, k, w, b2, s2) || (
                        b2 == b as int && s2 == cur + 1)) by {
                        if b2 == b as int && s2 == cur as int {
                            assert(live_at(*active, b as int, cur + 1, k));
                        } else if !(b2 == b as int && s2 == cur + 1) {
                            assert(before@[b2]@.len() == body.blocks[b2].statements.len() + 1);
                            assert(cell_of(*active, b2, s2) == cell_of(before, b2, s2));
                            assert(live_at(before, b2, s2, k));
                            assert(closure_pending(*body, before, worklist@, k, w, b2, s2));
                            lemma_pending_transfer(
                                *body,
                                before,
                                *active,
                                worklist@,
                                worklist@,
                                k,
                                w,
                                b2,
                                s2,
                            );
                        }
                    }
                }
                cur = cur + 1;
            } else {
                if !terminator_kills_borrow(&body.blocks[b].terminator, w) {
                    assert(wf_node(body.blocks[b as int], n as nat));
                    let ts = get_terminator_targets(&body.blocks[b].terminator);
                    let m = ts.len();
                    let ghost pre_push_wl = worklist@;
                    let mut j: usize = 0;
                    while j < m
                        invariant
                            j <= m,
                            n == body.blocks.len(),
                            wf_body(*body),
                            b < n,
                            ts@ == spec_node_targets(*body, b as int),
                            m == ts@.len(),
                            wf_node(body.blocks[b as int], n as nat),
                            len_b == body.blocks[b as int].statements.len(),
                            walk_reachable(
                                *body,
                                w,
                                start,
                                LocationKey { block: b, statement: len_b },
                            ),
                            !spec_term_kills_borrow(body.blocks[b as int].terminator.kind, w),
                            forall |i: int|
                                0 <= i < worklist@.len() ==> walk_reachable(
                                    *body,
                                    w,
                                    start,
                                    #[trigger] worklist@[i],
                                ),
                            forall |i: int|
                                0 <= i < worklist@.len() ==> (#[trigger] worklist@[i]).block < n
                                    && worklist@[i].statement
                                    <= body.blocks[worklist@[i].block as int].statements.len(),
                            forall |x: LocationKey|
                                #![trigger pre_push_wl.contains(x)]
                                pre_push_wl.contains(x) ==> worklist@.contains(x),
                            forall |j2: int|
                                0 <= j2 < j ==> worklist@.contains(
                                    LocationKey { block: #[trigger] ts@[j2], statement: 0 },
                                ),
                        decreases m - j,
                    {
                        let t = ts[j];
                        proof {
                            assert(spec_targets(body.blocks[b as int].terminator.kind)[j as int]
                                < n);
                            assert(spec_node_targets(*body, b as int).contains(t)) by {
                                assert(ts@[j as int] == t);
                            }
                            lemma_walk_extend(
                                *body,
                                w,
                                start,
                                LocationKey { block: b, statement: len_b },
                                LocationKey { block: t, statement: 0 },
                            );
                        }
                        let ghost pre = worklist@;
                        worklist.push(LocationKey { block: t, statement: 0 });
                        proof {
                            assert forall |x: LocationKey| pre.contains(x) implies
                                worklist@.contains(x) by {
                                let ix = choose |ix: int| 0 <= ix < pre.len() && pre[ix] == x;
                                assert(worklist@[ix] == x);
                            }
                            assert(worklist@[worklist@.len() - 1] == LocationKey {
                                block: t,
                                statement: 0,
                            });
                        }
                        j = j + 1;
                    }
                    proof {
                        assert forall |b2: int, s2: int|
                            #![trigger live_at(*active, b2, s2, k)]
                            0 <= b2 < n && 0 <= s2 <= body.blocks[b2].statements.len() && live_at(
                                *active,
                                b2,
                                s2,
                                k,
                            ) implies closure_pending(*body, *active, worklist@, k, w, b2, s2) by {
                            if b2 == b as int && s2 == cur as int {
                                assert(s2 == body.blocks[b2].statements.len());
                                assert forall |j2: int|
                                    0 <= j2 < spec_node_targets(*body, b2).len() implies (live_at(
                                    *active,
                                    #[trigger] spec_node_targets(*body, b2)[j2] as int,
                                    0,
                                    k,
                                ) || worklist@.contains(
                                    LocationKey {
                                        block: spec_node_targets(*body, b2)[j2],
                                        statement: 0,
                                    },
                                )) by {
                                    assert(ts@[j2] == spec_node_targets(*body, b2)[j2]);
                                    assert(worklist@.contains(
                                        LocationKey {
                                            block: spec_node_targets(*body, b2)[j2],
                                            statement: 0,
                                        },
                                    ));
                                }
                            } else {
                                assert(closure_pending(
                                    *body,
                                    *active,
                                    pre_push_wl,
                                    k,
                                    w,
                                    b2,
                                    s2,
                                ));
                                lemma_pending_transfer(
                                    *body,
                                    *active,
                                    *active,
                                    pre_push_wl,
                                    worklist@,
                                    k,
                                    w,
                                    b2,
                                    s2,
                                );
                            }
                        }
                    }
                } else {
                    proof {
                        assert forall |b2: int, s2: int|
                            #![trigger live_at(*active, b2, s2, k)]
                            0 <= b2 < n && 0 <= s2 <= body.blocks[b2].statements.len() && live_at(
                                *active,
                                b2,
                                s2,
                                k,
                            ) implies closure_pending(*body, *active, worklist@, k, w, b2, s2) by {
                            if b2 == b as int && s2 == cur as int {
                                assert(spec_term_kills_borrow(
                                    body.blocks[b2].terminator.kind,
                                    w,
                                ));
                            }
                        }
                    }
                }
                break;
            }
        }
    }
}


// =========================================================================
// The borrow index
// =========================================================================

/// A site's location lies inside the body.
pub open spec fn valid_site(
    body: FnBody,
    site: (LocationKey, usize, usize, BorrowKindInfo, usize),
) -> bool {
    &&& site.0.block < body.blocks.len()
    &&& site.0.statement < body.blocks[site.0.block as int].statements.len()
}

proof fn lemma_sites_valid(body: FnBody, b: int, s: int)
    requires
        0 <= s,
    ensures
        forall |i: int|
            0 <= i < sites_from(body, b, s).len() ==> valid_site(
                body,
                #[trigger] sites_from(body, b, s)[i],
            ),
    decreases
            body.blocks.len() - b,
            (if 0 <= b < body.blocks.len() {
                body.blocks[b].statements.len() + 1 - s
            } else {
                0
            }),
{
    if b < 0 || b >= body.blocks.len() {
        assert(sites_from(body, b, s) =~= Seq::<
            (LocationKey, usize, usize, BorrowKindInfo, usize),
        >::empty());
    } else if s >= body.blocks[b].statements.len() {
        lemma_sites_valid(body, b + 1, 0);
        assert(sites_from(body, b, s) == sites_from(body, b + 1, 0));
    } else {
        lemma_sites_valid(body, b, s + 1);
        let hd = stmt_site(b, s, body.blocks[b].statements[s]);
        let tl = sites_from(body, b, s + 1);
        assert(sites_from(body, b, s) == hd + tl);
        assert forall |i: int|
            0 <= i < sites_from(body, b, s).len() implies valid_site(
            body,
            #[trigger] sites_from(body, b, s)[i],
        ) by {
            if i < hd.len() {
                assert(sites_from(body, b, s)[i] == hd[i]);
                assert(hd[0].0.block == b as usize);
                assert(hd[0].0.statement == s as usize);
            } else {
                assert(sites_from(body, b, s)[i] == tl[i - hd.len()]);
                assert(valid_site(body, tl[i - hd.len()]));
            }
        }
    }
}

/// Borrow `k` is recorded for line `L` in the per-line table.
pub open spec fn line_marked(lines: Seq<(usize, Vec<usize>)>, line: usize, k: usize) -> bool {
    exists |i: int|
        0 <= i < lines.len() && (#[trigger] lines[i]).0 == line && lines[i].1@.contains(k)
}

/// Borrow `k` is owed for line `L`: its creation span resolves and covers
/// the line.
pub open spec fn spec_line_live(
    borrows: Seq<BorrowInfo>,
    spans: Seq<(usize, SpanInfo)>,
    line: usize,
    k: usize,
) -> bool {
    &&& 0 <= k < borrows.len()
    &&& match spec_span_lookup(spans, borrows[k as int].span_id) {
        Some(info) => info.line_start <= line <= info.line_end,
        None => false,
    }
}

/// Each line has at most one entry in the per-line table.
pub open spec fn unique_line_keys(lines: Seq<(usize, Vec<usize>)>) -> bool {
    forall |m1: int, m2: int|
        0 <= m1 < m2 < lines.len() ==> (#[trigger] lines[m1]).0 != (#[trigger] lines[m2]).0
}

/// Every per-line list holds its borrows in strictly increasing order
/// below `bound`.
pub open spec fn line_lists_wf(lines: Seq<(usize, Vec<usize>)>, bound: usize) -> bool {
    forall |m: int|
        0 <= m < lines.len() ==> strictly_inc((#[trigger] lines[m]).1@) && bounded_by(
            lines[m].1@,
            bound,
        )
}

/// Record borrow `k` for line `line`, keeping each list strictly
/// increasing: borrows come in index order, and no line sees one twice.
fn add_line(lines: &mut Vec<(usize, Vec<usize>)>, line: usize, k: usize)
    requires
        unique_line_keys(old(lines)@),
        line_lists_wf(old(lines)@, (k + 1) as usize),
        k < usize::MAX,
        !line_marked(old(lines)@, line, k),
    ensures
        unique_line_keys(final(lines)@),
        line_lists_wf(final(lines)@, (k + 1) as usize),
        forall |l2: usize, j: usize|
            #![trigger line_marked(final(lines)@, l2, j)]
            line_marked(final(lines)@, l2, j) == (line_marked(old(lines)@, l2, j) || (l2 == line
                && j == k)),
{
    let n = lines.len();
    let mut i: usize = 0;
    while i < n
        invariant
            i <= n,
            n == lines@.len(),
            lines@ == old(lines)@,
            unique_line_keys(lines@),
            line_lists_wf(lines@, (k + 1) as usize),
            k < usize::MAX,
            !line_marked(lines@, line, k),
            forall |m: int| 0 <= m < i ==> (#[trigger] lines@[m]).0 != line,
        decreases n - i,
    {
        if lines[i].0 == line {
            let ghost pre = lines@;
            lines[i].1.push(k);
            proof {
                assert(lines@[i as int].0 == pre[i as int].0);
                assert forall |m1: int, m2: int|
                    0 <= m1 < m2 < lines@.len() implies (#[trigger] lines@[m1]).0
                    != (#[trigger] lines@[m2]).0 by {
                    assert(lines@[m1].0 == pre[m1].0);
                    assert(lines@[m2].0 == pre[m2].0);
                }
                assert(lines@[i as int].1@ =~= pre[i as int].1@.push(k));
                let old_cell = pre[i as int].1@;
                let new_cell = lines@[i as int].1@;
                assert(!old_cell.contains(k)) by {
                    if old_cell.contains(k) {
                        assert(pre[i as int].0 == line && pre[i as int].1@.contains(k));
                        assert(line_marked(pre, line, k));
                    }
                }
                assert forall |x1: int, x2: int|
                    0 <= x1 < x2 < new_cell.len() implies new_cell[x1] < new_cell[x2] by {
                    if x2 < new_cell.len() - 1 {
                        assert(old_cell[x1] < old_cell[x2]);
                    } else {
                        assert(new_cell[x1] == old_cell[x1]);
                        assert(old_cell[x1] < (k + 1) as usize);
                        assert(old_cell[x1] != k);
                        assert(new_cell[x2] == k);
                    }
                }
                assert forall |m: int|
                    0 <= m < lines@.len() implies strictly_inc((#[trigger] lines@[m]).1@)
                    && bounded_by(lines@[m].1@, (k + 1) as usize) by {
                    if m != i {
                        assert(lines@[m] == pre[m]);
                    }
                }
                assert forall |l2: usize, j: usize|
                    #![trigger line_marked(lines@, l2, j)]
                    line_marked(lines@, l2, j) == (line_marked(pre, l2, j) || (l2 == line && j
                        == k)) by {
                    if line_marked(pre, l2, j) {
                        let m = choose |m: int|
                            0 <= m < pre.len() && pre[m].0 == l2 && pre[m].1@.contains(j);
                        if m == i {
                            let ix = choose |ix: int|
                                0 <= ix < pre[m].1@.len() && pre[m].1@[ix] == j;
                            assert(lines@[m].1@[ix] == j);
                            assert(lines@[m].1@.contains(j));
                        } else {
                            assert(lines@[m] == pre[m]);
                        }
                        assert(line_marked(lines@, l2, j));
                    }
                    if l2 == line && j == k {
                        assert(lines@[i as int].1@[lines@[i as int].1@.len() - 1] == k);
                        assert(lines@[i as int].1@.contains(k));
                        assert(line_marked(lines@, l2, j));
                    }
                    if line_marked(lines@, l2, j) {
                        let m = choose |m: int|
                            0 <= m < lines@.len() && lines@[m].0 == l2 && lines@[m].1@.contains(
                                j,
                            );
                        if m == i {
                            let ix = choose |ix: int|
                                0 <= ix < lines@[m].1@.len() && lines@[m].1@[ix] == j;
                            if ix < pre[m].1@.len() {
                                assert(pre[m].1@[ix] == j);
                                assert(line_marked(pre, l2, j));
                            } else {
                                assert(j == k && l2 == line);
                            }
                        } else {
                            assert(lines@[m] == pre[m]);
                            assert(line_marked(pre, l2, j));
                        }
                    }
                }
            }
            return;
        }
        i = i + 1;
    }
    let ghost pre = lines@;
    let mut cell: Vec<usize> = Vec::new();
    cell.push(k);
    lines.push((line, cell));
    proof {
        assert forall |m: int|
            0 <= m < lines@.len() implies strictly_inc((#[trigger] lines@[m]).1@) && bounded_by(
            lines@[m].1@,
            (k + 1) as usize,
        ) by {
            if m < pre.len() {
                assert(lines@[m] == pre[m]);
            } else {
                assert(lines@[m].1@ =~= seq![k]);
            }
        }
        assert forall |m1: int, m2: int|
            0 <= m1 < m2 < lines@.len() implies (#[trigger] lines@[m1]).0 != (#[trigger] lines@[m2]).0 by {
            if m2 < pre.len() {
                assert(lines@[m1].0 == pre[m1].0);
                assert(lines@[m2].0 == pre[m2].0);
            } else {
                assert(lines@[m1].0 == pre[m1].0);
                assert(lines@[m2].0 == line);
                assert(pre[m1].0 != line);
            }
        }
        assert forall |l2: usize, j: usize|
            #![trigger line_marked(lines@, l2, j)]
            line_marked(lines@, l2, j) == (line_marked(pre, l2, j) || (l2 == line && j == k)) by {
            if line_marked(pre, l2, j) {
                let m = choose |m: int|
                    0 <= m < pre.len() && pre[m].0 == l2 && pre[m].1@.contains(j);
                assert(lines@[m] == pre[m]);
                assert(line_marked(lines@, l2, j));
            }
            if l2 == line && j == k {
                assert(lines@[lines@.len() - 1].0 == line);
                assert(lines@[lines@.len() - 1].1@[0] == k);
                assert(lines@[lines@.len() - 1].1@.contains(k));
                assert(line_marked(lines@, l2, j));
            }
            if line_marked(lines@, l2, j) {
                let m = choose |m: int|
                    0 <= m < lines@.len() && lines@[m].0 == l2 && lines@[m].1@.contains(j);
                if m < pre.len() {
                    assert(lines@[m] == pre[m]);
                    assert(line_marked(pre, l2, j));
                } else {
                    assert(lines@[m].0 == line);
                    let ix = choose |ix: int|
                        0 <= ix < lines@[m].1@.len() && lines@[m].1@[ix] == j;
                    assert(j == k);
                }
            }
        }
    }
}

/// Index for tracking borrows and their liveness.
pub struct BorrowIndex {
    /// All borrows in the function, in scan order.
    pub borrows: Vec<BorrowInfo>,
    /// For each CFG location (node, then statement offset, the terminator
    /// offset included), which borrow indices are live there.
    pub active_at_location: Vec<Vec<Vec<usize>>>,
    /// For each source line, which borrow indices are active.
    pub active_at_line: Vec<(usize, Vec<usize>)>,
}

impl BorrowIndex {
    /// An empty index.
    pub fn new() -> (r: BorrowIndex)
        ensures
            r.borrows@.len() == 0,
            r.active_at_location@.len() == 0,
            r.active_at_line@.len() == 0,
    {
        BorrowIndex {
            borrows: Vec::new(),
            active_at_location: Vec::new(),
            active_at_line: Vec::new(),
        }
    }

    /// Build the borrow index from a function body: find all borrows in one
    /// scan, compute where each is live by a conservative worklist
    /// traversal, and fold the liveness onto source lines through the span
    /// index. Each borrow is live at its creation location; liveness is
    /// closed under kill-free steps and confined to the locations the
    /// kill-free walk reaches from the creation — the lower and upper bound
    /// of the conservative analysis.
    pub fn from_body(body: &FnBody, span_index: &SpanIndex) -> (r: BorrowIndex)
        requires
            wf_body(*body),
        ensures
            sites_of(r.borrows@) == spec_borrow_sites(*body),
            forall |k: int| 0 <= k < r.borrows@.len() ==> #[trigger] r.borrows@[k].index == k,
            active_wf(r.active_at_location, *body),
            cells_wf(r.active_at_location, r.borrows@.len() as usize),
            forall |k: int|
                0 <= k < r.borrows@.len() ==> live_at(
                    r.active_at_location,
                    (#[trigger] r.borrows@[k]).start_location.block as int,
                    r.borrows@[k].start_location.statement as int,
                    k as usize,
                ),
            forall |k: int|
                0 <= k < r.borrows@.len() ==> live_closed(
                    *body,
                    r.active_at_location,
                    k as usize,
                    (#[trigger] r.borrows@[k]).borrower_local,
                ),
            forall |k: int|
                0 <= k < r.borrows@.len() ==> live_reach_ok(
                    *body,
                    r.active_at_location,
                    k as usize,
                    (#[trigger] r.borrows@[k]).borrower_local,
                    r.borrows@[k].start_location,
                ),
            forall |line: usize, k: usize|
                #![trigger line_marked(r.active_at_line@, line, k)]
                line_marked(r.active_at_line@, line, k) == spec_line_live(
                    r.borrows@,
                    span_index.by_id@,
                    line,
                    k,
                ),
            unique_line_keys(r.active_at_line@),
            line_lists_wf(r.active_at_line@, r.borrows@.len() as usize),
    {
        let borrows = scan_borrows(body);
        let nb = borrows.len();
        proof {
            lemma_sites_valid(*body, 0, 0);
        }
        let n = body.blocks.len();
        let mut active: Vec<Vec<Vec<usize>>> = Vec::new();
        let mut bi: usize = 0;
        while bi < n
            invariant
                bi <= n,
                n == body.blocks.len(),
                active@.len() == bi,
                forall |b2: int|
                    0 <= b2 < bi ==> #[trigger] active@[b2]@.len()
                        == body.blocks[b2].statements.len() + 1,
                forall |b2: int, s2: int|
                    0 <= b2 < bi && 0 <= s2 < active@[b2]@.len() ==> (#[trigger] cell_of(
                        active,
                        b2,
                        s2,
                    )).len() == 0,
            decreases n - bi,
        {
            let m = body.blocks[bi].statements.len();
            let mut row: Vec<Vec<usize>> = Vec::new();
            let mut si: usize = 0;
            while si < m
                invariant
                    si <= m,
                    row@.len() == si,
                    forall |s2: int| 0 <= s2 < si ==> (#[trigger] row@[s2]@).len() == 0,
                decreases m - si,
            {
                row.push(Vec::new());
                si = si + 1;
            }
            row.push(Vec::new());
            proof {
                assert(row@[row@.len() - 1]@.len() == 0);
            }
            let ghost pre_active = active;
            active.push(row);
            proof {
                assert forall |b2: int, s2: int|
                    0 <= b2 < bi + 1 && 0 <= s2 < active@[b2]@.len() implies (#[trigger] cell_of(
                    active,
                    b2,
                    s2,
                )).len() == 0 by {
                    if b2 == bi as int {
                        assert(active@[b2]@[s2] == row@[s2]);
                    } else {
                        assert(active@[b2] == pre_active@[b2]);
                        assert(cell_of(pre_active, b2, s2).len() == 0);
                    }
                }
            }
            bi = bi + 1;
        }
        let mut k: usize = 0;
        while k < nb
            invariant
                k <= nb,
                n == body.blocks.len(),
                wf_body(*body),
                nb == borrows@.len(),
                sites_of(borrows@) == spec_borrow_sites(*body),
                forall |k2: int| 0 <= k2 < nb ==> #[trigger] borrows@[k2].index == k2,
                forall |i: int|
                    0 <= i < spec_borrow_sites(*body).len() ==> valid_site(
                        *body,
                        #[trigger] spec_borrow_sites(*body)[i],
                    ),
                active_wf(active, *body),
                cells_wf(active, k),
                forall |k2: int|
                    0 <= k2 < k ==> live_at(
                        active,
                        (#[trigger] borrows@[k2]).start_location.block as int,
                        borrows@[k2].start_location.statement as int,
                        k2 as usize,
                    ),
                forall |k2: int|
                    0 <= k2 < k ==> live_closed(
                        *body,
                        active,
                        k2 as usize,
                        (#[trigger] borrows@[k2]).borrower_local,
                    ),
                forall |k2: int|
                    0 <= k2 < k ==> live_reach_ok(
                        *body,
                        active,
                        k2 as usize,
                        (#[trigger] borrows@[k2]).borrower_local,
                        borrows@[k2].start_location,
                    ),
            decreases nb - k,
        {
            let info = borrows[k];
            proof {
                assert(sites_of(borrows@)[k as int] == spec_borrow_sites(*body)[k as int]);
                assert(valid_site(*body, spec_borrow_sites(*body)[k as int]));
                assert(info.start_location == spec_borrow_sites(*body)[k as int].0);
            }
            let ghost pre_active = active;
            trace_borrow(body, &mut active, k, info.borrower_local, info.start_location);
            proof {
                assert forall |k2: int|
                    0 <= k2 < k + 1 implies live_at(
                    active,
                    (#[trigger] borrows@[k2]).start_location.block as int,
                    borrows@[k2].start_location.statement as int,
                    k2 as usize,
                ) by {
                    if k2 < k {
                        let blk = borrows@[k2].start_location.block as int;
                        let st = borrows@[k2].start_location.statement as int;
                        assert(valid_site(*body, spec_borrow_sites(*body)[k2]));
                        assert(sites_of(borrows@)[k2] == spec_borrow_sites(*body)[k2]);
                        assert(pre_active@[blk]@.len() == body.blocks[blk].statements.len() + 1);
                        assert(cell_of(active, blk, st).contains(k2 as usize) == cell_of(
                            pre_active,
                            blk,
                            st,
                        ).contains(k2 as usize));
                    }
                }
                assert forall |k2: int|
                    0 <= k2 < k + 1 implies live_reach_ok(
                    *body,
                    active,
                    k2 as usize,
                    (#[trigger] borrows@[k2]).borrower_local,
                    borrows@[k2].start_location,
                ) by {
                    if k2 < k {
                        let w2 = borrows@[k2].borrower_local;
                        let st2 = borrows@[k2].start_location;
                        assert forall |b2: int, s2: int|
                            #![trigger live_at(active, b2, s2, k2 as usize)]
                            0 <= b2 < body.blocks.len() && 0 <= s2
                                <= body.blocks[b2].statements.len() && live_at(
                                active,
                                b2,
                                s2,
                                k2 as usize,
                            ) implies walk_reachable(
                            *body,
                            w2,
                            st2,
                            LocationKey { block: b2 as usize, statement: s2 as usize },
                        ) by {
                            assert(pre_active@[b2]@.len() == body.blocks[b2].statements.len()
                                + 1);
                            assert(cell_of(active, b2, s2).contains(k2 as usize) == cell_of(
                                pre_active,
                                b2,
                                s2,
                            ).contains(k2 as usize));
                            assert(live_at(pre_active, b2, s2, k2 as usize));
                        }
                    }
                }
                assert forall |k2: int|
                    0 <= k2 < k + 1 implies live_closed(
                    *body,
                    active,
                    k2 as usize,
                    (#[trigger] borrows@[k2]).borrower_local,
                ) by {
                    if k2 < k {
                        let w2 = borrows@[k2].borrower_local;
                        assert forall |b2: int, s2: int|
                            #![trigger live_at(active, b2, s2, k2 as usize)]
                            0 <= b2 < body.blocks.len() && 0 <= s2
                                <= body.blocks[b2].statements.len() && live_at(
                                active,
                                b2,
                                s2,
                                k2 as usize,
                            ) implies stmt_closure(*body, active, k2 as usize, w2, b2, s2) by {
                            assert(pre_active@[b2]@.len() == body.blocks[b2].statements.len()
                                + 1);
                            assert(cell_of(active, b2, s2).contains(k2 as usize) == cell_of(
                                pre_active,
                                b2,
                                s2,
                            ).contains(k2 as usize));
                            assert(live_at(pre_active, b2, s2, k2 as usize));
                            assert(stmt_closure(*body, pre_active, k2 as usize, w2, b2, s2));
                            if s2 < body.blocks[b2].statements.len() {
                                if !spec_kills_borrow(body.blocks[b2].statements[s2].kind, w2) {
                                    assert(cell_of(active, b2, s2 + 1).contains(k2 as usize)
                                        == cell_of(pre_active, b2, s2 + 1).contains(
                                        k2 as usize,
                                    ));
                                }
                            } else {
                                if !spec_term_kills_borrow(body.blocks[b2].terminator.kind, w2) {
                                    assert forall |j: int|
                                        0 <= j < spec_node_targets(*body, b2).len() implies
                                        live_at(
                                        active,
                                        #[trigger] spec_node_targets(*body, b2)[j] as int,
                                        0,
                                        k2 as usize,
                                    ) by {
                                        let t = spec_node_targets(*body, b2)[j] as int;
                                        assert(wf_node(
                                            body.blocks[b2],
                                            body.blocks.len() as nat,
                                        ));
                                        assert(spec_targets(
                                            body.blocks[b2].terminator.kind,
                                        )[j] < body.blocks.len());
                                        assert(pre_active@[t]@.len()
                                            == body.blocks[t].statements.len() + 1);
                                        assert(cell_of(active, t, 0).contains(k2 as usize)
                                            == cell_of(pre_active, t, 0).contains(k2 as usize));
                                    }
                                }
                            }
                        }
                    }
                }
            }
            k = k + 1;
        }
        // Fold per-location liveness onto source lines: a borrow covers
        // every line of its creation span.
        let mut lines: Vec<(usize, Vec<usize>)> = Vec::new();
        let mut k2: usize = 0;
        while k2 < nb
            invariant
                k2 <= nb,
                nb == borrows@.len(),
                unique_line_keys(lines@),
                line_lists_wf(lines@, k2),
                forall |line: usize, j: usize|
                    #![trigger line_marked(lines@, line, j)]
                    line_marked(lines@, line, j) == (j < k2 && spec_line_live(
                        borrows@,
                        span_index.by_id@,
                        line,
                        j,
                    )),
            decreases nb - k2,
        {
            match span_index.get(borrows[k2].span_id) {
                Some(info) => {
                    let l0 = info.line_start;
                    let l1 = info.line_end;
                    if l0 <= l1 {
                        proof {
                            assert forall |m: int|
                                0 <= m < lines@.len() implies strictly_inc(
                                (#[trigger] lines@[m]).1@,
                            ) && bounded_by(lines@[m].1@, (k2 + 1) as usize) by {
                                assert(bounded_by(lines@[m].1@, k2));
                            }
                        }
                        let mut line = l0;
                        loop
                            invariant_except_break
                                forall |l2: usize, j: usize|
                                    #![trigger line_marked(lines@, l2, j)]
                                    line_marked(lines@, l2, j) == ((j < k2 && spec_line_live(
                                        borrows@,
                                        span_index.by_id@,
                                        l2,
                                        j,
                                    )) || (j == k2 && l0 <= l2 < line)),
                            invariant
                                l0 <= line <= l1,
                                k2 < nb,
                                nb == borrows@.len(),
                                unique_line_keys(lines@),
                                line_lists_wf(lines@, (k2 + 1) as usize),
                                spec_span_lookup(span_index.by_id@, borrows@[k2 as int].span_id)
                                    matches Some(si) && si.line_start == l0 && si.line_end == l1,
                            ensures
                                unique_line_keys(lines@),
                                line_lists_wf(lines@, (k2 + 1) as usize),
                                forall |l2: usize, j: usize|
                                    #![trigger line_marked(lines@, l2, j)]
                                    line_marked(lines@, l2, j) == ((j < k2 && spec_line_live(
                                        borrows@,
                                        span_index.by_id@,
                                        l2,
                                        j,
                                    )) || (j == k2 && l0 <= l2 <= l1)),
                            decreases l1 - line,
                        {
                            let ghost pre_lines = lines@;
                            add_line(&mut lines, line, k2);
                            proof {
                                assert forall |l2: usize, j: usize|
                                    #![trigger line_marked(lines@, l2, j)]
                                    line_marked(lines@, l2, j) == ((j < k2 && spec_line_live(
                                        borrows@,
                                        span_index.by_id@,
                                        l2,
                                        j,
                                    )) || (j == k2 && l0 <= l2 < line + 1)) by {
                                    assert(line_marked(lines@, l2, j) == (line_marked(
                                        pre_lines,
                                        l2,
                                        j,
                                    ) || (l2 == line && j == k2)));
                                }
                            }
                            if line == l1 {
                                break;
                            }
                            line = line + 1;
                        }
                    }
                },
                None => {},
            }
            proof {
                assert forall |l2: usize, j: usize|
                    #![trigger line_marked(lines@, l2, j)]
                    line_marked(lines@, l2, j) == (j < k2 + 1 && spec_line_live(
                        borrows@,
                        span_index.by_id@,
                        l2,
                        j,
                    )) by {
                    if j == k2 {
                        assert(0 <= k2 < borrows@.len());
                    }
                }
                assert forall |m: int|
                    0 <= m < lines@.len() implies strictly_inc((#[trigger] lines@[m]).1@)
                    && bounded_by(lines@[m].1@, (k2 + 1) as usize) by {
                    if bounded_by(lines@[m].1@, k2) {
                    }
                }
            }
            k2 = k2 + 1;
        }
        BorrowIndex { borrows, active_at_location: active, active_at_line: lines }
    }

    /// Get the borrows live at a specific CFG location, in increasing
    /// order; out-of-range locations have none.
    pub fn active_at(&self, block: usize, statement: usize) -> (r: Vec<usize>)
        ensures
            block < self.active_at_location@.len() && statement
                < self.active_at_location@[block as int]@.len() ==> r@ == cell_of(
                self.active_at_location,
                block as int,
                statement as int,
            ),
            !(block < self.active_at_location@.len() && statement
                < self.active_at_location@[block as int]@.len()) ==> r@.len() == 0,
    {
        if block < self.active_at_location.len() && statement
            < self.active_at_location[block].len() {
            self.active_at_location[block][statement].clone()
        } else {
            Vec::new()
        }
    }

    /// Get the borrows recorded for a source line; a line no borrow covers
    /// has none.
    pub fn active_at_source_line(&self, line: usize) -> (r: Vec<usize>)
        requires
            unique_line_keys(self.active_at_line@),
            line_lists_wf(self.active_at_line@, self.borrows@.len() as usize),
        ensures
            forall |k: usize| r@.contains(k) == line_marked(self.active_at_line@, line, k),
            strictly_inc(r@),
            bounded_by(r@, self.borrows@.len() as usize),
    {
        let n = self.active_at_line.len();
        let mut i: usize = 0;
        while i < n
            invariant
                i <= n,
                n == self.active_at_line@.len(),
                unique_line_keys(self.active_at_line@),
                line_lists_wf(self.active_at_line@, self.borrows@.len() as usize),
                forall |m: int| 0 <= m < i ==> (#[trigger] self.active_at_line@[m]).0 != line,
            decreases n - i,
        {
            if self.active_at_line[i].0 == line {
                let r = self.active_at_line[i].1.clone();
                proof {
                    assert(r@ =~= self.active_at_line@[i as int].1@);
                    assert(strictly_inc(self.active_at_line@[i as int].1@));
                    assert(bounded_by(
                        self.active_at_line@[i as int].1@,
                        self.borrows@.len() as usize,
                    ));
                    assert forall |k: usize| r@.contains(k) == line_marked(
                        self.active_at_line@,
                        line,
                        k,
                    ) by {
                        if r@.contains(k) {
                            assert(self.active_at_line@[i as int].0 == line
                                && self.active_at_line@[i as int].1@.contains(k));
                            assert(line_marked(self.active_at_line@, line, k));
                        }
                        if line_marked(self.active_at_line@, line, k) {
                            let m = choose |m: int|
                                0 <= m < self.active_at_line@.len()
                                    && (#[trigger] self.active_at_line@[m]).0 == line
                                    && self.active_at_line@[m].1@.contains(k);
                            if m < i as int {
                                assert(self.active_at_line@[m].0 != line);
                            }
                            if m > i as int {
                                assert(self.active_at_line@[i as int].0
                                    != self.active_at_line@[m].0);
                            }
                            assert(m == i as int);
                        }
                    }
                }
                return r;
            }
            i = i + 1;
        }
        proof {
            assert forall |k: usize| !line_marked(self.active_at_line@, line, k) by {
                if line_marked(self.active_at_line@, line, k) {
                    let m = choose |m: int|
                        0 <= m < self.active_at_line@.len() && self.active_at_line@[m].0 == line
                            && self.active_at_line@[m].1@.contains(k);
                    assert(self.active_at_line@[m].0 != line);
                }
            }
        }
        Vec::new()
    }

    /// Get a borrow by index.
    pub fn get(&self, index: usize) -> (r: Option<&BorrowInfo>)
        ensures
            (r is Some) == (index < self.borrows@.len()),
            r matches Some(v) ==> *v == self.borrows@[index as int],
    {
        if index < self.borrows.len() {
            Some(&self.borrows[index])
        } else {
            None
        }
    }
}


/// The borrower of borrow `k` is killed exactly at `loc`: by the statement
/// there, or by the terminator when `loc` sits at the terminator offset.
/// The span of the instruction at `loc`: the statement there, or the
/// terminator at the offset past the statements.
pub open spec fn spec_end_span(body: FnBody, loc: LocationKey) -> usize {
    if loc.statement < body.blocks[loc.block as int].statements.len() {
        body.blocks[loc.block as int].statements[loc.statement as int].span
    } else {
        body.blocks[loc.block as int].terminator.span
    }
}

pub open spec fn spec_kill_point(body: FnBody, loc: LocationKey, w: usize) -> bool {
    &&& loc.block < body.blocks.len()
    &&& loc.statement <= body.blocks[loc.block as int].statements.len()
    &&& (loc.statement < body.blocks[loc.block as int].statements.len() ==> spec_kills_borrow(
        body.blocks[loc.block as int].statements[loc.statement as int].kind,
        w,
    ))
    &&& (loc.statement == body.blocks[loc.block as int].statements.len()
        ==> spec_term_kills_borrow(body.blocks[loc.block as int].terminator.kind, w))
}

/// One step of the conservative forward walk of a borrow with borrower
/// `w`: within a node to the next offset when the statement at the current
/// offset does not kill the borrower, and from the terminator offset to
/// offset 0 of every successor when the terminator does not kill it.
pub open spec fn walk_step(body: FnBody, w: usize, a: LocationKey, b: LocationKey) -> bool {
    &&& a.block < body.blocks.len()
    &&& if a.statement < body.blocks[a.block as int].statements.len() {
        &&& !spec_kills_borrow(
            body.blocks[a.block as int].statements[a.statement as int].kind,
            w,
        )
        &&& b.block == a.block
        &&& b.statement == a.statement + 1
    } else {
        &&& a.statement == body.blocks[a.block as int].statements.len()
        &&& !spec_term_kills_borrow(body.blocks[a.block as int].terminator.kind, w)
        &&& spec_node_targets(body, a.block as int).contains(b.block)
        &&& b.statement == 0
    }
}

/// A walk: consecutive locations connected by kill-free steps.
pub open spec fn is_walk(body: FnBody, w: usize, p: Seq<LocationKey>) -> bool {
    &&& p.len() >= 1
    &&& forall |i: int|
        #![trigger p[i]]
        0 <= i < p.len() - 1 ==> walk_step(body, w, p[i], p[i + 1])
}

/// Location `to` is reachable from `from` by the forward walk: through
/// locations none of which, except possibly `to` itself, kills the
/// borrower.
pub open spec fn walk_reachable(body: FnBody, w: usize, from: LocationKey, to: LocationKey) -> bool {
    exists |p: Seq<LocationKey>|
        #[trigger] is_walk(body, w, p) && p.first() == from && p.last() == to
}

proof fn lemma_walk_here(body: FnBody, w: usize, loc: LocationKey)
    ensures
        walk_reachable(body, w, loc, loc),
{
    let p = seq![loc];
    assert(is_walk(body, w, p));
    assert(p.first() == loc && p.last() == loc);
}

proof fn lemma_walk_extend(
    body: FnBody,
    w: usize,
    from: LocationKey,
    a: LocationKey,
    b: LocationKey,
)
    requires
        walk_reachable(body, w, from, a),
        walk_step(body, w, a, b),
    ensures
        walk_reachable(body, w, from, b),
{
    let p = choose |p: Seq<LocationKey>|
        #[trigger] is_walk(body, w, p) && p.first() == from && p.last() == a;
    let q = p.push(b);
    assert forall |i: int|
        #![trigger q[i]]
        0 <= i < q.len() - 1 implies walk_step(body, w, q[i], q[i + 1]) by {
        if i < p.len() - 1 {
            assert(walk_step(body, w, p[i], p[i + 1]));
            assert(q[i] == p[i] && q[i + 1] == p[i + 1]);
        } else {
            assert(q[i] == a && q[i + 1] == b);
        }
    }
    assert(is_walk(body, w, q));
    assert(q.first() == from && q.last() == b);
}

/// A location's statements from offset `s` on, and its terminator, are all
/// free of kills of `w`.
pub open spec fn seg_clear(body: FnBody, w: usize, b: int, s: int) -> bool {
    &&& forall |s2: int|
        s <= s2 < body.blocks[b].statements.len() ==> !spec_kills_borrow(
            #[trigger] body.blocks[b].statements[s2].kind,
            w,
        )
    &&& !spec_term_kills_borrow(body.blocks[b].terminator.kind, w)
}

/// When every visited entry point heads a kill-free segment whose
/// successors are all visited at offset 0, every location the walk can
/// reach lies at or after some visited entry point of its node.
proof fn lemma_walk_covered(
    body: FnBody,
    w: usize,
    visited: Seq<Seq<bool>>,
    start: LocationKey,
    p: Seq<LocationKey>,
    i: int,
)
    requires
        wf_body(body),
        visited.len() == body.blocks.len(),
        forall |b2: int|
            0 <= b2 < visited.len() ==> #[trigger] visited[b2].len()
                == body.blocks[b2].statements.len() + 1,
        start.block < body.blocks.len(),
        start.statement <= body.blocks[start.block as int].statements.len(),
        visited[start.block as int][start.statement as int],
        forall |b2: int, s2: int|
            0 <= b2 < visited.len() && 0 <= s2 < visited[b2].len() && #[trigger] visited[b2][s2]
                ==> seg_clear(body, w, b2, s2),
        forall |b2: int, s2: int, j: int|
            #![trigger visited[b2][s2], spec_node_targets(body, b2)[j]]
            0 <= b2 < visited.len() && 0 <= s2 < visited[b2].len() && visited[b2][s2] && 0 <= j
                < spec_node_targets(body, b2).len() ==> visited[spec_node_targets(
                body,
                b2,
            )[j] as int][0],
        is_walk(body, w, p),
        p.first() == start,
        0 <= i < p.len(),
    ensures
        p[i].block < body.blocks.len(),
        p[i].statement <= body.blocks[p[i].block as int].statements.len(),
        exists |s0: int| 0 <= s0 <= p[i].statement && #[trigger] visited[p[i].block as int][s0],
    decreases i,
{
    if i == 0 {
        assert(p[0] == start);
        assert(visited[p[0].block as int][p[0].statement as int]);
    } else {
        lemma_walk_covered(body, w, visited, start, p, i - 1);
        let a = p[i - 1];
        assert(walk_step(body, w, a, p[i]));
        let s0 = choose |s0: int| 0 <= s0 <= a.statement && #[trigger] visited[a.block as int][s0];
        if a.statement < body.blocks[a.block as int].statements.len() {
            assert(p[i].block == a.block);
            assert(p[i].statement == a.statement + 1);
            assert(visited[p[i].block as int][s0]);
        } else {
            assert(spec_node_targets(body, a.block as int).contains(p[i].block));
            let j = choose |j: int|
                0 <= j < spec_node_targets(body, a.block as int).len() && spec_node_targets(
                    body,
                    a.block as int,
                )[j] == p[i].block;
            assert(wf_node(body.blocks[a.block as int], body.blocks.len() as nat));
            assert(spec_targets(body.blocks[a.block as int].terminator.kind)[j]
                < body.blocks.len());
            assert(visited[p[i].block as int][0]);
        }
    }
}

/// Every visited entry point heads a kill-free segment and is itself
/// reachable by the walk from `start`.
pub open spec fn end_rows_ok(body: FnBody, w: usize, start: LocationKey, vv: Seq<Seq<bool>>) -> bool {
    forall |b2: int, s2: int|
        0 <= b2 < vv.len() && 0 <= s2 < vv[b2].len() && #[trigger] vv[b2][s2] ==> seg_clear(
            body,
            w,
            b2,
            s2,
        ) && walk_reachable(
            body,
            w,
            start,
            LocationKey { block: b2 as usize, statement: s2 as usize },
        )
}

/// Every successor of a visited entry point is visited at offset 0 or
/// still queued.
pub open spec fn end_succ_ok(body: FnBody, vv: Seq<Seq<bool>>, wl: Seq<LocationKey>) -> bool {
    forall |b2: int, s2: int, j: int|
        #![trigger vv[b2][s2], spec_node_targets(body, b2)[j]]
        0 <= b2 < vv.len() && 0 <= s2 < vv[b2].len() && vv[b2][s2] && 0 <= j < spec_node_targets(
            body,
            b2,
        ).len() ==> vv[spec_node_targets(body, b2)[j] as int][0] || wl.contains(
            LocationKey { block: spec_node_targets(body, b2)[j], statement: 0 },
        )
}

/// The start location is visited or still queued.
pub open spec fn end_seed_ok(start: LocationKey, vv: Seq<Seq<bool>>, wl: Seq<LocationKey>) -> bool {
    vv[start.block as int][start.statement as int] || wl.contains(start)
}

/// Popping an already-visited location preserves the search invariants.
proof fn lemma_end_search_skip(
    body: FnBody,
    vv: Seq<Seq<bool>>,
    entry_wl: Seq<LocationKey>,
    wl: Seq<LocationKey>,
    loc: LocationKey,
    start: LocationKey,
)
    requires
        vv.len() == body.blocks.len(),
        loc.block < vv.len(),
        loc.statement < vv[loc.block as int].len(),
        vv[loc.block as int][loc.statement as int],
        entry_wl == wl.push(loc),
        end_succ_ok(body, vv, entry_wl),
        end_seed_ok(start, vv, entry_wl),
    ensures
        end_succ_ok(body, vv, wl),
        end_seed_ok(start, vv, wl),
{
    assert forall |b2: int, s2: int, j: int|
        #![trigger vv[b2][s2], spec_node_targets(body, b2)[j]]
        0 <= b2 < vv.len() && 0 <= s2 < vv[b2].len() && vv[b2][s2] && 0 <= j < spec_node_targets(
            body,
            b2,
        ).len() implies vv[spec_node_targets(body, b2)[j] as int][0] || wl.contains(
        LocationKey { block: spec_node_targets(body, b2)[j], statement: 0 },
    ) by {
        let t = LocationKey { block: spec_node_targets(body, b2)[j], statement: 0 };
        if !vv[t.block as int][0] {
            assert(entry_wl.contains(t));
            let ix = choose |ix: int| 0 <= ix < entry_wl.len() && entry_wl[ix] == t;
            if ix == entry_wl.len() - 1 {
                assert(t == loc);
                assert(vv[t.block as int][0]);
            } else {
                assert(wl[ix] == t);
            }
        }
    }
    if !vv[start.block as int][start.statement as int] {
        assert(entry_wl.contains(start));
        let ix = choose |ix: int| 0 <= ix < entry_wl.len() && entry_wl[ix] == start;
        if ix == entry_wl.len() - 1 {
            assert(start == loc);
        } else {
            assert(wl[ix] == start);
        }
    }
}

/// Completing one entry point — marking it, finding its segment clear and
/// queueing all its successors — restores the search invariants.
proof fn lemma_end_search_process(
    body: FnBody,
    w: usize,
    start: LocationKey,
    pre_rows: Seq<Seq<bool>>,
    vv: Seq<Seq<bool>>,
    entry_wl: Seq<LocationKey>,
    pre_push_wl: Seq<LocationKey>,
    wl: Seq<LocationKey>,
    loc: LocationKey,
)
    requires
        wf_body(body),
        vv.len() == body.blocks.len(),
        pre_rows.len() == body.blocks.len(),
        forall |b2: int| 0 <= b2 < vv.len() ==> (#[trigger] vv[b2]).len() == pre_rows[b2].len(),
        forall |b2: int|
            0 <= b2 < vv.len() ==> (#[trigger] vv[b2]).len() == body.blocks[b2].statements.len()
                + 1,
        start.block < body.blocks.len(),
        start.statement <= body.blocks[start.block as int].statements.len(),
        loc.block < vv.len(),
        loc.statement < vv[loc.block as int].len(),
        forall |b2: int, s2: int|
            0 <= b2 < vv.len() && 0 <= s2 < vv[b2].len() ==> (#[trigger] vv[b2][s2]) == (
            pre_rows[b2][s2] || (b2 == loc.block && s2 == loc.statement)),
        entry_wl == pre_push_wl.push(loc),
        forall |x: LocationKey| #![trigger pre_push_wl.contains(x)] pre_push_wl.contains(x) ==> wl.contains(x),
        seg_clear(body, w, loc.block as int, loc.statement as int),
        walk_reachable(body, w, start, loc),
        forall |j: int|
            0 <= j < spec_node_targets(body, loc.block as int).len() ==> wl.contains(
                LocationKey {
                    block: #[trigger] spec_node_targets(body, loc.block as int)[j],
                    statement: 0,
                },
            ),
        end_rows_ok(body, w, start, pre_rows),
        end_succ_ok(body, pre_rows, entry_wl),
        end_seed_ok(start, pre_rows, entry_wl),
    ensures
        end_rows_ok(body, w, start, vv),
        end_succ_ok(body, vv, wl),
        end_seed_ok(start, vv, wl),
{
    assert forall |b2: int, s2: int|
        0 <= b2 < vv.len() && 0 <= s2 < vv[b2].len() && #[trigger] vv[b2][s2] implies seg_clear(
        body,
        w,
        b2,
        s2,
    ) && walk_reachable(
        body,
        w,
        start,
        LocationKey { block: b2 as usize, statement: s2 as usize },
    ) by {
        if !(b2 == loc.block && s2 == loc.statement) {
            assert(pre_rows[b2][s2]);
        }
    }
    assert forall |b2: int, s2: int, j: int|
        #![trigger vv[b2][s2], spec_node_targets(body, b2)[j]]
        0 <= b2 < vv.len() && 0 <= s2 < vv[b2].len() && vv[b2][s2] && 0 <= j < spec_node_targets(
            body,
            b2,
        ).len() implies vv[spec_node_targets(body, b2)[j] as int][0] || wl.contains(
        LocationKey { block: spec_node_targets(body, b2)[j], statement: 0 },
    ) by {
        let t = LocationKey { block: spec_node_targets(body, b2)[j], statement: 0 };
        assert(wf_node(body.blocks[b2], body.blocks.len() as nat));
        assert(spec_targets(body.blocks[b2].terminator.kind)[j] < body.blocks.len());
        if b2 == loc.block && s2 == loc.statement {
            assert(wl.contains(t));
        } else {
            assert(pre_rows[b2][s2]);
            if !vv[t.block as int][0] {
                assert(!pre_rows[t.block as int][0]);
                assert(entry_wl.contains(t));
                let ix = choose |ix: int| 0 <= ix < entry_wl.len() && entry_wl[ix] == t;
                if ix == entry_wl.len() - 1 {
                    assert(t == loc);
                    assert(vv[t.block as int][0]);
                } else {
                    assert(pre_push_wl[ix] == t);
                    assert(pre_push_wl.contains(t));
                    assert(wl.contains(t));
                }
            }
        }
    }
    if !vv[start.block as int][start.statement as int] {
        assert(!pre_rows[start.block as int][start.statement as int]);
        assert(entry_wl.contains(start));
        let ix = choose |ix: int| 0 <= ix < entry_wl.len() && entry_wl[ix] == start;
        if ix == entry_wl.len() - 1 {
            assert(start == loc);
            assert(vv[start.block as int][start.statement as int]);
        } else {
            assert(pre_push_wl[ix] == start);
            assert(pre_push_wl.contains(start));
            assert(wl.contains(start));
        }
    }
}

/// With the worklist drained — every visited entry point heads a clear
/// segment whose successors are visited — no location the walk can reach
/// is a kill point.
proof fn lemma_no_reachable_kill(body: FnBody, w: usize, vv: Seq<Seq<bool>>, start: LocationKey)
    requires
        wf_body(body),
        vv.len() == body.blocks.len(),
        forall |b2: int|
            0 <= b2 < vv.len() ==> #[trigger] vv[b2].len() == body.blocks[b2].statements.len()
                + 1,
        start.block < body.blocks.len(),
        start.statement <= body.blocks[start.block as int].statements.len(),
        vv[start.block as int][start.statement as int],
        forall |b2: int, s2: int|
            0 <= b2 < vv.len() && 0 <= s2 < vv[b2].len() && #[trigger] vv[b2][s2] ==> seg_clear(
                body,
                w,
                b2,
                s2,
            ),
        forall |b2: int, s2: int, j: int|
            #![trigger vv[b2][s2], spec_node_targets(body, b2)[j]]
            0 <= b2 < vv.len() && 0 <= s2 < vv[b2].len() && vv[b2][s2] && 0 <= j
                < spec_node_targets(body, b2).len() ==> vv[spec_node_targets(
                body,
                b2,
            )[j] as int][0],
    ensures
        forall |loc: LocationKey|
            walk_reachable(body, w, start, loc) ==> !spec_kill_point(body, loc, w),
{
    assert forall |loc: LocationKey|
        walk_reachable(body, w, start, loc) implies !spec_kill_point(body, loc, w) by {
        let p = choose |p: Seq<LocationKey>|
            #[trigger] is_walk(body, w, p) && p.first() == start && p.last() == loc;
        lemma_walk_covered(body, w, vv, start, p, p.len() - 1);
        let s0 = choose |s0: int| 0 <= s0 <= loc.statement && #[trigger] vv[loc.block as int][s0];
        assert(seg_clear(body, w, loc.block as int, s0));
        if loc.statement < body.blocks[loc.block as int].statements.len() {
            assert(!spec_kills_borrow(
                body.blocks[loc.block as int].statements[loc.statement as int].kind,
                w,
            ));
        }
    }
}

impl BorrowIndex {
    /// Find an end location for a borrow: the first kill point the forward
    /// walk from the creation location meets. A location is returned exactly
    /// when some kill point of the borrower is reachable by the kill-free
    /// forward walk, and any location returned is such a reachable kill
    /// point; an unknown borrow index yields nothing.
    #[verifier::rlimit(100)]
    pub fn find_borrow_end(&self, borrow_idx: usize, body: &FnBody) -> (r: Option<LocationKey>)
        requires
            wf_body(*body),
            sites_of(self.borrows@) == spec_borrow_sites(*body),
        ensures
            borrow_idx >= self.borrows@.len() ==> r is None,
            r matches Some(loc) ==> spec_kill_point(
                *body,
                loc,
                self.borrows@[borrow_idx as int].borrower_local,
            ) && walk_reachable(
                *body,
                self.borrows@[borrow_idx as int].borrower_local,
                self.borrows@[borrow_idx as int].start_location,
                loc,
            ),
            borrow_idx < self.borrows@.len() && r is None ==> forall |loc: LocationKey|
                walk_reachable(
                    *body,
                    self.borrows@[borrow_idx as int].borrower_local,
                    self.borrows@[borrow_idx as int].start_location,
                    loc,
                ) ==> !spec_kill_point(
                    *body,
                    loc,
                    self.borrows@[borrow_idx as int].borrower_local,
                ),
    {
        if borrow_idx >= self.borrows.len() {
            return None;
        }
        let borrow = self.borrows[borrow_idx];
        let w = borrow.borrower_local;
        let start = borrow.start_location;
        proof {
            lemma_sites_valid(*body, 0, 0);
            assert(sites_of(self.borrows@)[borrow_idx as int] == spec_borrow_sites(
                *body,
            )[borrow_idx as int]);
            assert(valid_site(*body, spec_borrow_sites(*body)[borrow_idx as int]));
        }
        let n = body.blocks.len();
        let mut visited: Vec<Vec<bool>> = Vec::new();
        let mut bi: usize = 0;
        while bi < n
            invariant
                bi <= n,
                n == body.blocks.len(),
                visited@.len() == bi,
                forall |b2: int|
                    0 <= b2 < bi ==> #[trigger] visited@[b2]@.len()
                        == body.blocks[b2].statements.len() + 1,
                forall |b2: int, s2: int|
                    0 <= b2 < bi && 0 <= s2 < visited@[b2]@.len() ==> !(#[trigger] visited@[b2]@[s2]),
            decreases n - bi,
        {
            let m = body.blocks[bi].statements.len();
            let mut row: Vec<bool> = Vec::new();
            let mut si: usize = 0;
            while si < m
                invariant
                    si <= m,
                    row@.len() == si,
                    forall |s2: int| 0 <= s2 < si ==> !(#[trigger] row@[s2]),
                decreases m - si,
            {
                row.push(false);
                si = si + 1;
            }
            row.push(false);
            visited.push(row);
            bi = bi + 1;
        }
        let mut worklist: Vec<LocationKey> = Vec::new();
        worklist.push(start);
        proof {
            lemma_walk_here(*body, w, start);
            assert(worklist@[0] == start);
            assert(worklist@.contains(start));
        }
        loop
            invariant
                n == body.blocks.len(),
                wf_body(*body),
                borrow_idx < self.borrows@.len(),
                w == self.borrows@[borrow_idx as int].borrower_local,
                start == self.borrows@[borrow_idx as int].start_location,
                start.block < n,
                start.statement <= body.blocks[start.block as int].statements.len(),
                visited@.len() == n,
                visited_view(visited).len() == n,
                forall |b2: int|
                    0 <= b2 < n ==> #[trigger] visited_view(visited)[b2].len()
                        == body.blocks[b2].statements.len() + 1,
                forall |i: int|
                    0 <= i < worklist@.len() ==> (#[trigger] worklist@[i]).block < n
                        && worklist@[i].statement
                        <= body.blocks[worklist@[i].block as int].statements.len(),
                forall |i: int|
                    0 <= i < worklist@.len() ==> walk_reachable(
                        *body,
                        w,
                        start,
                        #[trigger] worklist@[i],
                    ),
                end_rows_ok(*body, w, start, visited_view(visited)),
                end_succ_ok(*body, visited_view(visited), worklist@),
                end_seed_ok(start, visited_view(visited), worklist@),
            decreases count2_rows(visited_view(visited)), worklist@.len(),
        {
            let ghost entry_wl = worklist@;
            if worklist.len() == 0 {
                proof {
                    lemma_no_reachable_kill(*body, w, visited_view(visited), start);
                }
                return None;
            }
            let loc = worklist.pop().unwrap();
            proof {
                assert(entry_wl =~= worklist@.push(loc));
                assert(entry_wl[entry_wl.len() - 1] == loc);
                assert(walk_reachable(*body, w, start, loc));
            }
            let b = loc.block;
            let st = loc.statement;
            if visited[b][st] {
                proof {
                    assert(visited_view(visited)[b as int][st as int]);
                    lemma_end_search_skip(
                        *body,
                        visited_view(visited),
                        entry_wl,
                        worklist@,
                        loc,
                        start,
                    );
                }
                continue;
            }
            let ghost pre_rows = visited_view(visited);
            visited[b].set(st, true);
            proof {
                let row2 = visited_view(visited)[b as int];
                assert(row2 =~= pre_rows[b as int].update(st as int, true));
                crate::traversal::lemma_count_false_update(pre_rows[b as int], st as int);
                assert(visited_view(visited) =~= pre_rows.update(b as int, row2));
                lemma_count2_update(pre_rows, b as int, row2);
            }
            let len_b = body.blocks[b].statements.len();
            let mut cur = st;
            while cur < len_b
                invariant
                    st <= cur <= len_b,
                    b < n,
                    n == body.blocks.len(),
                    borrow_idx < self.borrows@.len(),
                    w == self.borrows@[borrow_idx as int].borrower_local,
                    start == self.borrows@[borrow_idx as int].start_location,
                    len_b == body.blocks[b as int].statements.len(),
                    walk_reachable(*body, w, start, LocationKey { block: b, statement: cur }),
                    forall |s2: int|
                        st <= s2 < cur ==> !spec_kills_borrow(
                            #[trigger] body.blocks[b as int].statements[s2].kind,
                            w,
                        ),
                decreases len_b - cur,
            {
                if kills_borrow(&body.blocks[b].statements[cur], w) {
                    return Some(LocationKey { block: b, statement: cur });
                }
                proof {
                    lemma_walk_extend(
                        *body,
                        w,
                        start,
                        LocationKey { block: b, statement: cur },
                        LocationKey { block: b, statement: (cur + 1) as usize },
                    );
                }
                cur = cur + 1;
            }
            if terminator_kills_borrow(&body.blocks[b].terminator, w) {
                return Some(LocationKey { block: b, statement: len_b });
            }
            assert(wf_node(body.blocks[b as int], n as nat));
            let ts = get_terminator_targets(&body.blocks[b].terminator);
            let m = ts.len();
            let ghost pre_push_wl = worklist@;
            let mut j: usize = 0;
            while j < m
                invariant
                    j <= m,
                    b < n,
                    n == body.blocks.len(),
                    wf_body(*body),
                    wf_node(body.blocks[b as int], n as nat),
                    borrow_idx < self.borrows@.len(),
                    w == self.borrows@[borrow_idx as int].borrower_local,
                    start == self.borrows@[borrow_idx as int].start_location,
                    ts@ == spec_node_targets(*body, b as int),
                    m == ts@.len(),
                    len_b == body.blocks[b as int].statements.len(),
                    walk_reachable(*body, w, start, LocationKey { block: b, statement: len_b }),
                    !spec_term_kills_borrow(body.blocks[b as int].terminator.kind, w),
                    forall |i: int|
                        0 <= i < worklist@.len() ==> (#[trigger] worklist@[i]).block < n
                            && worklist@[i].statement
                            <= body.blocks[worklist@[i].block as int].statements.len(),
                    forall |i: int|
                        0 <= i < worklist@.len() ==> walk_reachable(
                            *body,
                            w,
                            start,
                            #[trigger] worklist@[i],
                        ),
                    forall |x: LocationKey|
                        #![trigger pre_push_wl.contains(x)]
                        pre_push_wl.contains(x) ==> worklist@.contains(x),
                    forall |j2: int|
                        0 <= j2 < j ==> worklist@.contains(
                            LocationKey { block: #[trigger] ts@[j2], statement: 0 },
                        ),
                decreases m - j,
            {
                let t = ts[j];
                proof {
                    assert(spec_targets(body.blocks[b as int].terminator.kind)[j as int] < n);
                    assert(spec_node_targets(*body, b as int).contains(t)) by {
                        assert(ts@[j as int] == t);
                    }
                    lemma_walk_extend(
                        *body,
                        w,
                        start,
                        LocationKey { block: b, statement: len_b },
                        LocationKey { block: t, statement: 0 },
                    );
                }
                let ghost pre = worklist@;
                worklist.push(LocationKey { block: t, statement: 0 });
                proof {
                    assert forall |x: LocationKey| pre.contains(x) implies worklist@.contains(
                        x,
                    ) by {
                        let ix = choose |ix: int| 0 <= ix < pre.len() && pre[ix] == x;
                        assert(worklist@[ix] == x);
                    }
                    assert(worklist@[worklist@.len() - 1] == LocationKey {
                        block: t,
                        statement: 0,
                    });
                }
                j = j + 1;
            }
            proof {
                assert(seg_clear(*body, w, b as int, st as int));
                let vv = visited_view(visited);
                assert forall |b2: int, s2: int|
                    0 <= b2 < vv.len() && 0 <= s2 < vv[b2].len() implies (#[trigger] vv[b2][s2])
                    == (pre_rows[b2][s2] || (b2 == loc.block && s2 == loc.statement)) by {}
                lemma_end_search_process(
                    *body,
                    w,
                    start,
                    pre_rows,
                    vv,
                    entry_wl,
                    pre_push_wl,
                    worklist@,
                    loc,
                );
            }
        }
    }

    /// The source line range for a borrow: the first line of its creation
    /// span, and, where the traversal finds an end location with a
    /// resolvable span, the last line of that span — a reachable kill point
    /// of the borrower — else the start line again, never a guessed range.
    /// A borrow whose creation span does not resolve has no range.
    pub fn borrow_source_range(
        &self,
        borrow_idx: usize,
        body: &FnBody,
        span_index: &SpanIndex,
    ) -> (r: Option<(usize, usize)>)
        requires
            wf_body(*body),
            sites_of(self.borrows@) == spec_borrow_sites(*body),
        ensures
            borrow_idx >= self.borrows@.len() ==> r is None,
            borrow_idx < self.borrows@.len() ==> (r is Some) == (spec_span_lookup(
                span_index.by_id@,
                self.borrows@[borrow_idx as int].span_id,
            ) is Some),
            r matches Some(p) ==> spec_span_lookup(
                span_index.by_id@,
                self.borrows@[borrow_idx as int].span_id,
            ) matches Some(info) && p.0 == info.line_start,
            r matches Some(p) ==> p.1 == p.0 || exists |loc: LocationKey|
                {
                    &&& #[trigger] spec_kill_point(
                        *body,
                        loc,
                        self.borrows@[borrow_idx as int].borrower_local,
                    )
                    &&& walk_reachable(
                        *body,
                        self.borrows@[borrow_idx as int].borrower_local,
                        self.borrows@[borrow_idx as int].start_location,
                        loc,
                    )
                    &&& spec_span_lookup(span_index.by_id@, spec_end_span(*body, loc)) matches Some(
                        i,
                    ) && p.1 == i.line_end
                },
    {
        if borrow_idx >= self.borrows.len() {
            return None;
        }
        let start_line = match span_index.get(self.borrows[borrow_idx].span_id) {
            Some(info) => info.line_start,
            None => {
                return None;
            },
        };
        let end_line = match self.find_borrow_end(borrow_idx, body) {
            Some(loc) => {
                let node = &body.blocks[loc.block];
                let span_id = if loc.statement < node.statements.len() {
                    node.statements[loc.statement].span
                } else {
                    node.terminator.span
                };
                match span_index.get(span_id) {
                    Some(info) => Some(info.line_end),
                    None => None,
                }
            },
            None => None,
        };
        match end_line {
            Some(e) => Some((start_line, e)),
            None => Some((start_line, start_line)),
        }
    }
}

/// The display form `format_lifetime_range` owes: the borrow's tick label
/// with its line, line range, or open-ended start line.
pub open spec fn spec_fmt_lifetime_range(
    info: BorrowInfo,
    spans: Seq<(usize, SpanInfo)>,
    end_line: Option<usize>,
) -> Seq<char> {
    let start_line: usize = match spec_span_lookup(spans, info.span_id) {
        Some(si) => si.line_start,
        None => 0,
    };
    let head = "'b"@ + crate::text::dec_of(info.index as nat);
    match end_line {
        Some(end) => if start_line == end {
            head + ": line "@ + crate::text::dec_of(start_line as nat)
        } else {
            head + ": lines "@ + crate::text::dec_of(start_line as nat) + "-"@
                + crate::text::dec_of(end as nat)
        },
        None => head + ": from line "@ + crate::text::dec_of(start_line as nat),
    }
}

impl BorrowInfo {
    /// Format as a lifetime range annotation over source lines.
    pub fn format_lifetime_range(&self, span_index: &SpanIndex, end_line: Option<usize>) -> (r:
        String)
        ensures
            r@ == spec_fmt_lifetime_range(*self, span_index.by_id@, end_line),
    {
        let start_line: usize = match span_index.get(self.span_id) {
            Some(si) => si.line_start,
            None => 0,
        };
        let mut r = String::from_str("'b");
        let d = crate::text::usize_to_dec(self.index);
        r.append(d.as_str());
        match end_line {
            Some(end) => {
                if start_line == end {
                    r.append(": line ");
                    let l = crate::text::usize_to_dec(start_line);
                    r.append(l.as_str());
                } else {
                    r.append(": lines ");
                    let l = crate::text::usize_to_dec(start_line);
                    r.append(l.as_str());
                    r.append("-");
                    let e = crate::text::usize_to_dec(end);
                    r.append(e.as_str());
                }
            },
            None => {
                r.append(": from line ");
                let l = crate::text::usize_to_dec(start_line);
                r.append(l.as_str());
            },
        }
        proof {
            assert(r@ =~= spec_fmt_lifetime_range(*self, span_index.by_id@, end_line));
        }
        r
    }
}

} // verus!
