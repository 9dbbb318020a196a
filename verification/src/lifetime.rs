//! The lexical lifetime engine: pair each local variable's first scope-begin
//! marker with its last scope-end marker in program order (loops may emit
//! several pairs; first/last is the deliberate policy, giving the widest
//! encompassing range), and resolve the pair to a source range through the
//! span index when both spans resolve within one file.
use vstd::prelude::*;

use crate::borrow::LocationKey;
use crate::index::{SpanIndex, SpanInfo, spec_span_lookup};
use crate::ir::{FnBody, StmtKind};
use crate::text::{dec_of, str_eq, usize_to_dec};

verus! {

// =========================================================================
// Source ranges
// =========================================================================

/// Source range with line and column precision.
#[derive(Clone, Copy, PartialEq, Eq, Structural, Debug)]
pub struct SourceRange {
    pub start_line: usize,
    pub start_col: usize,
    pub end_line: usize,
    pub end_col: usize,
}

/// The compact display of a range: columns only for single-line ranges.
pub open spec fn spec_range_format(r: SourceRange) -> Seq<char> {
    if r.start_line == r.end_line {
        dec_of(r.start_line as nat) + ":"@ + dec_of(r.start_col as nat) + "-"@ + dec_of(
            r.end_col as nat,
        )
    } else {
        dec_of(r.start_line as nat) + "-"@ + dec_of(r.end_line as nat)
    }
}

/// The display of a range with a line prefix.
pub open spec fn spec_range_format_verbose(r: SourceRange) -> Seq<char> {
    if r.start_line == r.end_line {
        "line "@ + dec_of(r.start_line as nat) + ":"@ + dec_of(r.start_col as nat) + "-"@
            + dec_of(r.end_col as nat)
    } else {
        "lines "@ + dec_of(r.start_line as nat) + "-"@ + dec_of(r.end_line as nat)
    }
}

impl SourceRange {
    /// Format the range — show columns only for single-line ranges.
    pub fn format(&self) -> (r: String)
        ensures
            r@ == spec_range_format(*self),
    {
        if self.start_line == self.end_line {
            let mut s = usize_to_dec(self.start_line);
            s.append(":");
            let c0 = usize_to_dec(self.start_col);
            s.append(c0.as_str());
            s.append("-");
            let c1 = usize_to_dec(self.end_col);
            s.append(c1.as_str());
            proof {
                assert(s@ =~= spec_range_format(*self));
            }
            s
        } else {
            let mut s = usize_to_dec(self.start_line);
            s.append("-");
            let l1 = usize_to_dec(self.end_line);
            s.append(l1.as_str());
            proof {
                assert(s@ =~= spec_range_format(*self));
            }
            s
        }
    }

    /// Format with a "line(s)" prefix.
    pub fn format_verbose(&self) -> (r: String)
        ensures
            r@ == spec_range_format_verbose(*self),
    {
        if self.start_line == self.end_line {
            let mut s = String::from_str("line ");
            let l = usize_to_dec(self.start_line);
            s.append(l.as_str());
            s.append(":");
            let c0 = usize_to_dec(self.start_col);
            s.append(c0.as_str());
            s.append("-");
            let c1 = usize_to_dec(self.end_col);
            s.append(c1.as_str());
            proof {
                assert(s@ =~= spec_range_format_verbose(*self));
            }
            s
        } else {
            let mut s = String::from_str("lines ");
            let l0 = usize_to_dec(self.start_line);
            s.append(l0.as_str());
            s.append("-");
            let l1 = usize_to_dec(self.end_line);
            s.append(l1.as_str());
            proof {
                assert(s@ =~= spec_range_format_verbose(*self));
            }
            s
        }
    }
}

// =========================================================================
// Local lifetimes
// =========================================================================

/// Lifetime information for a local variable.
#[derive(Clone, Copy, PartialEq, Eq, Structural, Debug)]
pub struct LocalLifetime {
    /// Local index.
    pub local: usize,
    /// Where the first scope-begin marker sits (if any).
    pub storage_live: Option<LocationKey>,
    /// Where the last scope-end marker sits (if any).
    pub storage_dead: Option<LocationKey>,
    /// Source range if mappable.
    pub source_range: Option<SourceRange>,
}

/// The display form `format_range` owes: the resolved range where one is
/// known, the raw location pair where only the markers are known, and an
/// unknown tag otherwise.
pub open spec fn spec_lifetime_format(l: LocalLifetime) -> Seq<char> {
    let head = "'_"@ + dec_of(l.local as nat) + ": "@;
    match l.source_range {
        Some(range) => head + spec_range_format_verbose(range),
        None => match (l.storage_live, l.storage_dead) {
            (Some(live), Some(dead)) => head + "bb"@ + dec_of(live.block as nat) + "["@ + dec_of(
                live.statement as nat,
            ) + "] -> bb"@ + dec_of(dead.block as nat) + "["@ + dec_of(dead.statement as nat)
                + "]"@,
            _ => head + "<unknown>"@,
        },
    }
}

impl LocalLifetime {
    /// Check if source range info is available.
    pub fn has_source_info(&self) -> (r: bool)
        ensures
            r == (self.source_range is Some),
    {
        self.source_range.is_some()
    }

    /// Format as a lifetime annotation over the source, the marker pair, or
    /// an unknown tag.
    pub fn format_range(&self) -> (r: String)
        ensures
            r@ == spec_lifetime_format(*self),
    {
        let mut s = String::from_str("'_");
        let d = usize_to_dec(self.local);
        s.append(d.as_str());
        s.append(": ");
        match &self.source_range {
            Some(range) => {
                let v = range.format_verbose();
                s.append(v.as_str());
            },
            None => match (&self.storage_live, &self.storage_dead) {
                (Some(live), Some(dead)) => {
                    s.append("bb");
                    let b0 = usize_to_dec(live.block);
                    s.append(b0.as_str());
                    s.append("[");
                    let s0 = usize_to_dec(live.statement);
                    s.append(s0.as_str());
                    s.append("] -> bb");
                    let b1 = usize_to_dec(dead.block);
                    s.append(b1.as_str());
                    s.append("[");
                    let s1 = usize_to_dec(dead.statement);
                    s.append(s1.as_str());
                    s.append("]");
                },
                _ => {
                    s.append("<unknown>");
                },
            },
        }
        proof {
            assert(s@ =~= spec_lifetime_format(*self));
        }
        s
    }

    /// Get just the range portion without the lifetime name.
    pub fn range_str(&self) -> (r: String)
        ensures
            self.source_range matches Some(range) ==> r@ == spec_range_format(range),
            self.source_range is None ==> r@ == "<unknown>"@,
    {
        match &self.source_range {
            Some(range) => range.format(),
            None => String::from_str("<unknown>"),
        }
    }
}

// =========================================================================
// The lifetime index
// =========================================================================

/// A scope-begin marker for local `l` sits at `loc`.
pub open spec fn is_live_marker(body: FnBody, loc: LocationKey, l: usize) -> bool {
    &&& loc.block < body.blocks.len()
    &&& loc.statement < body.blocks[loc.block as int].statements.len()
    &&& body.blocks[loc.block as int].statements[loc.statement as int].kind == StmtKind::StorageLive(
        l,
    )
}

/// A scope-end marker for local `l` sits at `loc`.
pub open spec fn is_dead_marker(body: FnBody, loc: LocationKey, l: usize) -> bool {
    &&& loc.block < body.blocks.len()
    &&& loc.statement < body.blocks[loc.block as int].statements.len()
    &&& body.blocks[loc.block as int].statements[loc.statement as int].kind == StmtKind::StorageDead(
        l,
    )
}

/// Location `a` comes no later than `b` in program (scan) order.
pub open spec fn loc_le(a: LocationKey, b: LocationKey) -> bool {
    a.block < b.block || (a.block == b.block && a.statement <= b.statement)
}

/// Location `loc` comes strictly before position (b, s) in scan order.
pub open spec fn pos_lt(loc: LocationKey, b: int, s: int) -> bool {
    loc.block < b || (loc.block == b && loc.statement < s)
}

/// The entry for local `l` carries its first scope-begin marker, among the
/// markers strictly before position (b, s).
pub open spec fn live_inv(body: FnBody, e: LocalLifetime, l: usize, b: int, s: int) -> bool {
    match e.storage_live {
        Some(loc) => is_live_marker(body, loc, l) && pos_lt(loc, b, s) && (forall |loc2:
            LocationKey|
            is_live_marker(body, loc2, l) && pos_lt(loc2, b, s) ==> loc_le(loc, loc2)),
        None => forall |loc2: LocationKey| is_live_marker(body, loc2, l) ==> !pos_lt(loc2, b, s),
    }
}

/// The entry for local `l` carries its last scope-end marker, among the
/// markers strictly before position (b, s).
pub open spec fn dead_inv(body: FnBody, e: LocalLifetime, l: usize, b: int, s: int) -> bool {
    match e.storage_dead {
        Some(loc) => is_dead_marker(body, loc, l) && pos_lt(loc, b, s) && (forall |loc2:
            LocationKey|
            is_dead_marker(body, loc2, l) && pos_lt(loc2, b, s) ==> loc_le(loc2, loc)),
        None => forall |loc2: LocationKey| is_dead_marker(body, loc2, l) ==> !pos_lt(loc2, b, s),
    }
}

/// Every marker location lies before the end of the body.
pub open spec fn past_end(body: FnBody, loc: LocationKey) -> bool {
    pos_lt(loc, body.blocks.len() as int, 0)
}

/// The span ID of the statement at `loc`.
pub open spec fn spec_loc_span(body: FnBody, loc: LocationKey) -> usize {
    body.blocks[loc.block as int].statements[loc.statement as int].span
}

/// The source range the marker pair resolves to: both markers known, both
/// spans resolved, and both in the same file.
pub open spec fn spec_range_of(
    body: FnBody,
    spans: Seq<(usize, SpanInfo)>,
    live: Option<LocationKey>,
    dead: Option<LocationKey>,
) -> Option<SourceRange> {
    match (live, dead) {
        (Some(a), Some(b)) => match (
            spec_span_lookup(spans, spec_loc_span(body, a)),
            spec_span_lookup(spans, spec_loc_span(body, b)),
        ) {
            (Some(i1), Some(i2)) => if i1.file@ == i2.file@ {
                Some(
                    SourceRange {
                        start_line: i1.line_start,
                        start_col: i1.col_start,
                        end_line: i2.line_end,
                        end_col: i2.col_end,
                    },
                )
            } else {
                None
            },
            _ => None,
        },
        _ => None,
    }
}

/// Index for tracking variable lexical lifetimes, dense by local index.
pub struct LifetimeIndex {
    /// Lifetime info for each local, at its local index.
    pub locals: Vec<LocalLifetime>,
}

/// The lifetimes that carry a resolved source range, in local order.
pub open spec fn spec_with_ranges(ls: Seq<LocalLifetime>) -> Seq<LocalLifetime>
    decreases ls.len(),
{
    if ls.len() == 0 {
        Seq::empty()
    } else {
        spec_with_ranges(ls.drop_last()) + (if ls.last().source_range is Some {
            seq![ls.last()]
        } else {
            Seq::empty()
        })
    }
}

impl LifetimeIndex {
    /// An empty index.
    pub fn new() -> (r: LifetimeIndex)
        ensures
            r.locals@.len() == 0,
    {
        LifetimeIndex { locals: Vec::new() }
    }

    /// Build the lifetime index from a function body: scan for the first
    /// scope-begin and the last scope-end marker of each declared local, and
    /// resolve each complete pair to a source range through the span index.
    pub fn from_body(body: &FnBody, span_index: &SpanIndex) -> (r: LifetimeIndex)
        ensures
            r.locals@.len() == body.locals@.len(),
            forall |l: int| 0 <= l < r.locals@.len() ==> (#[trigger] r.locals@[l]).local == l,
            forall |l: int|
                0 <= l < r.locals@.len() ==> live_inv(
                    *body,
                    #[trigger] r.locals@[l],
                    l as usize,
                    body.blocks.len() as int,
                    0,
                ),
            forall |l: int|
                0 <= l < r.locals@.len() ==> dead_inv(
                    *body,
                    #[trigger] r.locals@[l],
                    l as usize,
                    body.blocks.len() as int,
                    0,
                ),
            forall |l: int|
                0 <= l < r.locals@.len() ==> (#[trigger] r.locals@[l]).source_range
                    == spec_range_of(
                    *body,
                    span_index.by_id@,
                    r.locals@[l].storage_live,
                    r.locals@[l].storage_dead,
                ),
    {
        let nl = body.locals.len();
        let mut entries: Vec<LocalLifetime> = Vec::new();
        let mut li: usize = 0;
        while li < nl
            invariant
                li <= nl,
                entries@.len() == li,
                forall |l: int|
                    0 <= l < li ==> #[trigger] entries@[l] == (LocalLifetime {
                        local: l as usize,
                        storage_live: None,
                        storage_dead: None,
                        source_range: None,
                    }),
            decreases nl - li,
        {
            entries.push(
                LocalLifetime {
                    local: li,
                    storage_live: None,
                    storage_dead: None,
                    source_range: None,
                },
            );
            li = li + 1;
        }
        let n = body.blocks.len();
        let mut b: usize = 0;
        while b < n
            invariant
                b <= n,
                n == body.blocks.len(),
                nl == body.locals@.len(),
                entries@.len() == nl,
                forall |l: int| 0 <= l < nl ==> (#[trigger] entries@[l]).local == l,
                forall |l: int|
                    0 <= l < nl ==> (#[trigger] entries@[l]).source_range is None,
                forall |l: int|
                    0 <= l < nl ==> live_inv(*body, #[trigger] entries@[l], l as usize, b as int, 0),
                forall |l: int|
                    0 <= l < nl ==> dead_inv(*body, #[trigger] entries@[l], l as usize, b as int, 0),
            decreases n - b,
        {
            let m = body.blocks[b].statements.len();
            let mut s: usize = 0;
            while s < m
                invariant
                    s <= m,
                    b < n,
                    n == body.blocks.len(),
                    nl == body.locals@.len(),
                    m == body.blocks@[b as int].statements.len(),
                    entries@.len() == nl,
                    forall |l: int| 0 <= l < nl ==> (#[trigger] entries@[l]).local == l,
                    forall |l: int|
                        0 <= l < nl ==> (#[trigger] entries@[l]).source_range is None,
                    forall |l: int|
                        0 <= l < nl ==> live_inv(
                            *body,
                            #[trigger] entries@[l],
                            l as usize,
                            b as int,
                            s as int,
                        ),
                    forall |l: int|
                        0 <= l < nl ==> dead_inv(
                            *body,
                            #[trigger] entries@[l],
                            l as usize,
                            b as int,
                            s as int,
                        ),
                decreases m - s,
            {
                let ghost pre = entries@;
                let loc = LocationKey { block: b, statement: s };
                match &body.blocks[b].statements[s].kind {
                    StmtKind::StorageLive(l) => {
                        let l = *l;
                        if l < nl {
                            if entries[l].storage_live.is_none() {
                                let mut e = entries[l];
                                e.storage_live = Some(loc);
                                entries.set(l, e);
                            }
                        }
                    },
                    StmtKind::StorageDead(l) => {
                        let l = *l;
                        if l < nl {
                            let mut e = entries[l];
                            e.storage_dead = Some(loc);
                            entries.set(l, e);
                        }
                    },
                    _ => {},
                }
                proof {
                    let st = body.blocks@[b as int].statements[s as int];
                    assert forall |l: int| 0 <= l < nl implies live_inv(
                        *body,
                        #[trigger] entries@[l],
                        l as usize,
                        b as int,
                        s + 1,
                    ) && dead_inv(*body, entries@[l], l as usize, b as int, s + 1) by {
                        assert(forall |loc2: LocationKey|
                            pos_lt(loc2, b as int, s + 1) ==> pos_lt(loc2, b as int, s as int)
                                || loc2 == loc);
                        match entries@[l].storage_live {
                            Some(ml) => {
                                if pre[l].storage_live is None {
                                    assert(entries@[l].storage_live == Some(loc));
                                    assert(is_live_marker(*body, loc, l as usize));
                                } else {
                                    assert(entries@[l].storage_live == pre[l].storage_live);
                                    assert(live_inv(*body, pre[l], l as usize, b as int, s as int));
                                }
                            },
                            None => {
                                assert(pre[l].storage_live is None);
                                if is_live_marker(*body, loc, l as usize) {
                                    assert(st.kind == StmtKind::StorageLive(l as usize));
                                    assert(false);
                                }
                            },
                        }
                        match entries@[l].storage_dead {
                            Some(md) => {
                                if st.kind == StmtKind::StorageDead(l as usize) {
                                    assert(entries@[l].storage_dead == Some(loc));
                                } else {
                                    assert(entries@[l].storage_dead == pre[l].storage_dead);
                                }
                            },
                            None => {
                                assert(pre[l].storage_dead is None);
                                if is_dead_marker(*body, loc, l as usize) {
                                    assert(false);
                                }
                            },
                        }
                    }
                }
                s = s + 1;
            }
            proof {
                assert forall |l: int| 0 <= l < nl implies live_inv(
                    *body,
                    #[trigger] entries@[l],
                    l as usize,
                    b + 1,
                    0,
                ) && dead_inv(*body, entries@[l], l as usize, b + 1, 0) by {
                    assert(forall |loc2: LocationKey|
                        is_live_marker(*body, loc2, l as usize) ==> (pos_lt(loc2, b + 1, 0)
                            == pos_lt(loc2, b as int, m as int)));
                    assert(forall |loc2: LocationKey|
                        is_dead_marker(*body, loc2, l as usize) ==> (pos_lt(loc2, b + 1, 0)
                            == pos_lt(loc2, b as int, m as int)));
                }
            }
            b = b + 1;
        }
        // Resolve each complete marker pair to a source range.
        let mut li2: usize = 0;
        while li2 < nl
            invariant
                li2 <= nl,
                n == body.blocks.len(),
                nl == body.locals@.len(),
                entries@.len() == nl,
                forall |l: int| 0 <= l < nl ==> (#[trigger] entries@[l]).local == l,
                forall |l: int|
                    0 <= l < nl ==> live_inv(*body, #[trigger] entries@[l], l as usize, n as int, 0),
                forall |l: int|
                    0 <= l < nl ==> dead_inv(*body, #[trigger] entries@[l], l as usize, n as int, 0),
                forall |l: int|
                    li2 <= l < nl ==> (#[trigger] entries@[l]).source_range is None,
                forall |l: int|
                    0 <= l < li2 ==> (#[trigger] entries@[l]).source_range == spec_range_of(
                        *body,
                        span_index.by_id@,
                        entries@[l].storage_live,
                        entries@[l].storage_dead,
                    ),
            decreases nl - li2,
        {
            let e = entries[li2];
            let range: Option<SourceRange> = match (&e.storage_live, &e.storage_dead) {
                (Some(a), Some(d)) => {
                    proof {
                        assert(live_inv(*body, entries@[li2 as int], li2, n as int, 0));
                        assert(dead_inv(*body, entries@[li2 as int], li2, n as int, 0));
                    }
                    let sa = body.blocks[a.block].statements[a.statement].span;
                    let sd = body.blocks[d.block].statements[d.statement].span;
                    match (span_index.get(sa), span_index.get(sd)) {
                        (Some(i1), Some(i2)) => {
                            if str_eq(i1.file.as_str(), i2.file.as_str()) {
                                Some(
                                    SourceRange {
                                        start_line: i1.line_start,
                                        start_col: i1.col_start,
                                        end_line: i2.line_end,
                                        end_col: i2.col_end,
                                    },
                                )
                            } else {
                                None
                            }
                        },
                        _ => None,
                    }
                },
                _ => None,
            };
            let mut e2 = e;
            e2.source_range = range;
            entries.set(li2, e2);
            li2 = li2 + 1;
        }
        LifetimeIndex { locals: entries }
    }

    /// Get lifetime info for a local.
    pub fn get(&self, local: usize) -> (r: Option<&LocalLifetime>)
        ensures
            (r is Some) == (local < self.locals@.len()),
            r matches Some(v) ==> *v == self.locals@[local as int],
    {
        if local < self.locals.len() {
            Some(&self.locals[local])
        } else {
            None
        }
    }

    /// The stored lifetimes, in local order.
    pub fn iter(&self) -> (r: &Vec<LocalLifetime>)
        ensures
            r@ == self.locals@,
    {
        &self.locals
    }

    /// Get the lifetimes with known source ranges, in local order: with the
    /// index dense (entry `l` describes local `l`, as `from_body` builds it),
    /// the result is strictly ascending by local index.
    pub fn with_source_ranges(&self) -> (r: Vec<LocalLifetime>)
        requires
            forall |l: int| 0 <= l < self.locals@.len() ==> (#[trigger] self.locals@[l]).local == l,
        ensures
            r@ == spec_with_ranges(self.locals@),
            forall |i: int, j: int| 0 <= i < j < r@.len() ==> r@[i].local < r@[j].local,
    {
        let n = self.locals.len();
        let mut r: Vec<LocalLifetime> = Vec::new();
        let mut i: usize = 0;
        proof {
            assert(self.locals@.take(0) =~= Seq::<LocalLifetime>::empty());
        }
        while i < n
            invariant
                i <= n,
                n == self.locals@.len(),
                forall |l: int|
                    0 <= l < self.locals@.len() ==> (#[trigger] self.locals@[l]).local == l,
                r@ == spec_with_ranges(self.locals@.take(i as int)),
                forall |m: int| 0 <= m < r@.len() ==> (#[trigger] r@[m]).local < i,
                forall |m1: int, m2: int| 0 <= m1 < m2 < r@.len() ==> r@[m1].local < r@[m2].local,
            decreases n - i,
        {
            proof {
                assert(self.locals@.take(i + 1).drop_last() =~= self.locals@.take(i as int));
                assert(self.locals@.take(i + 1).last() == self.locals@[i as int]);
            }
            if self.locals[i].source_range.is_some() {
                r.push(self.locals[i]);
                proof {
                    assert(r@ =~= spec_with_ranges(self.locals@.take(i + 1)));
                }
            } else {
                proof {
                    assert(r@ =~= spec_with_ranges(self.locals@.take(i + 1)));
                }
            }
            i = i + 1;
        }
        proof {
            assert(self.locals@.take(n as int) =~= self.locals@);
        }
        r
    }
}

} // verus!
