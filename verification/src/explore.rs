//! The interactive explorer's data model: per-function blocks with rendered
//! statements and terminators, typed outgoing edges, predecessor lists, and
//! a locally inferred block role — the structured data any interactive UI
//! layer consumes.
use vstd::prelude::*;

use crate::ir::{FnBody, Operand, StmtKind, Term, TermKind, UnwindInfo};
use crate::render::{
    call_name_of, extract_call_name, operand_str, place_str, render_operand, render_place,
    render_rvalue, rvalue_note, rvalue_str, annotate_rvalue, short_fn_name, short_name_of,
};
use crate::text::{dec_of, has_substring, str_contains, u128_to_dec, u64_to_dec, usize_to_dec};

verus! {

// =========================================================================
// Model types
// =========================================================================

/// The kind of an outgoing edge.
#[derive(Clone, Copy, PartialEq, Eq, Structural, Debug)]
pub enum EdgeKind {
    Normal,
    Cleanup,
    Otherwise,
    Branch,
}

/// The locally inferred role of an explorer block.
#[derive(Clone, Copy, PartialEq, Eq, Structural, Debug)]
pub enum ExplorerRole {
    Entry,
    Exit,
    BranchPoint,
    MergePoint,
    Linear,
    Cleanup,
}

/// The shape tag of a terminator, as the wire format names it.
#[derive(Clone, Copy, PartialEq, Eq, Structural, Debug)]
pub enum TermTag {
    Goto,
    Return,
    Unreachable,
    Switch,
    Call,
    Assert,
    Drop,
    Resume,
    Abort,
    Other,
}

/// One outgoing edge of a block: the target, a value label, the edge kind
/// and a reading aid.
#[derive(Clone)]
pub struct ExplorerEdge {
    pub target: usize,
    pub label: String,
    pub kind: EdgeKind,
    pub annotation: String,
}

/// One rendered statement.
#[derive(Clone)]
pub struct ExplorerStmt {
    pub mir: String,
    pub annotation: String,
}

/// One rendered terminator with its outgoing edges.
#[derive(Clone)]
pub struct ExplorerTerminator {
    pub kind: TermTag,
    pub mir: String,
    pub annotation: String,
    pub edges: Vec<ExplorerEdge>,
}

/// One explorer block.
#[derive(Clone)]
pub struct ExplorerBlock {
    pub id: usize,
    pub statements: Vec<ExplorerStmt>,
    pub terminator: ExplorerTerminator,
    pub predecessors: Vec<usize>,
    pub role: ExplorerRole,
    pub summary: String,
}

/// One explorable function.
#[derive(Clone)]
pub struct ExplorerFunction {
    pub name: String,
    pub short_name: String,
    pub blocks: Vec<ExplorerBlock>,
    /// Type descriptions for each local.
    pub locals: Vec<String>,
    pub entry_block: usize,
}

/// Complete data for the explorer.
#[derive(Clone)]
pub struct ExplorerData {
    pub name: String,
    pub functions: Vec<ExplorerFunction>,
}

/// One input item: a named function with its optional body.
#[derive(Clone)]
pub struct IrItem {
    pub name: String,
    pub body: Option<FnBody>,
}

// =========================================================================
// Terminator building
// =========================================================================

/// The view of an edge: target, label, kind, annotation.
pub open spec fn edge_view(e: ExplorerEdge) -> (usize, Seq<char>, EdgeKind, Seq<char>) {
    (e.target, e.label@, e.kind, e.annotation@)
}

pub open spec fn edge_views(es: Seq<ExplorerEdge>) -> Seq<(usize, Seq<char>, EdgeKind, Seq<char>)> {
    es.map_values(|e: ExplorerEdge| edge_view(e))
}

/// The shape tag a terminator earns.
pub open spec fn spec_term_tag(k: TermKind) -> TermTag {
    match k {
        TermKind::Goto { .. } => TermTag::Goto,
        TermKind::Return => TermTag::Return,
        TermKind::Unreachable => TermTag::Unreachable,
        TermKind::SwitchInt { .. } => TermTag::Switch,
        TermKind::Call { .. } => TermTag::Call,
        TermKind::Assert { .. } => TermTag::Assert,
        TermKind::Drop { .. } => TermTag::Drop,
        TermKind::Resume => TermTag::Resume,
        TermKind::Abort => TermTag::Abort,
        TermKind::InlineAsm { .. } => TermTag::Other,
    }
}

/// The wire name of a shape tag.
pub open spec fn spec_tag_str(t: TermTag) -> Seq<char> {
    match t {
        TermTag::Goto => "goto"@,
        TermTag::Return => "return"@,
        TermTag::Unreachable => "unreachable"@,
        TermTag::Switch => "switch"@,
        TermTag::Call => "call"@,
        TermTag::Assert => "assert"@,
        TermTag::Drop => "drop"@,
        TermTag::Resume => "resume"@,
        TermTag::Abort => "abort"@,
        TermTag::Other => "other"@,
    }
}

impl TermTag {
    /// The wire name of the tag.
    pub fn as_str(&self) -> (r: &'static str)
        ensures
            r@ == spec_tag_str(*self),
    {
        match self {
            TermTag::Goto => "goto",
            TermTag::Return => "return",
            TermTag::Unreachable => "unreachable",
            TermTag::Switch => "switch",
            TermTag::Call => "call",
            TermTag::Assert => "assert",
            TermTag::Drop => "drop",
            TermTag::Resume => "resume",
            TermTag::Abort => "abort",
            TermTag::Other => "other",
        }
    }
}

/// The argument list of a call, comma-joined.
pub open spec fn spec_args_str(args: Seq<Operand>) -> Seq<char> {
    crate::index::join_comma(args.map_values(|o: Operand| operand_str(o)))
}

/// The rendered instruction of a terminator.
pub open spec fn spec_term_mir(k: TermKind) -> Seq<char> {
    match k {
        TermKind::Goto { target } => "goto bb"@ + dec_of(target as nat),
        TermKind::Return => "return"@,
        TermKind::Unreachable => "unreachable"@,
        TermKind::SwitchInt { discr, targets: _ } => "switchInt("@ + operand_str(discr) + ")"@,
        TermKind::Call { func, args, destination, target: _, unwind: _ } => place_str(destination)
            + " = "@ + call_name_of(func) + "("@ + spec_args_str(args@) + ")"@,
        TermKind::Assert { cond, expected, target: _, unwind: _ } => "assert("@ + operand_str(
            cond,
        ) + " == "@ + (if expected { "true"@ } else { "false"@ }) + ")"@,
        TermKind::Drop { place, target: _, unwind: _ } => "drop("@ + place_str(place) + ")"@,
        TermKind::Resume => "resume"@,
        TermKind::Abort => "abort"@,
        TermKind::InlineAsm { .. } => "inline_asm"@,
    }
}

/// The reading aid of a terminator.
pub open spec fn spec_term_note(k: TermKind, current_fn: Seq<char>) -> Seq<char> {
    match k {
        TermKind::Goto { .. } => "Continue to next block"@,
        TermKind::Return => "Return from function"@,
        TermKind::Unreachable => "Unreachable code (compiler optimization)"@,
        TermKind::SwitchInt { discr, targets: _ } => "Branch based on value of "@ + operand_str(
            discr,
        ),
        TermKind::Call { func, .. } => if call_name_of(func) == current_fn {
            "RECURSIVE call to "@ + call_name_of(func)
        } else {
            "Call "@ + call_name_of(func)
        },
        TermKind::Assert { cond, expected, .. } => if expected {
            "Panic if "@ + operand_str(cond) + " is false"@
        } else {
            "Panic if "@ + operand_str(cond) + " is true"@
        },
        TermKind::Drop { place, .. } => "Drop "@ + place_str(place),
        TermKind::Resume => "Resume unwinding (propagate panic)"@,
        TermKind::Abort => "Abort the program"@,
        TermKind::InlineAsm { .. } => ""@,
    }
}

/// The edges of a switch: one value-labelled branch per table entry.
pub open spec fn spec_switch_edges(discr: Operand, branches: Seq<(u128, usize)>) -> Seq<
    (usize, Seq<char>, EdgeKind, Seq<char>),
> {
    branches.map_values(
        |p: (u128, usize)|
            (
                p.1,
                dec_of(p.0 as nat),
                EdgeKind::Branch,
                "If "@ + operand_str(discr) + " == "@ + dec_of(p.0 as nat),
            ),
    )
}

/// The outgoing edges a terminator owes the explorer.
pub open spec fn spec_term_edges(k: TermKind, current_fn: Seq<char>) -> Seq<
    (usize, Seq<char>, EdgeKind, Seq<char>),
> {
    match k {
        TermKind::Goto { target } => seq![(target, ""@, EdgeKind::Normal, "Continue"@)],
        TermKind::Return => Seq::empty(),
        TermKind::Unreachable => Seq::empty(),
        TermKind::SwitchInt { discr, targets } => spec_switch_edges(discr, targets.branches@).push(
            (targets.otherwise, "else"@, EdgeKind::Otherwise, "Otherwise (no match)"@),
        ),
        TermKind::Call { func, args: _, destination: _, target, unwind } => (match target {
            Some(t) => seq![
                (t, "return"@, EdgeKind::Normal, "After "@ + call_name_of(func) + " returns"@),
            ],
            None => Seq::empty(),
        }) + (match unwind {
            UnwindInfo::Cleanup(t) => seq![
                (t, "unwind"@, EdgeKind::Cleanup, "If call panics (cleanup)"@),
            ],
            _ => Seq::empty(),
        }),
        TermKind::Assert { cond: _, expected: _, target, unwind } => seq![
            (target, "ok"@, EdgeKind::Normal, "Assertion passed"@),
        ] + (match unwind {
            UnwindInfo::Cleanup(t) => seq![
                (t, "panic"@, EdgeKind::Cleanup, "Assertion failed (panic)"@),
            ],
            _ => Seq::empty(),
        }),
        TermKind::Drop { place: _, target, unwind } => seq![
            (target, ""@, EdgeKind::Normal, "After drop completes"@),
        ] + (match unwind {
            UnwindInfo::Cleanup(t) => seq![(t, "unwind"@, EdgeKind::Cleanup, "If drop panics"@)],
            _ => Seq::empty(),
        }),
        TermKind::Resume => Seq::empty(),
        TermKind::Abort => Seq::empty(),
        TermKind::InlineAsm { .. } => Seq::empty(),
    }
}

/// The terminator record carries exactly the owed tag, instruction,
/// annotation and edges.
pub open spec fn term_built_from(r: ExplorerTerminator, k: TermKind, current_fn: Seq<char>) -> bool {
    &&& r.kind == spec_term_tag(k)
    &&& r.mir@ == spec_term_mir(k)
    &&& r.annotation@ == spec_term_note(k, current_fn)
    &&& edge_views(r.edges@) == spec_term_edges(k, current_fn)
}

/// Build the explorer view of one terminator: its shape tag, its rendered
/// instruction, a reading aid (recursion into the current function is called
/// out), and one typed edge per successor — value branches before the
/// fallthrough, normal continuations before unwind edges.
pub fn build_explorer_terminator(term: &Term, current_fn: &str) -> (r: ExplorerTerminator)
    ensures
        term_built_from(r, term.kind, current_fn@),
{
    match &term.kind {
        TermKind::Goto { target } => {
            let mut mir = String::from_str("goto bb");
            let d = usize_to_dec(*target);
            mir.append(d.as_str());
            let mut edges: Vec<ExplorerEdge> = Vec::new();
            let label = String::new();
            proof {
                reveal_strlit("");
                assert(label@ =~= ""@);
            }
            edges.push(
                ExplorerEdge {
                    target: *target,
                    label,
                    kind: EdgeKind::Normal,
                    annotation: String::from_str("Continue"),
                },
            );
            let r = ExplorerTerminator {
                kind: TermTag::Goto,
                mir,
                annotation: String::from_str("Continue to next block"),
                edges,
            };
            proof {
                reveal_strlit("");
                assert(r.mir@ =~= spec_term_mir(term.kind));
                assert(edge_views(r.edges@) =~= spec_term_edges(term.kind, current_fn@));
            }
            r
        },
        TermKind::Return => {
            let r = ExplorerTerminator {
                kind: TermTag::Return,
                mir: String::from_str("return"),
                annotation: String::from_str("Return from function"),
                edges: Vec::new(),
            };
            proof {
                assert(edge_views(r.edges@) =~= spec_term_edges(term.kind, current_fn@));
            }
            r
        },
        TermKind::Unreachable => {
            let r = ExplorerTerminator {
                kind: TermTag::Unreachable,
                mir: String::from_str("unreachable"),
                annotation: String::from_str("Unreachable code (compiler optimization)"),
                edges: Vec::new(),
            };
            proof {
                assert(edge_views(r.edges@) =~= spec_term_edges(term.kind, current_fn@));
            }
            r
        },
        TermKind::SwitchInt { discr, targets } => {
            let discr_str = render_operand(discr);
            let mut mir = String::from_str("switchInt(");
            mir.append(discr_str.as_str());
            mir.append(")");
            let mut annotation = String::from_str("Branch based on value of ");
            annotation.append(discr_str.as_str());
            let mut edges: Vec<ExplorerEdge> = Vec::new();
            let m = targets.branches.len();
            let mut i: usize = 0;
            proof {
                assert(targets.branches@.take(0) =~= Seq::<(u128, usize)>::empty());
                assert(edge_views(edges@) =~= spec_switch_edges(
                    *discr,
                    targets.branches@.take(0),
                ));
            }
            while i < m
                invariant
                    i <= m,
                    m == targets.branches@.len(),
                    discr_str@ == operand_str(*discr),
                    edge_views(edges@) == spec_switch_edges(*discr, targets.branches@.take(i as int)),
                decreases m - i,
            {
                let val = targets.branches[i].0;
                let t = targets.branches[i].1;
                let vd = u128_to_dec(val);
                let mut note = String::from_str("If ");
                note.append(discr_str.as_str());
                note.append(" == ");
                note.append(vd.as_str());
                proof {
                    assert(note@ =~= "If "@ + operand_str(*discr) + " == "@ + dec_of(
                        targets.branches@[i as int].0 as nat,
                    ));
                }
                let ghost prev_edges = edges@;
                edges.push(
                    ExplorerEdge {
                        target: t,
                        label: vd,
                        kind: EdgeKind::Branch,
                        annotation: note,
                    },
                );
                proof {
                    let g = |p: (u128, usize)|
                        (
                            p.1,
                            dec_of(p.0 as nat),
                            EdgeKind::Branch,
                            "If "@ + operand_str(*discr) + " == "@ + dec_of(p.0 as nat),
                        );
                    let brs = targets.branches@;
                    assert(brs.take(i + 1).drop_last() =~= brs.take(i as int));
                    assert(brs.take(i + 1).last() == brs[i as int]);
                    assert(edge_views(edges@) =~= edge_views(prev_edges).push(
                        edge_view(edges@[edges@.len() - 1]),
                    ));
                    assert(edge_view(edges@[edges@.len() - 1]) == g(brs[i as int]));
                    assert(spec_switch_edges(*discr, brs.take(i + 1)) =~= spec_switch_edges(
                        *discr,
                        brs.take(i as int),
                    ).push(g(brs[i as int])));
                    assert(edge_views(edges@) =~= spec_switch_edges(*discr, brs.take(i + 1)));
                }
                i = i + 1;
            }
            edges.push(
                ExplorerEdge {
                    target: targets.otherwise,
                    label: String::from_str("else"),
                    kind: EdgeKind::Otherwise,
                    annotation: String::from_str("Otherwise (no match)"),
                },
            );
            let r = ExplorerTerminator { kind: TermTag::Switch, mir, annotation, edges };
            proof {
                assert(targets.branches@.take(m as int) =~= targets.branches@);
                assert(r.mir@ =~= spec_term_mir(term.kind));
                assert(r.annotation@ =~= spec_term_note(term.kind, current_fn@));
                assert(edge_views(r.edges@) =~= spec_term_edges(term.kind, current_fn@));
            }
            r
        },
        TermKind::Call { func, args, destination, target, unwind } => {
            let func_name = extract_call_name(func);
            let dest = render_place(destination);
            let mut mir = dest;
            mir.append(" = ");
            mir.append(func_name.as_str());
            mir.append("(");
            let args_str = render_args_pub(args);
            mir.append(args_str.as_str());
            mir.append(")");
            let is_recursive = crate::text::str_eq(func_name.as_str(), current_fn);
            let mut annotation = if is_recursive {
                String::from_str("RECURSIVE call to ")
            } else {
                String::from_str("Call ")
            };
            annotation.append(func_name.as_str());
            let mut edges: Vec<ExplorerEdge> = Vec::new();
            if let Some(t) = target {
                let mut note = String::from_str("After ");
                note.append(func_name.as_str());
                note.append(" returns");
                proof {
                    assert(note@ =~= "After "@ + call_name_of(*func) + " returns"@);
                }
                edges.push(
                    ExplorerEdge {
                        target: *t,
                        label: String::from_str("return"),
                        kind: EdgeKind::Normal,
                        annotation: note,
                    },
                );
            }
            if let UnwindInfo::Cleanup(t) = unwind {
                edges.push(
                    ExplorerEdge {
                        target: *t,
                        label: String::from_str("unwind"),
                        kind: EdgeKind::Cleanup,
                        annotation: String::from_str("If call panics (cleanup)"),
                    },
                );
            }
            let r = ExplorerTerminator { kind: TermTag::Call, mir, annotation, edges };
            proof {
                assert(r.mir@ =~= spec_term_mir(term.kind));
                assert(r.annotation@ =~= spec_term_note(term.kind, current_fn@));
                assert(edge_views(r.edges@) =~= spec_term_edges(term.kind, current_fn@));
            }
            r
        },
        TermKind::Assert { cond, expected, target, unwind } => {
            let cond_str = render_operand(cond);
            let mut mir = String::from_str("assert(");
            mir.append(cond_str.as_str());
            mir.append(" == ");
            mir.append(if *expected { "true" } else { "false" });
            mir.append(")");
            let mut annotation = String::from_str("Panic if ");
            annotation.append(cond_str.as_str());
            annotation.append(if *expected { " is false" } else { " is true" });
            let mut edges: Vec<ExplorerEdge> = Vec::new();
            edges.push(
                ExplorerEdge {
                    target: *target,
                    label: String::from_str("ok"),
                    kind: EdgeKind::Normal,
                    annotation: String::from_str("Assertion passed"),
                },
            );
            if let UnwindInfo::Cleanup(t) = unwind {
                edges.push(
                    ExplorerEdge {
                        target: *t,
                        label: String::from_str("panic"),
                        kind: EdgeKind::Cleanup,
                        annotation: String::from_str("Assertion failed (panic)"),
                    },
                );
            }
            let r = ExplorerTerminator { kind: TermTag::Assert, mir, annotation, edges };
            proof {
                assert(r.mir@ =~= spec_term_mir(term.kind));
                assert(r.annotation@ =~= spec_term_note(term.kind, current_fn@));
                assert(edge_views(r.edges@) =~= spec_term_edges(term.kind, current_fn@));
            }
            r
        },
        TermKind::Drop { place, target, unwind } => {
            let place_s = render_place(place);
            let mut mir = String::from_str("drop(");
            mir.append(place_s.as_str());
            mir.append(")");
            let mut annotation = String::from_str("Drop ");
            annotation.append(place_s.as_str());
            let mut edges: Vec<ExplorerEdge> = Vec::new();
            let label = String::new();
            proof {
                reveal_strlit("");
                assert(label@ =~= ""@);
            }
            edges.push(
                ExplorerEdge {
                    target: *target,
                    label,
                    kind: EdgeKind::Normal,
                    annotation: String::from_str("After drop completes"),
                },
            );
            if let UnwindInfo::Cleanup(t) = unwind {
                edges.push(
                    ExplorerEdge {
                        target: *t,
                        label: String::from_str("unwind"),
                        kind: EdgeKind::Cleanup,
                        annotation: String::from_str("If drop panics"),
                    },
                );
            }
            let r = ExplorerTerminator { kind: TermTag::Drop, mir, annotation, edges };
            proof {
                reveal_strlit("");
                assert(r.mir@ =~= spec_term_mir(term.kind));
                assert(r.annotation@ =~= spec_term_note(term.kind, current_fn@));
                assert(edge_views(r.edges@) =~= spec_term_edges(term.kind, current_fn@));
            }
            r
        },
        TermKind::Resume => {
            let r = ExplorerTerminator {
                kind: TermTag::Resume,
                mir: String::from_str("resume"),
                annotation: String::from_str("Resume unwinding (propagate panic)"),
                edges: Vec::new(),
            };
            proof {
                assert(edge_views(r.edges@) =~= spec_term_edges(term.kind, current_fn@));
            }
            r
        },
        TermKind::Abort => {
            let r = ExplorerTerminator {
                kind: TermTag::Abort,
                mir: String::from_str("abort"),
                annotation: String::from_str("Abort the program"),
                edges: Vec::new(),
            };
            proof {
                assert(edge_views(r.edges@) =~= spec_term_edges(term.kind, current_fn@));
            }
            r
        },
        TermKind::InlineAsm { .. } => {
            let r = ExplorerTerminator {
                kind: TermTag::Other,
                mir: String::from_str("inline_asm"),
                annotation: String::new(),
                edges: Vec::new(),
            };
            proof {
                reveal_strlit("");
                assert(r.annotation@ =~= ""@);
                assert(edge_views(r.edges@) =~= spec_term_edges(term.kind, current_fn@));
            }
            r
        },
    }
}

/// Render the comma-joined argument list of a call.
pub fn render_args_pub(args: &Vec<Operand>) -> (r: String)
    ensures
        r@ == spec_args_str(args@),
{
    let mut r = String::new();
    let n = args.len();
    let mut i: usize = 0;
    let ghost f = |o: Operand| operand_str(o);
    proof {
        assert(args@.take(0).map_values(f) =~= Seq::<Seq<char>>::empty());
        assert(r@ =~= crate::index::join_comma(args@.take(0).map_values(f)));
    }
    while i < n
        invariant
            i <= n,
            n == args@.len(),
            f == (|o: Operand| operand_str(o)),
            r@ == crate::index::join_comma(args@.take(i as int).map_values(f)),
        decreases n - i,
    {
        let part = render_operand(&args[i]);
        if i > 0 {
            r.append(", ");
        }
        r.append(part.as_str());
        proof {
            let prev = args@.take(i as int).map_values(f);
            let now = args@.take(i + 1).map_values(f);
            assert(now.drop_last() =~= prev);
            assert(now.last() == f(args@[i as int]));
            if i == 0 {
                assert(crate::index::join_comma(now) == now[0]);
            } else {
                assert(crate::index::join_comma(now) == crate::index::join_comma(prev) + ", "@
                    + now.last());
            }
            assert(r@ =~= crate::index::join_comma(now));
        }
        i = i + 1;
    }
    proof {
        assert(args@.take(n as int) =~= args@);
        assert(args@.take(n as int).map_values(f) =~= args@.map_values(f));
    }
    r
}


// =========================================================================
// Statement building
// =========================================================================

/// The rendered instruction of a statement.
pub open spec fn spec_stmt_mir(k: StmtKind) -> Seq<char> {
    match k {
        StmtKind::Assign(place, rv) => place_str(place) + " = "@ + rvalue_str(rv),
        StmtKind::SetDiscriminant { place, variant_index } => "discr("@ + place_str(place)
            + ") = "@ + dec_of(variant_index as nat),
        StmtKind::StorageLive(l) => "StorageLive(_"@ + dec_of(l as nat) + ")"@,
        StmtKind::StorageDead(l) => "StorageDead(_"@ + dec_of(l as nat) + ")"@,
        StmtKind::Retag(p) => "retag("@ + place_str(p) + ")"@,
        StmtKind::FakeRead(p) => "FakeRead("@ + place_str(p) + ")"@,
        StmtKind::PlaceMention(p) => "PlaceMention("@ + place_str(p) + ")"@,
        StmtKind::Nop => "nop"@,
    }
}

/// The reading aid of a statement.
pub open spec fn spec_stmt_note(k: StmtKind) -> Seq<char> {
    match k {
        StmtKind::Assign(_, rv) => rvalue_note(rv),
        StmtKind::SetDiscriminant { .. } => "Set enum discriminant"@,
        StmtKind::StorageLive(l) => "Allocate stack space for _"@ + dec_of(l as nat),
        StmtKind::StorageDead(l) => "Deallocate stack space for _"@ + dec_of(l as nat),
        StmtKind::Retag(_) => "Stacked borrows retag"@,
        StmtKind::FakeRead(_) => "Compiler hint for borrow checker"@,
        StmtKind::PlaceMention(_) => "Compiler hint for borrow checker"@,
        StmtKind::Nop => "No operation"@,
    }
}

/// A statement record carries its owed instruction and annotation.
pub open spec fn stmt_built_from(r: ExplorerStmt, k: StmtKind) -> bool {
    &&& r.mir@ == spec_stmt_mir(k)
    &&& r.annotation@ == spec_stmt_note(k)
}

/// Build the explorer view of one statement.
pub fn build_explorer_stmt(stmt: &crate::ir::Stmt) -> (r: ExplorerStmt)
    ensures
        stmt_built_from(r, stmt.kind),
{
    match &stmt.kind {
        StmtKind::Assign(place, rv) => {
            let mut mir = render_place(place);
            mir.append(" = ");
            let rvs = render_rvalue(rv);
            mir.append(rvs.as_str());
            let r = ExplorerStmt { mir, annotation: annotate_rvalue(rv) };
            proof {
                assert(r.mir@ =~= spec_stmt_mir(stmt.kind));
            }
            r
        },
        StmtKind::SetDiscriminant { place, variant_index } => {
            let mut mir = String::from_str("discr(");
            let pl = render_place(place);
            mir.append(pl.as_str());
            mir.append(") = ");
            let d = usize_to_dec(*variant_index);
            mir.append(d.as_str());
            let r = ExplorerStmt { mir, annotation: String::from_str("Set enum discriminant") };
            proof {
                assert(r.mir@ =~= spec_stmt_mir(stmt.kind));
            }
            r
        },
        StmtKind::StorageLive(l) => {
            let d = usize_to_dec(*l);
            let mut mir = String::from_str("StorageLive(_");
            mir.append(d.as_str());
            mir.append(")");
            let mut note = String::from_str("Allocate stack space for _");
            note.append(d.as_str());
            let r = ExplorerStmt { mir, annotation: note };
            proof {
                assert(r.mir@ =~= spec_stmt_mir(stmt.kind));
                assert(r.annotation@ =~= spec_stmt_note(stmt.kind));
            }
            r
        },
        StmtKind::StorageDead(l) => {
            let d = usize_to_dec(*l);
            let mut mir = String::from_str("StorageDead(_");
            mir.append(d.as_str());
            mir.append(")");
            let mut note = String::from_str("Deallocate stack space for _");
            note.append(d.as_str());
            let r = ExplorerStmt { mir, annotation: note };
            proof {
                assert(r.mir@ =~= spec_stmt_mir(stmt.kind));
                assert(r.annotation@ =~= spec_stmt_note(stmt.kind));
            }
            r
        },
        StmtKind::Retag(p) => {
            let mut mir = String::from_str("retag(");
            let pl = render_place(p);
            mir.append(pl.as_str());
            mir.append(")");
            let r = ExplorerStmt { mir, annotation: String::from_str("Stacked borrows retag") };
            proof {
                assert(r.mir@ =~= spec_stmt_mir(stmt.kind));
            }
            r
        },
        StmtKind::FakeRead(p) => {
            let mut mir = String::from_str("FakeRead(");
            let pl = render_place(p);
            mir.append(pl.as_str());
            mir.append(")");
            let r = ExplorerStmt {
                mir,
                annotation: String::from_str("Compiler hint for borrow checker"),
            };
            proof {
                assert(r.mir@ =~= spec_stmt_mir(stmt.kind));
            }
            r
        },
        StmtKind::PlaceMention(p) => {
            let mut mir = String::from_str("PlaceMention(");
            let pl = render_place(p);
            mir.append(pl.as_str());
            mir.append(")");
            let r = ExplorerStmt {
                mir,
                annotation: String::from_str("Compiler hint for borrow checker"),
            };
            proof {
                assert(r.mir@ =~= spec_stmt_mir(stmt.kind));
            }
            r
        },
        StmtKind::Nop => ExplorerStmt {
            mir: String::from_str("nop"),
            annotation: String::from_str("No operation"),
        },
    }
}

// =========================================================================
// Roles and summaries
// =========================================================================

/// The role a block earns from its in and out degree and its terminator's
/// shape alone: the entry block, an exit (return or unreachable), a branch
/// point (several ways out), a merge point (several ways in), or a linear
/// block. The Cleanup role is not decided here: it belongs to the nodes
/// other blocks unwind into, inverted over the whole function.
pub open spec fn spec_compute_role(
    id: usize,
    in_count: int,
    out_count: int,
    tag: TermTag,
) -> ExplorerRole {
    if id == 0 {
        ExplorerRole::Entry
    } else if tag == TermTag::Return || tag == TermTag::Unreachable {
        ExplorerRole::Exit
    } else if out_count > 1 {
        ExplorerRole::BranchPoint
    } else if in_count > 1 {
        ExplorerRole::MergePoint
    } else {
        ExplorerRole::Linear
    }
}

/// Compute the shape role of a block from its in and out degree and its
/// terminator's shape.
pub fn compute_block_role(
    id: usize,
    predecessors: &Vec<usize>,
    terminator: &ExplorerTerminator,
    _total_blocks: usize,
) -> (r: ExplorerRole)
    ensures
        r == spec_compute_role(
            id,
            predecessors@.len() as int,
            terminator.edges@.len() as int,
            terminator.kind,
        ),
{
    let in_count = predecessors.len();
    let out_count = terminator.edges.len();
    if id == 0 {
        ExplorerRole::Entry
    } else if matches!(terminator.kind, TermTag::Return) || matches!(
        terminator.kind,
        TermTag::Unreachable,
    ) {
        ExplorerRole::Exit
    } else if out_count > 1 {
        ExplorerRole::BranchPoint
    } else if in_count > 1 {
        ExplorerRole::MergePoint
    } else {
        ExplorerRole::Linear
    }
}

/// Mark every node that is the target of an unwind edge, skipping targets
/// outside the node range.
fn mark_unwind_targets(body: &FnBody) -> (r: Vec<bool>)
    ensures
        r@.len() == body.blocks.len(),
        forall |t: int|
            0 <= t < r@.len() ==> r@[t] == crate::traversal::spec_is_cleanup_target(
                *body,
                t as usize,
            ),
{
    let n = body.blocks.len();
    let mut r: Vec<bool> = Vec::new();
    let mut k: usize = 0;
    while k < n
        invariant
            k <= n,
            r@.len() == k,
            forall |v: int| 0 <= v < k ==> !r@[v],
        decreases n - k,
    {
        r.push(false);
        k = k + 1;
    }
    let mut b: usize = 0;
    while b < n
        invariant
            b <= n,
            n == body.blocks.len(),
            r@.len() == n,
            forall |t: int|
                0 <= t < n ==> r@[t] == exists |b2: int|
                    0 <= b2 < b && crate::traversal::spec_cleanup_unwind(
                        #[trigger] body.blocks[b2].terminator.kind,
                    ) == Some(t as usize),
        decreases n - b,
    {
        let ghost prev = r@;
        match crate::traversal::cleanup_unwind(&body.blocks[b].terminator) {
            Some(t) => {
                if t < n {
                    r.set(t, true);
                }
                proof {
                    assert forall |t2: int| 0 <= t2 < n implies r@[t2] == exists |b2: int|
                        0 <= b2 < b + 1 && crate::traversal::spec_cleanup_unwind(
                            #[trigger] body.blocks[b2].terminator.kind,
                        ) == Some(t2 as usize) by {
                        if t2 == t as int {
                            assert(crate::traversal::spec_cleanup_unwind(
                                body.blocks[b as int].terminator.kind,
                            ) == Some(t2 as usize));
                        } else {
                            assert(r@[t2] == prev[t2]);
                        }
                    }
                }
            },
            None => {
                proof {
                    assert forall |t2: int| 0 <= t2 < n implies r@[t2] == exists |b2: int|
                        0 <= b2 < b + 1 && crate::traversal::spec_cleanup_unwind(
                            #[trigger] body.blocks[b2].terminator.kind,
                        ) == Some(t2 as usize) by {
                        assert(crate::traversal::spec_cleanup_unwind(
                            body.blocks[b as int].terminator.kind,
                        ) is None);
                    }
                }
            },
        }
        b = b + 1;
    }
    r
}

/// The one-line summary a block owes for its role.
pub open spec fn spec_block_summary(b: ExplorerBlock) -> Seq<char> {
    match b.role {
        ExplorerRole::Entry => "Entry point"@,
        ExplorerRole::Exit => if b.terminator.kind == TermTag::Return {
            "Function returns"@
        } else {
            "Unreachable code"@
        },
        ExplorerRole::BranchPoint => "Branches: "@ + b.terminator.annotation@,
        ExplorerRole::MergePoint => "Merge point ("@ + dec_of(b.predecessors@.len())
            + " incoming paths)"@,
        ExplorerRole::Cleanup => "Cleanup/unwind handler"@,
        ExplorerRole::Linear => if b.statements@.len() > 0 {
            b.statements@[0].annotation@
        } else {
            b.terminator.annotation@
        },
    }
}

/// Produce the one-line summary of a block.
pub fn block_summary(block: &ExplorerBlock) -> (r: String)
    ensures
        r@ == spec_block_summary(*block),
{
    match block.role {
        ExplorerRole::Entry => String::from_str("Entry point"),
        ExplorerRole::Exit => {
            if matches!(block.terminator.kind, TermTag::Return) {
                String::from_str("Function returns")
            } else {
                String::from_str("Unreachable code")
            }
        },
        ExplorerRole::BranchPoint => {
            let mut r = String::from_str("Branches: ");
            r.append(block.terminator.annotation.as_str());
            proof {
                assert(r@ =~= spec_block_summary(*block));
            }
            r
        },
        ExplorerRole::MergePoint => {
            let mut r = String::from_str("Merge point (");
            let d = usize_to_dec(block.predecessors.len());
            r.append(d.as_str());
            r.append(" incoming paths)");
            proof {
                assert(r@ =~= spec_block_summary(*block));
            }
            r
        },
        ExplorerRole::Cleanup => String::from_str("Cleanup/unwind handler"),
        ExplorerRole::Linear => {
            if block.statements.len() > 0 {
                block.statements[0].annotation.clone()
            } else {
                block.terminator.annotation.clone()
            }
        },
    }
}

// =========================================================================
// Blocks and functions
// =========================================================================

/// A freshly built block: rendered statements and terminator, with the
/// predecessor list, role and summary still to be filled in.
pub open spec fn block_built_from(
    r: ExplorerBlock,
    id: usize,
    node: crate::ir::CfgNode,
    fname: Seq<char>,
) -> bool {
    &&& r.id == id
    &&& r.statements@.len() == node.statements@.len()
    &&& forall |i: int|
        0 <= i < r.statements@.len() ==> stmt_built_from(
            #[trigger] r.statements@[i],
            node.statements@[i].kind,
        )
    &&& term_built_from(r.terminator, node.terminator.kind, fname)
}

fn build_explorer_block(id: usize, node: &crate::ir::CfgNode, current_fn: &str) -> (r:
    ExplorerBlock)
    ensures
        block_built_from(r, id, *node, current_fn@),
        r.predecessors@.len() == 0,
        r.role == ExplorerRole::Linear,
        r.summary@.len() == 0,
{
    let n = node.statements.len();
    let mut statements: Vec<ExplorerStmt> = Vec::new();
    let mut i: usize = 0;
    while i < n
        invariant
            i <= n,
            n == node.statements@.len(),
            statements@.len() == i,
            forall |k: int|
                0 <= k < i ==> stmt_built_from(
                    #[trigger] statements@[k],
                    node.statements@[k].kind,
                ),
        decreases n - i,
    {
        statements.push(build_explorer_stmt(&node.statements[i]));
        i = i + 1;
    }
    let terminator = build_explorer_terminator(&node.terminator, current_fn);
    ExplorerBlock {
        id,
        statements,
        terminator,
        predecessors: Vec::new(),
        role: ExplorerRole::Linear,
        summary: String::new(),
    }
}

/// The targets of a block's explorer edges.
pub open spec fn spec_edge_targets(body: FnBody, fname: Seq<char>, j: int) -> Seq<usize> {
    spec_term_edges(body.blocks[j].terminator.kind, fname).map_values(
        |t: (usize, Seq<char>, EdgeKind, Seq<char>)| t.0,
    )
}

/// The predecessors block `j` contributes to block `i`: one entry per edge
/// of `j` aimed at `i` that stays inside the block range.
pub open spec fn spec_pred_contrib(j: usize, targets: Seq<usize>, i: usize, nblocks: int) -> Seq<
    usize,
>
    decreases targets.len(),
{
    if targets.len() == 0 {
        Seq::empty()
    } else {
        spec_pred_contrib(j, targets.drop_last(), i, nblocks) + (if targets.last() == i
            && targets.last() < nblocks {
            seq![j]
        } else {
            Seq::empty()
        })
    }
}

/// The predecessors of block `i` contributed by blocks before `upto`.
pub open spec fn spec_preds_upto(body: FnBody, fname: Seq<char>, i: usize, upto: int) -> Seq<usize>
    decreases upto,
{
    if upto <= 0 {
        Seq::empty()
    } else {
        spec_preds_upto(body, fname, i, upto - 1) + spec_pred_contrib(
            (upto - 1) as usize,
            spec_edge_targets(body, fname, upto - 1),
            i,
            body.blocks.len() as int,
        )
    }
}

/// The predecessor list of block `i`: contributing blocks in order, one
/// entry per in-range edge aimed at `i`.
pub open spec fn spec_preds(body: FnBody, fname: Seq<char>, i: usize) -> Seq<usize> {
    spec_preds_upto(body, fname, i, body.blocks.len() as int)
}

/// The role block `i` earns inside its function, with the precedence
/// Entry > Cleanup > shape: a block some other block unwinds into is a
/// cleanup handler, whatever its own terminator looks like.
pub open spec fn spec_fn_role(body: FnBody, fname: Seq<char>, i: int) -> ExplorerRole {
    if i == 0 {
        ExplorerRole::Entry
    } else if crate::traversal::spec_is_cleanup_target(body, i as usize) {
        ExplorerRole::Cleanup
    } else {
        spec_compute_role(
            i as usize,
            spec_preds(body, fname, i as usize).len() as int,
            spec_term_edges(body.blocks[i].terminator.kind, fname).len() as int,
            spec_term_tag(body.blocks[i].terminator.kind),
        )
    }
}

/// The display line of one local declaration.
pub open spec fn spec_local_str(i: int, ty: u64) -> Seq<char> {
    "_"@ + dec_of(i as nat) + ": "@ + crate::render::ty_tag(ty)
}

/// An explorer function faithfully presents one function body: every block
/// rendered, predecessor lists inverted from the edges, roles inferred and
/// summaries filled, with node 0 as the entry block.
pub open spec fn fn_built_from(f: ExplorerFunction, name: Seq<char>, body: FnBody) -> bool {
    &&& f.name@ == name
    &&& f.short_name@ == short_name_of(name)
    &&& f.entry_block == 0
    &&& f.locals@.len() == body.locals@.len()
    &&& forall |i: int|
        0 <= i < f.locals@.len() ==> (#[trigger] f.locals@[i])@ == spec_local_str(
            i,
            body.locals@[i].ty,
        )
    &&& f.blocks@.len() == body.blocks.len()
    &&& forall |i: int|
        0 <= i < f.blocks@.len() ==> block_built_from(
            #[trigger] f.blocks@[i],
            i as usize,
            body.blocks[i],
            short_name_of(name),
        )
    &&& forall |i: int|
        0 <= i < f.blocks@.len() ==> (#[trigger] f.blocks@[i]).predecessors@ == spec_preds(
            body,
            short_name_of(name),
            i as usize,
        )
    &&& forall |i: int|
        0 <= i < f.blocks@.len() ==> (#[trigger] f.blocks@[i]).role == spec_fn_role(
            body,
            short_name_of(name),
            i,
        )
    &&& forall |i: int|
        0 <= i < f.blocks@.len() ==> (#[trigger] f.blocks@[i]).summary@ == spec_block_summary(
            f.blocks@[i],
        )
}

/// Build the explorer view of one function: render every block, invert the
/// edges into predecessor lists, classify every block and summarize it.
pub fn build_explorer_function(name: &str, body: &FnBody) -> (r: ExplorerFunction)
    ensures
        fn_built_from(r, name@, *body),
{
    let short_name = short_fn_name(name);
    let n = body.blocks.len();
    let mut protos: Vec<ExplorerBlock> = Vec::new();
    let mut i: usize = 0;
    while i < n
        invariant
            i <= n,
            n == body.blocks.len(),
            short_name@ == short_name_of(name@),
            protos@.len() == i,
            forall |k: int|
                0 <= k < i ==> block_built_from(
                    #[trigger] protos@[k],
                    k as usize,
                    body.blocks[k],
                    short_name_of(name@),
                ),
        decreases n - i,
    {
        protos.push(build_explorer_block(i, &body.blocks[i], short_name.as_str()));
        i = i + 1;
    }
    // Invert the edge relation into predecessor lists.
    let mut preds: Vec<Vec<usize>> = Vec::new();
    let mut k: usize = 0;
    while k < n
        invariant
            k <= n,
            preds@.len() == k,
            forall |t: int| 0 <= t < k ==> (#[trigger] preds@[t]@).len() == 0,
        decreases n - k,
    {
        preds.push(Vec::new());
        k = k + 1;
    }
    let ghost fname = short_name_of(name@);
    let mut j: usize = 0;
    proof {
        assert forall |t: int| 0 <= t < n implies #[trigger] preds@[t]@ =~= spec_preds_upto(
            *body,
            fname,
            t as usize,
            0,
        ) by {}
    }
    while j < n
        invariant
            j <= n,
            n == body.blocks.len(),
            preds@.len() == n,
            protos@.len() == n,
            forall |k2: int|
                0 <= k2 < n ==> block_built_from(
                    #[trigger] protos@[k2],
                    k2 as usize,
                    body.blocks[k2],
                    fname,
                ),
            forall |t: int|
                0 <= t < n ==> #[trigger] preds@[t]@ == spec_preds_upto(
                    *body,
                    fname,
                    t as usize,
                    j as int,
                ),
        decreases n - j,
    {
        let m = protos[j].terminator.edges.len();
        let mut e: usize = 0;
        let ghost ets = spec_edge_targets(*body, fname, j as int);
        proof {
            assert(edge_views(protos@[j as int].terminator.edges@) == spec_term_edges(
                body.blocks[j as int].terminator.kind,
                fname,
            ));
            assert forall |x: int| 0 <= x < m implies #[trigger] ets[x]
                == protos@[j as int].terminator.edges@[x].target by {
                assert(edge_views(protos@[j as int].terminator.edges@)[x] == edge_view(
                    protos@[j as int].terminator.edges@[x],
                ));
            }
            assert forall |t: int| 0 <= t < n implies #[trigger] preds@[t]@ == spec_preds_upto(
                *body,
                fname,
                t as usize,
                j as int,
            ) + spec_pred_contrib(j, ets.take(0), t as usize, n as int) by {
                assert(ets.take(0) =~= Seq::<usize>::empty());
                assert(spec_pred_contrib(j, ets.take(0), t as usize, n as int) =~= Seq::<
                    usize,
                >::empty());
                assert(preds@[t]@ =~= preds@[t]@ + Seq::<usize>::empty());
            }
        }
        while e < m
            invariant
                e <= m,
                j < n,
                n == body.blocks.len(),
                preds@.len() == n,
                protos@.len() == n,
                m == protos@[j as int].terminator.edges@.len(),
                ets == spec_edge_targets(*body, fname, j as int),
                ets.len() == m,
                forall |x: int|
                    0 <= x < m ==> #[trigger] ets[x]
                        == protos@[j as int].terminator.edges@[x].target,
                forall |t: int|
                    0 <= t < n ==> #[trigger] preds@[t]@ == spec_preds_upto(
                        *body,
                        fname,
                        t as usize,
                        j as int,
                    ) + spec_pred_contrib(j, ets.take(e as int), t as usize, n as int),
            decreases m - e,
        {
            let target = protos[j].terminator.edges[e].target;
            let ghost pre_preds = preds@;
            if target < n {
                preds[target].push(j);
            }
            proof {
                assert(ets.take(e + 1).drop_last() =~= ets.take(e as int));
                assert(ets.take(e + 1).last() == ets[e as int]);
                assert(ets[e as int] == target);
                assert forall |t: int| 0 <= t < n implies #[trigger] preds@[t]@
                    == spec_preds_upto(*body, fname, t as usize, j as int) + spec_pred_contrib(
                    j,
                    ets.take(e + 1),
                    t as usize,
                    n as int,
                ) by {
                    if target < n && t == target as int {
                        assert(preds@[t]@ =~= pre_preds[t]@.push(j));
                        assert(spec_pred_contrib(j, ets.take(e + 1), t as usize, n as int)
                            =~= spec_pred_contrib(j, ets.take(e as int), t as usize, n as int)
                            + seq![j]);
                        assert(preds@[t]@ =~= spec_preds_upto(*body, fname, t as usize, j as int)
                            + spec_pred_contrib(j, ets.take(e + 1), t as usize, n as int));
                    } else {
                        assert(preds@[t] == pre_preds[t]);
                        assert(spec_pred_contrib(j, ets.take(e + 1), t as usize, n as int)
                            =~= spec_pred_contrib(j, ets.take(e as int), t as usize, n as int));
                    }
                }
            }
            e = e + 1;
        }
        proof {
            assert forall |t: int| 0 <= t < n implies #[trigger] preds@[t]@ == spec_preds_upto(
                *body,
                fname,
                t as usize,
                j + 1,
            ) by {
                assert(ets.take(m as int) =~= ets);
                assert(preds@[t]@ == spec_preds_upto(*body, fname, t as usize, j as int)
                    + spec_pred_contrib(j, ets, t as usize, n as int));
            }
        }
        j = j + 1;
    }
    // Assemble: attach predecessors, role and summary to each block; a
    // block some other block unwinds into is a cleanup handler.
    let cleanups = mark_unwind_targets(body);
    let mut blocks: Vec<ExplorerBlock> = Vec::new();
    let ghost all_protos = protos@;
    let mut i2: usize = 0;
    while i2 < n
        invariant
            i2 <= n,
            n == body.blocks.len(),
            preds@.len() == n,
            cleanups@.len() == n,
            forall |t: int|
                0 <= t < n ==> cleanups@[t] == crate::traversal::spec_is_cleanup_target(
                    *body,
                    t as usize,
                ),
            protos@ == all_protos.skip(i2 as int),
            all_protos.len() == n,
            forall |k2: int|
                0 <= k2 < n ==> block_built_from(
                    #[trigger] all_protos[k2],
                    k2 as usize,
                    body.blocks[k2],
                    fname,
                ),
            forall |t: int|
                0 <= t < n ==> #[trigger] preds@[t]@ == spec_preds(*body, fname, t as usize),
            blocks@.len() == i2,
            forall |k2: int|
                0 <= k2 < i2 ==> block_built_from(
                    #[trigger] blocks@[k2],
                    k2 as usize,
                    body.blocks[k2],
                    fname,
                ),
            forall |k2: int|
                0 <= k2 < i2 ==> (#[trigger] blocks@[k2]).predecessors@ == spec_preds(
                    *body,
                    fname,
                    k2 as usize,
                ),
            forall |k2: int|
                0 <= k2 < i2 ==> (#[trigger] blocks@[k2]).role == spec_fn_role(
                    *body,
                    fname,
                    k2,
                ),
            forall |k2: int|
                0 <= k2 < i2 ==> (#[trigger] blocks@[k2]).summary@ == spec_block_summary(
                    blocks@[k2],
                ),
        decreases n - i2,
    {
        let mut blk = protos.remove(0);
        proof {
            assert(all_protos.skip(i2 as int)[0] == all_protos[i2 as int]);
            assert(protos@ =~= all_protos.skip(i2 + 1));
        }
        let p = preds[i2].clone();
        proof {
            assert(p@ =~= preds@[i2 as int]@);
        }
        let role = if i2 > 0 && cleanups[i2] {
            ExplorerRole::Cleanup
        } else {
            compute_block_role(i2, &p, &blk.terminator, n)
        };
        proof {
            let kind = body.blocks[i2 as int].terminator.kind;
            assert(edge_views(blk.terminator.edges@) == spec_term_edges(kind, fname));
            assert(role == spec_fn_role(*body, fname, i2 as int));
        }
        blk.predecessors = p;
        blk.role = role;
        let summ = block_summary(&blk);
        blk.summary = summ;
        proof {
            assert(blk.summary@ == spec_block_summary(blk));
        }
        blocks.push(blk);
        i2 = i2 + 1;
    }
    // Collect local type info.
    let nl = body.locals.len();
    let mut locals: Vec<String> = Vec::new();
    let mut li: usize = 0;
    while li < nl
        invariant
            li <= nl,
            nl == body.locals@.len(),
            locals@.len() == li,
            forall |x: int|
                0 <= x < li ==> (#[trigger] locals@[x])@ == spec_local_str(
                    x,
                    body.locals@[x].ty,
                ),
        decreases nl - li,
    {
        let mut l = String::from_str("_");
        let d = usize_to_dec(li);
        l.append(d.as_str());
        l.append(": ");
        l.append("ty");
        let t = u64_to_dec(body.locals[li].ty);
        l.append(t.as_str());
        proof {
            assert(l@ =~= spec_local_str(li as int, body.locals@[li as int].ty));
        }
        locals.push(l);
        li = li + 1;
    }
    ExplorerFunction {
        name: name.to_owned(),
        short_name,
        blocks,
        locals,
        entry_block: 0,
    }
}

// =========================================================================
// The whole data set
// =========================================================================

/// An item belongs in the explorer: it has a body and is not drawn from the
/// standard library.
pub open spec fn item_included(item: IrItem) -> bool {
    &&& item.body is Some
    &&& !has_substring(item.name@, "std::"@)
    &&& !has_substring(item.name@, "core::"@)
}

/// The included items, in order.
pub open spec fn spec_included(items: Seq<IrItem>) -> Seq<IrItem>
    decreases items.len(),
{
    if items.len() == 0 {
        Seq::empty()
    } else {
        spec_included(items.drop_last()) + (if item_included(items.last()) {
            seq![items.last()]
        } else {
            Seq::empty()
        })
    }
}

/// One explorer function presents one included item.
pub open spec fn item_built(f: ExplorerFunction, item: IrItem) -> bool {
    item.body matches Some(b) && fn_built_from(f, item.name@, b)
}

/// Build the whole explorer data set: one function for each item that has a
/// body and is not drawn from the standard library.
pub fn build_explorer_data(name: &str, items: &Vec<IrItem>) -> (r: ExplorerData)
    ensures
        r.name@ == name@,
        r.functions@.len() == spec_included(items@).len(),
        forall |k: int|
            0 <= k < r.functions@.len() ==> item_built(
                #[trigger] r.functions@[k],
                spec_included(items@)[k],
            ),
{
    let n = items.len();
    let mut functions: Vec<ExplorerFunction> = Vec::new();
    let mut i: usize = 0;
    proof {
        assert(items@.take(0) =~= Seq::<IrItem>::empty());
    }
    while i < n
        invariant
            i <= n,
            n == items@.len(),
            functions@.len() == spec_included(items@.take(i as int)).len(),
            forall |k: int|
                0 <= k < functions@.len() ==> item_built(
                    #[trigger] functions@[k],
                    spec_included(items@.take(i as int))[k],
                ),
        decreases n - i,
    {
        proof {
            assert(items@.take(i + 1).drop_last() =~= items@.take(i as int));
            assert(items@.take(i + 1).last() == items@[i as int]);
        }
        let item = &items[i];
        match &item.body {
            Some(body) => {
                let skip = str_contains(item.name.as_str(), "std::") || str_contains(
                    item.name.as_str(),
                    "core::",
                );
                if !skip {
                    let f = build_explorer_function(item.name.as_str(), body);
                    functions.push(f);
                }
            },
            None => {},
        }
        proof {
            assert forall |k: int|
                0 <= k < functions@.len() implies item_built(
                #[trigger] functions@[k],
                spec_included(items@.take(i + 1))[k],
            ) by {
                if k < spec_included(items@.take(i as int)).len() {
                    assert(spec_included(items@.take(i + 1))[k] == spec_included(
                        items@.take(i as int),
                    )[k]);
                }
            }
        }
        i = i + 1;
    }
    proof {
        assert(items@.take(n as int) =~= items@);
    }
    ExplorerData { name: name.to_owned(), functions }
}

} // verus!
