//! Tests for the CFG structural analyzer, the borrow liveness engine and
//! the lexical lifetime engine.
use mir_lens::borrow::BorrowIndex;
use mir_lens::index::{SpanIndex, SpanInfo};
use mir_lens::ir::{
    body_is_well_formed, CfgNode, ConstData, ConstKind, FnBody, LocalDecl, Operand, PlaceData,
    RefKind, RvalueData, Stmt, StmtKind, SwitchTargetsInfo, Term, TermKind, UnwindInfo,
};
use mir_lens::lifetime::LifetimeIndex;
use mir_lens::traversal::{
    analyze_function, detect_loops, format_properties, get_terminator_targets, infer_block_roles,
    BlockRole,
};

fn term(kind: TermKind) -> Term {
    Term { kind, span: 0 }
}

fn stmt(kind: StmtKind) -> Stmt {
    Stmt { kind, span: 0 }
}

fn stmt_at(kind: StmtKind, span: usize) -> Stmt {
    Stmt { kind, span }
}

fn place(local: usize) -> PlaceData {
    PlaceData {
        local,
        projection: Vec::new(),
    }
}

fn node(statements: Vec<Stmt>, terminator: Term) -> CfgNode {
    CfgNode {
        statements,
        terminator,
    }
}

fn const_op(byte: u8) -> Operand {
    Operand::Constant(ConstData {
        kind: ConstKind::Allocated(vec![Some(byte)]),
        ty: 0,
        fn_name: None,
    })
}

/// The three-node scenario: bb0 --goto--> bb1, bb1 switches into bb2 and
/// back into bb0 with bb3 as the fallthrough; bb1 can reach itself through
/// bb0.
fn loop_body() -> FnBody {
    FnBody {
        blocks: vec![
            node(vec![], term(TermKind::Goto { target: 1 })),
            node(
                vec![],
                term(TermKind::SwitchInt {
                    discr: const_op(1),
                    targets: SwitchTargetsInfo {
                        branches: vec![(0, 2), (1, 0)],
                        otherwise: 3,
                    },
                }),
            ),
            node(vec![], term(TermKind::Return)),
            node(vec![], term(TermKind::Return)),
        ],
        locals: vec![LocalDecl { ty: 0 }],
    }
}

#[test]
fn wellformedness_check() {
    assert!(body_is_well_formed(&loop_body()));
    let bad = FnBody {
        blocks: vec![node(vec![], term(TermKind::Goto { target: 7 }))],
        locals: vec![],
    };
    assert!(!body_is_well_formed(&bad));
}

#[test]
fn terminator_targets_order() {
    let t = term(TermKind::SwitchInt {
        discr: const_op(0),
        targets: SwitchTargetsInfo {
            branches: vec![(0, 2), (1, 0)],
            otherwise: 3,
        },
    });
    assert_eq!(get_terminator_targets(&t), vec![2, 0, 3]);
    let c = term(TermKind::Call {
        func: const_op(0),
        args: vec![],
        destination: place(0),
        target: Some(1),
        unwind: UnwindInfo::Cleanup(2),
    });
    assert_eq!(get_terminator_targets(&c), vec![1, 2]);
}

#[test]
fn loop_wins_over_branch() {
    // bb1 has three outgoing edges (a branch shape) and also reaches itself
    // through bb0; the loop classification takes precedence.
    let body = loop_body();
    let roles = infer_block_roles(&body);
    assert_eq!(roles[0], BlockRole::Entry);
    assert_eq!(roles[1], BlockRole::Loop);
    assert_eq!(roles[2], BlockRole::Return);
    assert_eq!(roles[3], BlockRole::Return);
}

#[test]
fn exactly_one_entry() {
    let roles = infer_block_roles(&loop_body());
    let entries = roles.iter().filter(|r| **r == BlockRole::Entry).count();
    assert_eq!(entries, 1);
    assert_eq!(roles[0], BlockRole::Entry);
}

#[test]
fn loop_detection_matches_reachability() {
    let body = loop_body();
    let loops = detect_loops(&body);
    // bb0 and bb1 sit on the cycle bb0 -> bb1 -> bb0; bb2 and bb3 return.
    assert_eq!(loops, vec![true, true, false, false]);
}

#[test]
fn cleanup_role_for_unwind_target() {
    let body = FnBody {
        blocks: vec![
            node(
                vec![],
                term(TermKind::Call {
                    func: const_op(0),
                    args: vec![],
                    destination: place(0),
                    target: Some(1),
                    unwind: UnwindInfo::Cleanup(2),
                }),
            ),
            node(vec![], term(TermKind::Return)),
            node(vec![], term(TermKind::Resume)),
        ],
        locals: vec![],
    };
    let roles = infer_block_roles(&body);
    assert_eq!(roles[0], BlockRole::Entry);
    assert_eq!(roles[1], BlockRole::Return);
    assert_eq!(roles[2], BlockRole::Cleanup);
}

#[test]
fn properties_detected() {
    let body = FnBody {
        blocks: vec![
            node(
                vec![stmt(StmtKind::Assign(
                    place(2),
                    RvalueData::Ref(RefKind::Shared, place(1)),
                ))],
                term(TermKind::Drop {
                    place: place(2),
                    target: 1,
                    unwind: UnwindInfo::Continue,
                }),
            ),
            node(vec![], term(TermKind::Return)),
        ],
        locals: vec![],
    };
    let props = analyze_function(&body, "f");
    assert!(props.has_borrows);
    assert!(props.has_drops);
    assert!(!props.has_switches);
    assert!(!props.has_panic_path);
    let strings = format_properties(&props);
    assert_eq!(strings, vec!["Introduces borrows", "Has explicit drops"]);
}

#[test]
fn borrow_live_only_before_kill() {
    // A borrow `_2 = &_1` created at bb0 offset 0 and `StorageDead(_2)` at
    // bb0 offset 1: the borrow is live only at (bb0, 0).
    let body = FnBody {
        blocks: vec![node(
            vec![
                stmt_at(
                    StmtKind::Assign(place(2), RvalueData::Ref(RefKind::Shared, place(1))),
                    0,
                ),
                stmt_at(StmtKind::StorageDead(2), 1),
            ],
            term(TermKind::Return),
        )],
        locals: vec![LocalDecl { ty: 0 }, LocalDecl { ty: 0 }, LocalDecl { ty: 0 }],
    };
    let spans = SpanIndex::new();
    let idx = BorrowIndex::from_body(&body, &spans);
    assert_eq!(idx.borrows.len(), 1);
    assert_eq!(idx.borrows[0].index, 0);
    assert_eq!(idx.borrows[0].borrower_local, 2);
    assert_eq!(idx.borrows[0].borrowed_local, 1);
    assert_eq!(idx.active_at(0, 0), vec![0]);
    assert_eq!(idx.active_at(0, 1), Vec::<usize>::new());
    assert_eq!(idx.active_at(0, 2), Vec::<usize>::new());
    // An out-of-range location has no live borrows.
    assert_eq!(idx.active_at(7, 0), Vec::<usize>::new());
}

#[test]
fn borrow_end_found_at_kill_point() {
    let body = FnBody {
        blocks: vec![node(
            vec![
                stmt_at(
                    StmtKind::Assign(place(2), RvalueData::Ref(RefKind::Mut, place(1))),
                    0,
                ),
                stmt_at(StmtKind::StorageDead(2), 1),
            ],
            term(TermKind::Return),
        )],
        locals: vec![],
    };
    let spans = SpanIndex::new();
    let idx = BorrowIndex::from_body(&body, &spans);
    let end = idx.find_borrow_end(0, &body).expect("an end location");
    // The creating assignment itself reassigns the borrower as a whole, so
    // the first kill point the walk meets is the creation statement.
    assert_eq!(end.block, 0);
    assert_eq!(end.statement, 0);
    assert!(idx.find_borrow_end(9, &body).is_none());
}

#[test]
fn borrow_liveness_on_source_lines() {
    let body = FnBody {
        blocks: vec![node(
            vec![stmt_at(
                StmtKind::Assign(place(2), RvalueData::Ref(RefKind::Shared, place(1))),
                10,
            )],
            term(TermKind::Return),
        )],
        locals: vec![],
    };
    let spans = SpanIndex::from_spans(vec![(
        10,
        SpanInfo {
            file: String::from("lib.rs"),
            line_start: 4,
            col_start: 1,
            line_end: 6,
            col_end: 2,
        },
    )]);
    let idx = BorrowIndex::from_body(&body, &spans);
    assert_eq!(idx.active_at_source_line(4), vec![0]);
    assert_eq!(idx.active_at_source_line(5), vec![0]);
    assert_eq!(idx.active_at_source_line(6), vec![0]);
    assert_eq!(idx.active_at_source_line(3), Vec::<usize>::new());
    assert_eq!(idx.active_at_source_line(7), Vec::<usize>::new());
}

#[test]
fn lifetime_pairs_first_live_last_dead() {
    // Local 1 gets two begin/end pairs, as inside a loop body; the widest
    // range wins: the first begin and the last end.
    let body = FnBody {
        blocks: vec![node(
            vec![
                stmt_at(StmtKind::StorageLive(1), 10),
                stmt_at(StmtKind::StorageDead(1), 11),
                stmt_at(StmtKind::StorageLive(1), 12),
                stmt_at(StmtKind::StorageDead(1), 13),
            ],
            term(TermKind::Return),
        )],
        locals: vec![LocalDecl { ty: 0 }, LocalDecl { ty: 0 }],
    };
    let spans = SpanIndex::from_spans(vec![
        (
            10,
            SpanInfo {
                file: String::from("f.rs"),
                line_start: 2,
                col_start: 5,
                line_end: 2,
                col_end: 9,
            },
        ),
        (
            13,
            SpanInfo {
                file: String::from("f.rs"),
                line_start: 8,
                col_start: 1,
                line_end: 8,
                col_end: 3,
            },
        ),
    ]);
    let idx = LifetimeIndex::from_body(&body, &spans);
    let l = idx.get(1).expect("entry for local 1");
    assert_eq!(l.storage_live.unwrap().statement, 0);
    assert_eq!(l.storage_dead.unwrap().statement, 3);
    assert!(l.has_source_info());
    let range = l.source_range.unwrap();
    assert_eq!(range.start_line, 2);
    assert_eq!(range.start_col, 5);
    assert_eq!(range.end_line, 8);
    assert_eq!(range.end_col, 3);
    assert_eq!(l.range_str(), "2-8");
    assert_eq!(l.format_range(), "'_1: lines 2-8");
    // Local 0 has no markers at all: no locations and no range.
    let l0 = idx.get(0).expect("entry for local 0");
    assert!(l0.storage_live.is_none());
    assert!(l0.storage_dead.is_none());
    assert!(!l0.has_source_info());
    assert_eq!(l0.range_str(), "<unknown>");
    assert_eq!(l0.format_range(), "'_0: <unknown>");
    assert_eq!(idx.with_source_ranges().len(), 1);
}

#[test]
fn lifetime_requires_same_file() {
    let body = FnBody {
        blocks: vec![node(
            vec![
                stmt_at(StmtKind::StorageLive(0), 1),
                stmt_at(StmtKind::StorageDead(0), 2),
            ],
            term(TermKind::Return),
        )],
        locals: vec![LocalDecl { ty: 0 }],
    };
    let spans = SpanIndex::from_spans(vec![
        (
            1,
            SpanInfo {
                file: String::from("a.rs"),
                line_start: 1,
                col_start: 1,
                line_end: 1,
                col_end: 2,
            },
        ),
        (
            2,
            SpanInfo {
                file: String::from("b.rs"),
                line_start: 9,
                col_start: 1,
                line_end: 9,
                col_end: 2,
            },
        ),
    ]);
    let idx = LifetimeIndex::from_body(&body, &spans);
    let l = idx.get(0).expect("entry for local 0");
    assert!(l.storage_live.is_some());
    assert!(l.storage_dead.is_some());
    // The markers resolve into different files: no range is guessed.
    assert!(l.source_range.is_none());
}
