//! Tests for the annotated block rendering, the ASCII CFG and the borrow
//! range reporting.
use mir_lens::borrow::BorrowIndex;
use mir_lens::index::{SpanIndex, SpanInfo};
use mir_lens::ir::{
    CfgNode, ConstData, ConstKind, FnBody, LocalDecl, Operand, PlaceData, RefKind, RvalueData,
    Stmt, StmtKind, Term, TermKind, UnwindInfo,
};
use mir_lens::traversal::{
    block_colors, generate_ascii_cfg, infer_block_roles, render_block_rows,
    render_statement_annotated, render_terminator_annotated, BlockRole, FunctionContext,
};

fn term(kind: TermKind) -> Term {
    Term { kind, span: 0 }
}

fn stmt(kind: StmtKind) -> Stmt {
    Stmt { kind, span: 0 }
}

fn place(local: usize) -> PlaceData {
    PlaceData {
        local,
        projection: Vec::new(),
    }
}

fn named_call(name: &str, target: Option<usize>) -> TermKind {
    TermKind::Call {
        func: Operand::Constant(ConstData {
            kind: ConstKind::ZeroSized,
            ty: 0,
            fn_name: Some(String::from(name)),
        }),
        args: vec![Operand::Copy(place(1))],
        destination: place(0),
        target,
        unwind: UnwindInfo::Continue,
    }
}

#[test]
fn statement_rows() {
    let (mir, note) = render_statement_annotated(&stmt(StmtKind::StorageLive(3)));
    assert_eq!(mir, "StorageLive(_3)");
    assert_eq!(note, "Allocate stack slot for _3");
    let (mir2, note2) = render_statement_annotated(&stmt(StmtKind::Assign(
        place(2),
        RvalueData::Ref(RefKind::Mut, place(1)),
    )));
    assert_eq!(mir2, "_2 = &mut _1");
    assert_eq!(note2, "Mutable borrow");
    let (mir3, note3) = render_statement_annotated(&stmt(StmtKind::Nop));
    assert_eq!(mir3, "nop");
    assert_eq!(note3, "No operation");
}

#[test]
fn terminator_rows() {
    let (mir, note, rec) = render_terminator_annotated(&term(TermKind::Goto { target: 2 }), "f");
    assert_eq!(mir, "goto bb2");
    assert_eq!(note, "Jump to bb2");
    assert!(!rec);
    let (mir2, note2, rec2) =
        render_terminator_annotated(&term(named_call("demo::walk", Some(1))), "walk");
    assert_eq!(mir2, "_0 = walk(_1) \u{2192} bb1");
    assert_eq!(note2, "Recursive call to walk");
    assert!(rec2);
    let (mir3, note3, rec3) =
        render_terminator_annotated(&term(named_call("demo::other", Some(1))), "walk");
    assert_eq!(mir3, "_0 = other(_1) \u{2192} bb1");
    assert_eq!(note3, "Call other");
    assert!(!rec3);
}

#[test]
fn block_rows_end_with_terminator() {
    let block = CfgNode {
        statements: vec![stmt(StmtKind::StorageLive(1)), stmt(StmtKind::Nop)],
        terminator: term(TermKind::Return),
    };
    let rows = render_block_rows(&block, "f");
    assert_eq!(rows.len(), 3);
    assert!(!rows[0].is_terminator);
    assert!(!rows[1].is_terminator);
    assert!(rows[2].is_terminator);
    assert_eq!(rows[2].mir, "return");
    assert_eq!(rows[2].annotation, "Return from function");
}

#[test]
fn ascii_cfg_lines() {
    let body = FnBody {
        blocks: vec![
            CfgNode {
                statements: vec![],
                terminator: term(TermKind::Goto { target: 1 }),
            },
            CfgNode {
                statements: vec![],
                terminator: term(TermKind::Return),
            },
        ],
        locals: vec![],
    };
    let roles = infer_block_roles(&body);
    let cfg = generate_ascii_cfg(&body, &roles);
    assert_eq!(
        cfg,
        "bb0 (entry) \u{2500}\u{2500}\u{25b6} bb1\nbb1 (return)\n"
    );
}

#[test]
fn function_context_bundles_analyses() {
    let body = FnBody {
        blocks: vec![
            CfgNode {
                statements: vec![],
                terminator: term(TermKind::Goto { target: 1 }),
            },
            CfgNode {
                statements: vec![],
                terminator: term(TermKind::Return),
            },
        ],
        locals: vec![],
    };
    let ctx = FunctionContext::new("walk", "demo::walk", &body);
    assert_eq!(ctx.block_role(0), BlockRole::Entry);
    assert_eq!(ctx.block_role(1), BlockRole::Return);
    assert_eq!(ctx.block_role(9), BlockRole::Normal);
    assert!(!ctx.properties.has_panic_path);
    assert_eq!(ctx.property_strings(), Vec::<&str>::new());
    assert_eq!(ctx.render_block(1).len(), 1);
    assert!(ctx.ascii_cfg().contains("bb0 (entry)"));
}

#[test]
fn block_colors_by_role() {
    assert_eq!(block_colors(BlockRole::Entry), ("#e8f5e9", "#4caf50"));
    assert_eq!(block_colors(BlockRole::Normal), ("#fafafa", "#9e9e9e"));
}

#[test]
fn borrow_range_reporting() {
    let body = FnBody {
        blocks: vec![CfgNode {
            statements: vec![Stmt {
                kind: StmtKind::Assign(place(2), RvalueData::Ref(RefKind::Shared, place(1))),
                span: 10,
            }],
            terminator: term(TermKind::Return),
        }],
        locals: vec![LocalDecl { ty: 0 }],
    };
    let spans = SpanIndex::from_spans(vec![(
        10,
        SpanInfo {
            file: String::from("f.rs"),
            line_start: 7,
            col_start: 1,
            line_end: 7,
            col_end: 12,
        },
    )]);
    let idx = BorrowIndex::from_body(&body, &spans);
    let range = idx.borrow_source_range(0, &body, &spans).expect("a range");
    assert_eq!(range.0, 7);
    assert_eq!(range.1, 7);
    // With a multi-line creation span, the end line is the end location's
    // span end: the walk's first kill point is the creating assignment, so
    // its own span closes the range.
    let wide = SpanIndex::from_spans(vec![(
        10,
        SpanInfo {
            file: String::from("f.rs"),
            line_start: 7,
            col_start: 1,
            line_end: 12,
            col_end: 2,
        },
    )]);
    let idx2 = BorrowIndex::from_body(&body, &wide);
    let range2 = idx2.borrow_source_range(0, &body, &wide).expect("a range");
    assert_eq!(range2.0, 7);
    assert_eq!(range2.1, 12);
    assert!(idx.borrow_source_range(5, &body, &spans).is_none());
    let b = idx.get(0).expect("borrow 0");
    assert_eq!(b.format_lifetime_range(&spans, Some(7)), "'b0: line 7");
    assert_eq!(b.format_lifetime_range(&spans, Some(9)), "'b0: lines 7-9");
    assert_eq!(b.format_lifetime_range(&spans, None), "'b0: from line 7");
}
