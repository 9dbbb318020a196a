//! Tests for the explorer builders and the path navigator state machine.
use mir_lens::explore::{
    build_explorer_data, build_explorer_function, compute_block_role, EdgeKind, ExplorerRole,
    IrItem, TermTag,
};
use mir_lens::ir::{
    CfgNode, ConstData, ConstKind, FnBody, LocalDecl, Operand, PlaceData, Stmt, StmtKind,
    SwitchTargetsInfo, Term, TermKind,
};
use mir_lens::navigator::Navigator;

fn term(kind: TermKind) -> Term {
    Term { kind, span: 0 }
}

fn node(statements: Vec<Stmt>, terminator: Term) -> CfgNode {
    CfgNode {
        statements,
        terminator,
    }
}

fn const_op(byte: u8) -> Operand {
    Operand::Constant(ConstData {
        kind: ConstKind::Allocated(vec![Some(byte)]),
        ty: 0,
        fn_name: None,
    })
}

fn two_node_body() -> FnBody {
    FnBody {
        blocks: vec![
            node(vec![], term(TermKind::Goto { target: 1 })),
            node(vec![], term(TermKind::Return)),
        ],
        locals: vec![LocalDecl { ty: 3 }],
    }
}

fn branching_body() -> FnBody {
    FnBody {
        blocks: vec![
            node(vec![], term(TermKind::Goto { target: 1 })),
            node(
                vec![],
                term(TermKind::SwitchInt {
                    discr: const_op(1),
                    targets: SwitchTargetsInfo {
                        branches: vec![(0, 2), (1, 0)],
                        otherwise: 3,
                    },
                }),
            ),
            node(vec![], term(TermKind::Return)),
            node(vec![], term(TermKind::Return)),
        ],
        locals: vec![],
    }
}

#[test]
fn explorer_function_structure() {
    let body = branching_body();
    let f = build_explorer_function("demo::walk", &body);
    assert_eq!(f.name, "demo::walk");
    assert_eq!(f.short_name, "walk");
    assert_eq!(f.entry_block, 0);
    assert_eq!(f.blocks.len(), 4);
    assert_eq!(f.blocks[0].role, ExplorerRole::Entry);
    // bb1 has three outgoing edges: the local classification is a branch
    // point (the explorer roles carry no loop notion).
    assert_eq!(f.blocks[1].role, ExplorerRole::BranchPoint);
    assert_eq!(f.blocks[2].role, ExplorerRole::Exit);
    // Predecessors are inverted from the edges: bb0 is entered from bb1's
    // value branch, bb1 from bb0's goto.
    assert_eq!(f.blocks[0].predecessors, vec![1]);
    assert_eq!(f.blocks[1].predecessors, vec![0]);
    assert_eq!(f.blocks[2].predecessors, vec![1]);
    assert_eq!(f.blocks[3].predecessors, vec![1]);
    // The switch edges: value branches first, the fallthrough last.
    let edges = &f.blocks[1].terminator.edges;
    assert_eq!(edges.len(), 3);
    assert_eq!(edges[0].target, 2);
    assert_eq!(edges[0].label, "0");
    assert_eq!(edges[0].kind, EdgeKind::Branch);
    assert_eq!(edges[2].target, 3);
    assert_eq!(edges[2].label, "else");
    assert_eq!(edges[2].kind, EdgeKind::Otherwise);
    assert_eq!(f.blocks[1].terminator.mir, "switchInt(1)");
    assert_eq!(f.blocks[0].terminator.mir, "goto bb0".replace("bb0", "bb1"));
    assert_eq!(f.blocks[0].summary, "Entry point");
}

#[test]
fn explorer_data_filters_std_items() {
    let items = vec![
        IrItem {
            name: String::from("demo::walk"),
            body: Some(two_node_body()),
        },
        IrItem {
            name: String::from("std::mem::drop"),
            body: Some(two_node_body()),
        },
        IrItem {
            name: String::from("core::fmt::write"),
            body: Some(two_node_body()),
        },
        IrItem {
            name: String::from("demo::external"),
            body: None,
        },
    ];
    let data = build_explorer_data("demo", &items);
    assert_eq!(data.name, "demo");
    assert_eq!(data.functions.len(), 1);
    assert_eq!(data.functions[0].name, "demo::walk");
}

#[test]
fn compute_role_shapes() {
    let body = branching_body();
    let f = build_explorer_function("walk", &body);
    // Out-degree beats in-degree; a single-in single-out block is linear.
    let role = compute_block_role(1, &f.blocks[1].predecessors, &f.blocks[1].terminator, 4);
    assert_eq!(role, ExplorerRole::BranchPoint);
    let role0 = compute_block_role(0, &f.blocks[0].predecessors, &f.blocks[0].terminator, 4);
    assert_eq!(role0, ExplorerRole::Entry);
    assert_eq!(f.blocks[1].terminator.kind, TermTag::Switch);
    assert_eq!(f.blocks[1].terminator.kind.as_str(), "switch");
}

#[test]
fn explorer_cleanup_role_from_unwind_target() {
    // bb1 drops with an unwind edge into bb3. Only bb3 — the block reached
    // through the unwind edge — is the cleanup handler; bb1 itself is
    // classified by its shape (two ways out: a branch point).
    let body = FnBody {
        blocks: vec![
            node(vec![], term(TermKind::Goto { target: 1 })),
            node(
                vec![],
                term(TermKind::Drop {
                    place: PlaceData {
                        local: 1,
                        projection: Vec::new(),
                    },
                    target: 2,
                    unwind: mir_lens::ir::UnwindInfo::Cleanup(3),
                }),
            ),
            node(vec![], term(TermKind::Return)),
            node(vec![], term(TermKind::Resume)),
        ],
        locals: vec![],
    };
    let f = build_explorer_function("demo::f", &body);
    assert_eq!(f.blocks[0].role, ExplorerRole::Entry);
    assert_eq!(f.blocks[1].role, ExplorerRole::BranchPoint);
    assert_eq!(f.blocks[2].role, ExplorerRole::Exit);
    assert_eq!(f.blocks[3].role, ExplorerRole::Cleanup);
    assert_eq!(f.blocks[3].summary, "Cleanup/unwind handler");
}

#[test]
fn navigator_follow_and_back() {
    // A two-node function; the history holds the visited path including the
    // current node, so the entry is always retained.
    let data = build_explorer_data(
        "demo",
        &vec![IrItem {
            name: String::from("demo::walk"),
            body: Some(two_node_body()),
        }],
    );
    let mut nav = Navigator::new(data);
    assert_eq!(nav.current_block, 0);
    assert_eq!(nav.path, vec![0]);
    assert_eq!(nav.selected_edge, 0);
    nav.follow_edge();
    assert_eq!(nav.current_block, 1);
    assert_eq!(nav.path, vec![0, 1]);
    assert_eq!(nav.selected_edge, 0);
    nav.go_back();
    assert_eq!(nav.current_block, 0);
    assert_eq!(nav.path, vec![0]);
    assert_eq!(nav.selected_edge, 0);
    // Stepping back at the entry is a no-op: the history never empties.
    nav.go_back();
    assert_eq!(nav.current_block, 0);
    assert_eq!(nav.path, vec![0]);
}

#[test]
fn navigator_follow_on_exit_is_noop() {
    let data = build_explorer_data(
        "demo",
        &vec![IrItem {
            name: String::from("demo::walk"),
            body: Some(two_node_body()),
        }],
    );
    let mut nav = Navigator::new(data);
    nav.follow_edge();
    // bb1 returns: no outgoing edges, so following is silently ignored.
    nav.follow_edge();
    assert_eq!(nav.current_block, 1);
    assert_eq!(nav.path, vec![0, 1]);
}

#[test]
fn navigator_reset_regardless_of_state() {
    let data = build_explorer_data(
        "demo",
        &vec![IrItem {
            name: String::from("demo::branchy"),
            body: Some(branching_body()),
        }],
    );
    let mut nav = Navigator::new(data);
    nav.follow_edge();
    nav.select_next_edge();
    nav.follow_edge();
    assert!(nav.path.len() > 1);
    nav.go_to_entry();
    assert_eq!(nav.current_block, 0);
    assert_eq!(nav.path, vec![0]);
    assert_eq!(nav.selected_edge, 0);
}

#[test]
fn navigator_edge_selection() {
    let data = build_explorer_data(
        "demo",
        &vec![IrItem {
            name: String::from("demo::branchy"),
            body: Some(branching_body()),
        }],
    );
    let mut nav = Navigator::new(data);
    nav.follow_edge();
    assert_eq!(nav.current_block, 1);
    // Three edges on bb1: the selection cycles in both directions.
    nav.select_next_edge();
    assert_eq!(nav.selected_edge, 1);
    nav.select_next_edge();
    assert_eq!(nav.selected_edge, 2);
    nav.select_next_edge();
    assert_eq!(nav.selected_edge, 0);
    nav.select_prev_edge();
    assert_eq!(nav.selected_edge, 2);
    nav.jump_to_edge(1);
    assert_eq!(nav.selected_edge, 1);
    // An out-of-range jump is a no-op, not an error.
    nav.jump_to_edge(9);
    assert_eq!(nav.selected_edge, 1);
    // Following the selected branch edge lands on its target.
    nav.jump_to_edge(1);
    nav.follow_edge();
    assert_eq!(nav.current_block, 0);
    assert_eq!(nav.path, vec![0, 1, 0]);
}

#[test]
fn navigator_function_switching() {
    let data = build_explorer_data(
        "demo",
        &vec![
            IrItem {
                name: String::from("demo::a"),
                body: Some(two_node_body()),
            },
            IrItem {
                name: String::from("demo::b"),
                body: Some(branching_body()),
            },
        ],
    );
    let mut nav = Navigator::new(data);
    nav.follow_edge();
    nav.select_next_fn();
    assert_eq!(nav.current_fn, 1);
    assert_eq!(nav.current_block, 0);
    assert_eq!(nav.path, vec![0]);
    nav.select_next_fn();
    assert_eq!(nav.current_fn, 0);
    nav.select_prev_fn();
    assert_eq!(nav.current_fn, 1);
}
