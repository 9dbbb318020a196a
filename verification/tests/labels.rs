//! Tests for the rendering helpers: places, operands, constants, rvalues,
//! escapes, display names and byte readings.
use mir_lens::ir::{
    BinOpInfo, CastKindInfo, ConstData, ConstKind, NullOpInfo, Operand, PlaceData, ProjElem,
    RefKind, RvalueData, Term, TermKind, UnOpInfo, UnwindInfo,
};
use mir_lens::lifetime::SourceRange;
use mir_lens::render::{
    annotate_rvalue, bytes_to_int, escape_html, extract_call_name, render_binop, render_mir_const,
    render_operand, render_place, render_rvalue, render_unop, short_fn_name,
};
use mir_lens::traversal::BlockRole;
use mir_lens::util::{
    block_name, bytes_to_u64_le, escape_code_cell, escape_d2, escape_mermaid, escape_table_cell,
    function_string, hash_body, is_unqualified, name_lines, short_name, terminator_targets,
    FnSymType, GraphLabelString,
};

fn place(local: usize, projection: Vec<ProjElem>) -> PlaceData {
    PlaceData { local, projection }
}

fn int_const(bytes: Vec<Option<u8>>) -> ConstData {
    ConstData {
        kind: ConstKind::Allocated(bytes),
        ty: 0,
        fn_name: None,
    }
}

#[test]
fn places_render_with_projections() {
    assert_eq!(render_place(&place(3, vec![])), "_3");
    assert_eq!(
        render_place(&place(1, vec![ProjElem::Deref])),
        "(*_1)"
    );
    assert_eq!(
        render_place(&place(1, vec![ProjElem::Field(2), ProjElem::Index(4)])),
        "_1.2[_4]"
    );
    assert_eq!(
        render_place(&place(5, vec![ProjElem::Downcast(1)])),
        "(_5 as #1)"
    );
}

#[test]
fn graph_labels_render() {
    // The graph label style shows the local as a bare number and spells
    // downcasts out.
    let p = place(5, vec![ProjElem::Downcast(1)]);
    assert_eq!(p.label(), "(5 as variant 1)");
    let q = place(2, vec![ProjElem::Subslice {
        from: 1,
        to: 3,
        from_end: true,
    }]);
    assert_eq!(q.label(), "2[1..-3]");
    assert_eq!(NullOpInfo::OffsetOf.label(), "OffsetOf(..)");
    assert_eq!(NullOpInfo::SizeOf.label(), "SizeOf");
}

#[test]
fn constants_render_as_integers() {
    assert_eq!(render_mir_const(&int_const(vec![Some(7)])), "7");
    // Two little-endian bytes of all ones read as the signed value -1.
    assert_eq!(render_mir_const(&int_const(vec![Some(0xff), Some(0xff)])), "-1");
    assert_eq!(
        render_mir_const(&int_const(vec![Some(1), Some(2), Some(3)])),
        "[3 bytes]"
    );
    assert_eq!(
        render_mir_const(&ConstData {
            kind: ConstKind::ZeroSized,
            ty: 0,
            fn_name: None
        }),
        "()"
    );
    assert_eq!(bytes_to_int(&vec![Some(0xff)]), Some(255));
    assert_eq!(bytes_to_int(&vec![Some(0xff), Some(0xff)]), Some(-1));
    assert_eq!(bytes_to_int(&vec![None]), None);
    assert_eq!(bytes_to_int(&vec![Some(1), Some(2), Some(3)]), None);
}

#[test]
fn operands_and_rvalues_render() {
    let copy = Operand::Copy(place(1, vec![]));
    let mv = Operand::Move(place(2, vec![]));
    assert_eq!(render_operand(&copy), "_1");
    assert_eq!(render_operand(&mv), "move _2");
    let add = RvalueData::BinaryOp(BinOpInfo::Add, copy.clone(), mv.clone());
    assert_eq!(render_rvalue(&add), "_1 + move _2");
    assert_eq!(annotate_rvalue(&add), "Add operation");
    let checked = RvalueData::CheckedBinaryOp(BinOpInfo::Mul, copy.clone(), mv.clone());
    assert_eq!(render_rvalue(&checked), "checked(_1 * move _2)");
    assert_eq!(annotate_rvalue(&checked), "Checked Multiply (may panic)");
    let shared = RvalueData::Ref(RefKind::Shared, place(4, vec![]));
    assert_eq!(render_rvalue(&shared), "&_4");
    assert_eq!(annotate_rvalue(&shared), "Shared borrow");
    let exclusive = RvalueData::Ref(RefKind::Mut, place(4, vec![]));
    assert_eq!(render_rvalue(&exclusive), "&mut _4");
    let cast = RvalueData::Cast(CastKindInfo::IntToInt, copy.clone(), 3);
    assert_eq!(render_rvalue(&cast), "_1 as ty3");
    assert_eq!(annotate_rvalue(&cast), "Integer conversion");
    let neg = RvalueData::UnaryOp(UnOpInfo::Neg, copy.clone());
    assert_eq!(render_rvalue(&neg), "-_1");
    assert_eq!(render_binop(&BinOpInfo::Le), "<=");
    assert_eq!(render_unop(&UnOpInfo::Not), "!");
}

#[test]
fn call_names_resolve_or_fall_back() {
    let named = Operand::Constant(ConstData {
        kind: ConstKind::ZeroSized,
        ty: 0,
        fn_name: Some(String::from("alpha::beta::gamma")),
    });
    assert_eq!(extract_call_name(&named), "gamma");
    let anon = Operand::Copy(place(1, vec![]));
    assert_eq!(extract_call_name(&anon), "fn");
}

#[test]
fn short_names() {
    assert_eq!(short_fn_name("a::b::c"), "c");
    assert_eq!(short_fn_name("solo"), "solo");
    assert_eq!(short_fn_name(""), "");
    assert!(is_unqualified("solo"));
    assert!(!is_unqualified("a::b"));
}

#[test]
fn escapes() {
    assert_eq!(escape_html("<a & \"b\">"), "&lt;a &amp; &quot;b&quot;&gt;");
    assert_eq!(escape_d2("a\"b$c\\d"), "a\\\"b\\$c\\\\d");
    assert_eq!(escape_mermaid("x\ny$"), "x<br/>y&#36;");
    assert_eq!(escape_table_cell("a|b\nc"), "a\\|b c");
    assert_eq!(escape_code_cell("`a`|"), "'a'\\|");
}

#[test]
fn hashed_display_names() {
    let a = short_name("demo::walk");
    let b = short_name("demo::walk");
    let c = short_name("demo::run");
    assert_eq!(a, b);
    assert_ne!(a, c);
    assert!(a.starts_with('X'));
    assert_eq!(block_name("demo::walk", 3), format!("{}_3", a));
}

#[test]
fn names_wrap_for_display() {
    assert_eq!(name_lines(""), "");
    assert_eq!(name_lines("short"), "short");
    // Pieces split after each space; the separator is a literal backslash-n.
    assert_eq!(name_lines("alpha beta"), "alpha \\nbeta");
    // A long piece wraps at 25 characters.
    assert_eq!(
        name_lines("abcdefghijklmnopqrstuvwxyz1234"),
        "abcdefghijklmnopqrstuvwxy\\nz1234"
    );
}

#[test]
fn function_symbol_strings() {
    assert_eq!(
        function_string(FnSymType::NormalSym(String::from("f"))),
        "f"
    );
    assert_eq!(
        function_string(FnSymType::NoOpSym(String::from("f"))),
        "NoOp: f"
    );
    assert_eq!(
        function_string(FnSymType::IntrinsicSym(String::from("f"))),
        "Intr: f"
    );
}

#[test]
fn body_hash_is_structural() {
    let goto = |t: usize| Term {
        kind: TermKind::Goto { target: t },
        span: 0,
    };
    let ret = || Term {
        kind: TermKind::Return,
        span: 0,
    };
    let body1 = mir_lens::ir::FnBody {
        blocks: vec![
            mir_lens::ir::CfgNode {
                statements: vec![],
                terminator: goto(1),
            },
            mir_lens::ir::CfgNode {
                statements: vec![],
                terminator: ret(),
            },
        ],
        locals: vec![],
    };
    let body2 = mir_lens::ir::FnBody {
        blocks: vec![
            mir_lens::ir::CfgNode {
                statements: vec![],
                terminator: goto(0)
            },
            mir_lens::ir::CfgNode {
                statements: vec![],
                terminator: ret(),
            },
        ],
        locals: vec![],
    };
    // The hash reflects the shape: the same body hashes alike, a changed
    // edge hashes differently.
    assert_eq!(hash_body(&body1), hash_body(&body1));
    assert_ne!(hash_body(&body1), hash_body(&body2));
}

#[test]
fn little_endian_reading() {
    assert_eq!(bytes_to_u64_le(&vec![]), 0);
    assert_eq!(bytes_to_u64_le(&vec![0x01, 0x02]), 0x0201);
    assert_eq!(
        bytes_to_u64_le(&vec![0xff, 0xff, 0xff, 0xff, 0xff, 0xff, 0xff, 0xff]),
        u64::MAX
    );
}

#[test]
fn source_range_formats() {
    let single = SourceRange {
        start_line: 5,
        start_col: 3,
        end_line: 5,
        end_col: 15,
    };
    assert_eq!(single.format(), "5:3-15");
    assert_eq!(single.format_verbose(), "line 5:3-15");
    let multi = SourceRange {
        start_line: 5,
        start_col: 3,
        end_line: 12,
        end_col: 1,
    };
    assert_eq!(multi.format(), "5-12");
    assert_eq!(multi.format_verbose(), "lines 5-12");
}

#[test]
fn role_titles() {
    assert_eq!(BlockRole::Entry.title(), "entry");
    assert_eq!(BlockRole::Loop.title(), "loop");
    assert_eq!(BlockRole::Normal.title(), "");
    assert_eq!(BlockRole::Cleanup.cfg_suffix(), " (cleanup)");
    assert_eq!(BlockRole::Normal.cfg_suffix(), "");
}

#[test]
fn terminator_targets_util() {
    let t = Term {
        kind: TermKind::Drop {
            place: place(1, vec![]),
            target: 4,
            unwind: UnwindInfo::Cleanup(6),
        },
        span: 0,
    };
    assert_eq!(terminator_targets(&t), vec![4, 6]);
}
