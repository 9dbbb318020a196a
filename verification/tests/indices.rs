//! Tests for the resolution indices: spans, types and allocations, with the
//! depth-bounded, cycle-guarded recursive allocation description.
use mir_lens::index::{
    alloc_label, AllocIndex, AllocInfo, GlobalAllocInfo, SpanIndex, SpanInfo, TypeIndex,
    TypeMetadata,
};

fn span(file: &str, l0: usize, c0: usize, l1: usize, c1: usize) -> SpanInfo {
    SpanInfo {
        file: String::from(file),
        line_start: l0,
        col_start: c0,
        line_end: l1,
        col_end: c1,
    }
}

fn memory_alloc(id: u64, ty: u64, bytes: Vec<Option<u8>>, refs: Vec<u64>) -> AllocInfo {
    AllocInfo {
        alloc_id: id,
        ty,
        payload: GlobalAllocInfo::Memory {
            bytes,
            ptrs: refs.into_iter().enumerate().map(|(o, r)| (o, r)).collect(),
        },
    }
}

#[test]
fn span_lookup_last_entry_wins() {
    let idx = SpanIndex::from_spans(vec![
        (3, span("a.rs", 1, 1, 1, 5)),
        (3, span("a.rs", 9, 1, 9, 5)),
    ]);
    let info = idx.get(3).expect("span 3");
    assert_eq!(info.line_start, 9);
    assert!(idx.get(4).is_none());
    assert!(SpanIndex::new().get(0).is_none());
}

#[test]
fn type_names_and_fallback() {
    let idx = TypeIndex::from_types(&vec![
        (0, TypeMetadata::PrimitiveType(String::from("i32"))),
        (
            1,
            TypeMetadata::StructType {
                name: String::from("Point"),
            },
        ),
        (2, TypeMetadata::VoidType),
    ]);
    assert_eq!(idx.get_name(0), "i32");
    assert_eq!(idx.get_name(1), "Point");
    assert_eq!(idx.get_name(2), "()");
    assert_eq!(idx.get_name(7), "ty7");
    assert_eq!(TypeIndex::new().get_name(0), "ty0");
}

#[test]
fn alloc_labels_and_fallback() {
    assert_eq!(alloc_label(0), "alloc0");
    assert_eq!(alloc_label(42), "alloc42");
    let idx = AllocIndex::new();
    assert_eq!(idx.describe(42), "alloc42");
}

#[test]
fn numeric_alloc_description() {
    let types = TypeIndex::from_types(&vec![(5, TypeMetadata::PrimitiveType(String::from("u16")))]);
    let idx = AllocIndex::from_alloc_infos(
        &vec![memory_alloc(1, 5, vec![Some(0x01), Some(0x02)], vec![])],
        &types,
    );
    // Two little-endian bytes read as 0x0201 = 513.
    assert_eq!(idx.describe(1), "alloc1: u16 = 513");
}

#[test]
fn string_alloc_preview() {
    let types = TypeIndex::from_types(&vec![(9, TypeMetadata::RefType {
        name: String::from("&str"),
    })]);
    let bytes = vec![Some(b'h'), Some(b'i'), Some(b'\n')];
    let idx = AllocIndex::from_alloc_infos(&vec![memory_alloc(2, 9, bytes, vec![])], &types);
    assert_eq!(idx.describe(2), "alloc2: \"hi\\n\"");
}

#[test]
fn string_preview_escapes_control_bytes() {
    let types = TypeIndex::from_types(&vec![(9, TypeMetadata::RefType {
        name: String::from("&str"),
    })]);
    // A control byte renders as a braced hex escape, as `escape_default`
    // renders the character.
    let bytes = vec![Some(b'a'), Some(0x01), Some(0x7f)];
    let idx = AllocIndex::from_alloc_infos(&vec![memory_alloc(3, 9, bytes, vec![])], &types);
    assert_eq!(idx.describe(3), "alloc3: \"a\\u{1}\\u{7f}\"");
}

#[test]
fn static_and_function_allocs() {
    let types = TypeIndex::new();
    let idx = AllocIndex::from_alloc_infos(
        &vec![
            AllocInfo {
                alloc_id: 0,
                ty: 0,
                payload: GlobalAllocInfo::Static {
                    name: String::from("GREETING"),
                },
            },
            AllocInfo {
                alloc_id: 1,
                ty: 0,
                payload: GlobalAllocInfo::Function {
                    name: String::from("core::fmt::write"),
                },
            },
            AllocInfo {
                alloc_id: 2,
                ty: 0,
                payload: GlobalAllocInfo::VTable {
                    ty_name: String::from("Widget"),
                    trait_name: Some(String::from("Draw")),
                },
            },
        ],
        &types,
    );
    assert_eq!(idx.describe(0), "alloc0: static GREETING");
    assert_eq!(idx.describe(1), "alloc1: fn core::fmt::write");
    assert_eq!(idx.describe(2), "alloc2: vtable<Widget as Draw>");
}

#[test]
fn depth_zero_equals_plain_describe() {
    let types = TypeIndex::new();
    let idx = AllocIndex::from_alloc_infos(
        &vec![memory_alloc(0, 0, vec![Some(7)], vec![1])],
        &types,
    );
    // The depth-0 base case: no references are expanded.
    assert_eq!(idx.describe_with_refs(0, 0), idx.describe(0));
    assert_eq!(idx.describe_with_refs(42, 0), idx.describe(42));
}

#[test]
fn cyclic_allocs_terminate() {
    // A references B and B references A: the traversal must terminate and
    // produce a finite string, falling back to the plain description when
    // an id already on the path comes around again.
    let types = TypeIndex::new();
    let idx = AllocIndex::from_alloc_infos(
        &vec![
            memory_alloc(0, 0, vec![Some(1)], vec![1]),
            memory_alloc(1, 0, vec![Some(2)], vec![0]),
        ],
        &types,
    );
    let described = idx.describe_with_refs(0, 10);
    assert_eq!(
        described,
        "alloc0: ty0 = 1 -> [alloc1: ty0 = 2 -> [alloc0: ty0 = 1]]"
    );
}

#[test]
fn nested_refs_within_depth() {
    let types = TypeIndex::new();
    let idx = AllocIndex::from_alloc_infos(
        &vec![
            memory_alloc(0, 0, vec![Some(1)], vec![1, 2]),
            memory_alloc(1, 0, vec![Some(2)], vec![]),
            memory_alloc(2, 0, vec![Some(3)], vec![]),
        ],
        &types,
    );
    assert_eq!(
        idx.describe_with_refs(0, 3),
        "alloc0: ty0 = 1 -> [alloc1: ty0 = 2, alloc2: ty0 = 3]"
    );
    // With the budget exhausted below the references, each falls back to
    // its plain description; an unknown reference keeps its bare label.
    assert_eq!(idx.describe_with_refs(0, 1), "alloc0: ty0 = 1 -> [alloc1: ty0 = 2, alloc2: ty0 = 3]");
}
