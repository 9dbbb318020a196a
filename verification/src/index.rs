//! Resolution indices: lookup tables built once from the IR's flat metadata
//! tables, turning opaque numeric IDs (spans, types, allocations) into stable
//! human-readable descriptions. Lookups never fail: every miss has a defined
//! placeholder fallback.
use vstd::prelude::*;

use crate::text::{dec_of, str_contains, u64_to_dec, usize_to_dec};

verus! {

// =========================================================================
// Span index
// =========================================================================

/// Source location information for one span ID.
#[derive(Clone)]
pub struct SpanInfo {
    pub file: String,
    pub line_start: usize,
    pub col_start: usize,
    pub line_end: usize,
    pub col_end: usize,
}

/// The value for `id` among `entries`, the latest entry winning.
pub open spec fn spec_span_lookup(entries: Seq<(usize, SpanInfo)>, id: usize) -> Option<SpanInfo>
    decreases entries.len(),
{
    if entries.len() == 0 {
        None
    } else if entries.last().0 == id {
        Some(entries.last().1)
    } else {
        spec_span_lookup(entries.drop_last(), id)
    }
}

/// Index for looking up span/source location information by span ID.
pub struct SpanIndex {
    pub by_id: Vec<(usize, SpanInfo)>,
}

impl SpanIndex {
    /// An empty index: every lookup misses.
    pub fn new() -> (r: SpanIndex)
        ensures
            r.by_id@.len() == 0,
    {
        SpanIndex { by_id: Vec::new() }
    }

    /// Build the index from the flat span table in one pass.
    pub fn from_spans(spans: Vec<(usize, SpanInfo)>) -> (r: SpanIndex)
        ensures
            r.by_id@ == spans@,
    {
        SpanIndex { by_id: spans }
    }

    /// Look up a span by ID; a duplicate ID resolves to its latest entry.
    pub fn get(&self, span_id: usize) -> (r: Option<&SpanInfo>)
        ensures
            (r is Some) == (spec_span_lookup(self.by_id@, span_id) is Some),
            r matches Some(v) ==> spec_span_lookup(self.by_id@, span_id) == Some(*v),
    {
        let n = self.by_id.len();
        let mut i: usize = n;
        proof {
            assert(self.by_id@.take(n as int) =~= self.by_id@);
        }
        while i > 0
            invariant
                i <= n,
                n == self.by_id@.len(),
                spec_span_lookup(self.by_id@, span_id) == spec_span_lookup(
                    self.by_id@.take(i as int),
                    span_id,
                ),
            decreases i,
        {
            if self.by_id[i - 1].0 == span_id {
                proof {
                    assert(self.by_id@.take(i as int).last() == self.by_id@[i - 1]);
                }
                return Some(&self.by_id[i - 1].1);
            }
            proof {
                assert(self.by_id@.take(i as int).drop_last() =~= self.by_id@.take(i - 1));
            }
            i = i - 1;
        }
        proof {
            assert(self.by_id@.take(0) =~= Seq::<(usize, SpanInfo)>::empty());
        }
        None
    }
}

// =========================================================================
// Type index
// =========================================================================

/// The producer-supplied metadata of one type-table entry. Shapes whose
/// display the producer derives (arrays, pointers, references, tuples)
/// carry their rendered name.
#[derive(Clone)]
pub enum TypeMetadata {
    PrimitiveType(String),
    EnumType { name: String },
    StructType { name: String },
    UnionType { name: String },
    ArrayType { name: String },
    PtrType { name: String },
    RefType { name: String },
    TupleType { name: String },
    FunType(String),
    VoidType,
}

/// The display name an entry's metadata yields.
pub open spec fn spec_type_name_of(m: TypeMetadata) -> Seq<char> {
    match m {
        TypeMetadata::PrimitiveType(name) => name@,
        TypeMetadata::EnumType { name } => name@,
        TypeMetadata::StructType { name } => name@,
        TypeMetadata::UnionType { name } => name@,
        TypeMetadata::ArrayType { name } => name@,
        TypeMetadata::PtrType { name } => name@,
        TypeMetadata::RefType { name } => name@,
        TypeMetadata::TupleType { name } => name@,
        TypeMetadata::FunType(name) => name@,
        TypeMetadata::VoidType => "()"@,
    }
}

/// The stored name for `id` among `entries`, the latest entry winning.
pub open spec fn spec_type_lookup(entries: Seq<(u64, Seq<char>)>, id: u64) -> Option<Seq<char>>
    decreases entries.len(),
{
    if entries.len() == 0 {
        None
    } else if entries.last().0 == id {
        Some(entries.last().1)
    } else {
        spec_type_lookup(entries.drop_last(), id)
    }
}

/// The placeholder label for a type ID that no entry resolves.
pub open spec fn spec_type_fallback(id: u64) -> Seq<char> {
    "ty"@ + dec_of(id as nat)
}

/// The display name of type `id`: its stored name, or the placeholder.
pub open spec fn spec_type_name(entries: Seq<(u64, Seq<char>)>, id: u64) -> Seq<char> {
    match spec_type_lookup(entries, id) {
        Some(name) => name,
        None => spec_type_fallback(id),
    }
}

/// Index for looking up type display names by type ID.
pub struct TypeIndex {
    pub by_id: Vec<(u64, String)>,
}

/// The view of the stored table: IDs with name views.
pub open spec fn type_entries_view(v: Seq<(u64, String)>) -> Seq<(u64, Seq<char>)> {
    v.map_values(|p: (u64, String)| (p.0, p.1@))
}

impl TypeIndex {
    /// An empty index: every lookup yields the placeholder.
    pub fn new() -> (r: TypeIndex)
        ensures
            r.by_id@.len() == 0,
    {
        TypeIndex { by_id: Vec::new() }
    }

    /// Build the index from the flat type table in one pass.
    pub fn from_types(types: &Vec<(u64, TypeMetadata)>) -> (r: TypeIndex)
        ensures
            type_entries_view(r.by_id@) == types@.map_values(
                |p: (u64, TypeMetadata)| (p.0, spec_type_name_of(p.1)),
            ),
    {
        let mut by_id: Vec<(u64, String)> = Vec::new();
        let n = types.len();
        let mut i: usize = 0;
        while i < n
            invariant
                i <= n,
                n == types@.len(),
                by_id@.len() == i,
                type_entries_view(by_id@) =~= types@.take(i as int).map_values(
                    |p: (u64, TypeMetadata)| (p.0, spec_type_name_of(p.1)),
                ),
            decreases n - i,
        {
            let id = types[i].0;
            let name = Self::type_name_from_metadata(&types[i].1);
            let ghost prev = by_id@;
            by_id.push((id, name));
            proof {
                let f = |p: (u64, TypeMetadata)| (p.0, spec_type_name_of(p.1));
                assert forall |k: int| 0 <= k < i + 1 implies type_entries_view(by_id@)[k]
                    == types@.take(i + 1).map_values(f)[k] by {
                    if k < i {
                        assert(type_entries_view(prev)[k] == types@.take(i as int).map_values(
                            f,
                        )[k]);
                        assert(by_id@[k] == prev[k]);
                        assert(types@.take(i + 1)[k] == types@.take(i as int)[k]);
                    } else {
                        assert(by_id@[k] == (id, name));
                        assert(types@.take(i + 1)[k] == types@[k]);
                    }
                }
                assert(type_entries_view(by_id@) =~= types@.take(i + 1).map_values(f));
            }
            i = i + 1;
        }
        proof {
            assert(types@.take(n as int) =~= types@);
        }
        TypeIndex { by_id }
    }

    fn type_name_from_metadata(metadata: &TypeMetadata) -> (r: String)
        ensures
            r@ == spec_type_name_of(*metadata),
    {
        match metadata {
            TypeMetadata::PrimitiveType(name) => name.clone(),
            TypeMetadata::EnumType { name } => name.clone(),
            TypeMetadata::StructType { name } => name.clone(),
            TypeMetadata::UnionType { name } => name.clone(),
            TypeMetadata::ArrayType { name } => name.clone(),
            TypeMetadata::PtrType { name } => name.clone(),
            TypeMetadata::RefType { name } => name.clone(),
            TypeMetadata::TupleType { name } => name.clone(),
            TypeMetadata::FunType(name) => name.clone(),
            TypeMetadata::VoidType => String::from_str("()"),
        }
    }

    /// The display name of type `id`: its stored name, or a placeholder tag
    /// when no entry resolves it.
    pub fn get_name(&self, ty: u64) -> (r: String)
        ensures
            r@ == spec_type_name(type_entries_view(self.by_id@), ty),
    {
        let n = self.by_id.len();
        let ghost entries = type_entries_view(self.by_id@);
        let mut i: usize = n;
        proof {
            assert(entries.take(n as int) =~= entries);
        }
        while i > 0
            invariant
                i <= n,
                n == self.by_id@.len(),
                entries == type_entries_view(self.by_id@),
                entries.len() == n,
                spec_type_lookup(entries, ty) == spec_type_lookup(entries.take(i as int), ty),
            decreases i,
        {
            proof {
                assert(entries.take(i as int).last() == entries[i - 1]);
                assert(entries.take(i as int).drop_last() =~= entries.take(i - 1));
            }
            if self.by_id[i - 1].0 == ty {
                return self.by_id[i - 1].1.clone();
            }
            i = i - 1;
        }
        proof {
            assert(entries.take(0) =~= Seq::<(u64, Seq<char>)>::empty());
        }
        let mut r = String::from_str("ty");
        let tail = u64_to_dec(ty);
        r.append(tail.as_str());
        proof {
            assert(r@ =~= spec_type_fallback(ty));
        }
        r
    }
}


// =========================================================================
// Alloc index
// =========================================================================

/// Maximum characters to show when previewing string content.
pub const MAX_STRING_PREVIEW_LEN: usize = 20;

/// Maximum bytes that can be displayed as a single numeric value.
pub const MAX_NUMERIC_BYTES: usize = 8;

/// The producer-supplied payload of one allocation-table entry, as plain
/// values: raw bytes with their pointer provenance, or a named static,
/// vtable or function.
#[derive(Clone)]
pub enum GlobalAllocInfo {
    Memory { bytes: Vec<Option<u8>>, ptrs: Vec<(usize, u64)> },
    Static { name: String },
    VTable { ty_name: String, trait_name: Option<String> },
    Function { name: String },
}

/// One allocation-table entry as the producer supplies it.
#[derive(Clone)]
pub struct AllocInfo {
    pub alloc_id: u64,
    pub ty: u64,
    pub payload: GlobalAllocInfo,
}

/// Simplified allocation kind for display.
#[derive(Clone)]
pub enum AllocKind {
    Memory { bytes_len: usize, is_str: bool },
    Static { name: String },
    VTable { ty_desc: String },
    Function { name: String },
}

/// Processed allocation entry with human-readable description.
#[derive(Clone)]
pub struct AllocEntry {
    pub alloc_id: u64,
    pub ty: u64,
    pub kind: AllocKind,
    pub description: String,
    /// IDs of allocs referenced via provenance (for nested traversal).
    pub referenced_allocs: Vec<u64>,
}

/// The label for an allocation ID.
pub open spec fn spec_alloc_label(id: u64) -> Seq<char> {
    "alloc"@ + crate::text::dec_of(id as nat)
}

/// Format an allocation ID as a label.
pub fn alloc_label(id: u64) -> (r: String)
    ensures
        r@ == spec_alloc_label(id),
{
    let mut r = String::from_str("alloc");
    let d = u64_to_dec(id);
    r.append(d.as_str());
    proof {
        assert(r@ =~= spec_alloc_label(id));
    }
    r
}

// ---- Building an entry's description --------------------------------------

/// The byte a maybe-initialized entry contributes: one byte when present.
pub open spec fn opt_byte(x: Option<u8>) -> Seq<u8> {
    match x {
        Some(b) => seq![b],
        None => Seq::empty(),
    }
}

/// The initialized bytes of an allocation, in order.
pub open spec fn concrete_of(bytes: Seq<Option<u8>>) -> Seq<u8>
    decreases bytes.len(),
{
    if bytes.len() == 0 {
        Seq::empty()
    } else {
        concrete_of(bytes.drop_last()) + opt_byte(bytes.last())
    }
}

pub(crate) fn concrete_bytes(bytes: &Vec<Option<u8>>) -> (r: Vec<u8>)
    ensures
        r@ == concrete_of(bytes@),
{
    let n = bytes.len();
    let mut r: Vec<u8> = Vec::new();
    let mut i: usize = 0;
    proof {
        assert(bytes@.take(0) =~= Seq::<Option<u8>>::empty());
        assert(r@ =~= concrete_of(bytes@.take(0)));
    }
    while i < n
        invariant
            i <= n,
            n == bytes@.len(),
            r@ == concrete_of(bytes@.take(i as int)),
        decreases n - i,
    {
        proof {
            assert(bytes@.take(i + 1).drop_last() =~= bytes@.take(i as int));
            assert(bytes@.take(i + 1).last() == bytes@[i as int]);
        }
        let ghost prev = r@;
        if let Some(b) = bytes[i] {
            r.push(b);
        }
        proof {
            assert(r@ =~= prev + opt_byte(bytes@[i as int]));
        }
        i = i + 1;
    }
    proof {
        assert(bytes@.take(n as int) =~= bytes@);
    }
    r
}

/// All bytes are ASCII (below 128).
pub open spec fn all_ascii(s: Seq<u8>) -> bool {
    forall |i: int| 0 <= i < s.len() ==> #[trigger] s[i] < 128
}

fn check_all_ascii(s: &Vec<u8>) -> (r: bool)
    ensures
        r == all_ascii(s@),
{
    let n = s.len();
    let mut i: usize = 0;
    while i < n
        invariant
            i <= n,
            n == s@.len(),
            forall |k: int| 0 <= k < i ==> #[trigger] s@[k] < 128,
        decreases n - i,
    {
        if s[i] >= 128 {
            return false;
        }
        i = i + 1;
    }
    true
}

/// The default-escaped form of an ASCII byte, as `escape_default` renders a
/// character: named escapes for tab, carriage return, newline, backslash and
/// both quotes, the character itself for other printable bytes, and a
/// braced hex escape for the remaining control bytes.
pub open spec fn esc_byte(b: u8) -> Seq<char> {
    if b == 9 {
        "\\t"@
    } else if b == 13 {
        "\\r"@
    } else if b == 10 {
        "\\n"@
    } else if b == 92 {
        "\\\\"@
    } else if b == 39 {
        "\\'"@
    } else if b == 34 {
        "\\\""@
    } else if 32 <= b && b <= 126 {
        seq![b as char]
    } else {
        "\\u{"@ + crate::text::hex_of(b as nat) + "}"@
    }
}

/// The escaped preview of a byte sequence.
pub open spec fn preview_of(s: Seq<u8>) -> Seq<char>
    decreases s.len(),
{
    if s.len() == 0 {
        Seq::empty()
    } else {
        preview_of(s.drop_last()) + esc_byte(s.last())
    }
}

fn push_esc_byte(out: &mut String, b: u8)
    ensures
        final(out)@ == old(out)@ + esc_byte(b),
{
    if b == 9 {
        out.append("\\t");
    } else if b == 13 {
        out.append("\\r");
    } else if b == 10 {
        out.append("\\n");
    } else if b == 92 {
        out.append("\\\\");
    } else if b == 39 {
        out.append("\\'");
    } else if b == 34 {
        out.append("\\\"");
    } else if 32 <= b && b <= 126 {
        crate::text::push_char(out, b as char);
        proof {
            assert(out@ =~= old(out)@ + esc_byte(b));
        }
    } else {
        out.append("\\u{");
        let h = crate::text::u64_to_hex(b as u64);
        out.append(h.as_str());
        out.append("}");
        proof {
            assert(out@ =~= old(out)@ + esc_byte(b));
        }
    }
}

fn build_preview(s: &Vec<u8>, upto: usize) -> (r: String)
    requires
        upto <= s@.len(),
    ensures
        r@ == preview_of(s@.take(upto as int)),
{
    let mut r = String::new();
    let mut i: usize = 0;
    proof {
        assert(s@.take(0) =~= Seq::<u8>::empty());
    }
    while i < upto
        invariant
            i <= upto,
            upto <= s@.len(),
            r@ == preview_of(s@.take(i as int)),
        decreases upto - i,
    {
        proof {
            assert(s@.take(i + 1).drop_last() =~= s@.take(i as int));
            assert(s@.take(i + 1).last() == s@[i as int]);
        }
        push_esc_byte(&mut r, s[i]);
        i = i + 1;
    }
    r
}

/// The description of a memory allocation, given its type's display name.
pub open spec fn spec_memory_desc(ty_name: Seq<char>, bytes: Seq<Option<u8>>) -> Seq<char> {
    let concrete = concrete_of(bytes);
    if crate::text::has_substring(ty_name, "str"@) && all_ascii(concrete) {
        let p = preview_of(if concrete.len() > 20 { concrete.take(20) } else { concrete });
        if concrete.len() > 20 {
            "\""@ + p + "...\" ("@ + crate::text::dec_of(concrete.len()) + " bytes)"@
        } else {
            "\""@ + p + "\""@
        }
    } else if 0 < concrete.len() && concrete.len() <= 8 {
        ty_name + " = "@ + crate::text::dec_of(crate::util::le_value(concrete))
    } else {
        ty_name + " ("@ + crate::text::dec_of(bytes.len()) + " bytes)"@
    }
}

/// The referenced allocation IDs an entry records.
pub open spec fn spec_entry_refs(payload: GlobalAllocInfo) -> Seq<u64> {
    match payload {
        GlobalAllocInfo::Memory { bytes: _, ptrs } => ptrs@.map_values(|p: (usize, u64)| p.1),
        _ => Seq::empty(),
    }
}

/// The description an entry earns from its payload.
pub open spec fn spec_entry_desc(payload: GlobalAllocInfo, ty_name: Seq<char>) -> Seq<char> {
    match payload {
        GlobalAllocInfo::Memory { bytes, ptrs: _ } => spec_memory_desc(ty_name, bytes@),
        GlobalAllocInfo::Static { name } => "static "@ + name@,
        GlobalAllocInfo::VTable { ty_name: vty, trait_name } => "vtable<"@ + (match trait_name {
            Some(tn) => vty@ + " as "@ + tn@,
            None => vty@,
        }) + ">"@,
        GlobalAllocInfo::Function { name } => "fn "@ + name@,
    }
}

/// The simplified kind the entry for `payload` must carry, comparing
/// strings by their characters.
pub open spec fn spec_kind_ok(k: AllocKind, payload: GlobalAllocInfo, ty_name: Seq<char>) -> bool {
    match (k, payload) {
        (AllocKind::Memory { bytes_len, is_str }, GlobalAllocInfo::Memory { bytes, ptrs: _ }) => {
            &&& bytes_len == bytes@.len()
            &&& is_str == crate::text::has_substring(ty_name, "str"@)
        },
        (AllocKind::Static { name: a }, GlobalAllocInfo::Static { name: b }) => a@ == b@,
        (AllocKind::VTable { ty_desc }, GlobalAllocInfo::VTable { ty_name: vty, trait_name }) => ty_desc@
            == (match trait_name {
            Some(tn) => vty@ + " as "@ + tn@,
            None => vty@,
        }),
        (AllocKind::Function { name: a }, GlobalAllocInfo::Function { name: b }) => a@ == b@,
        _ => false,
    }
}

impl AllocEntry {
    /// Process one allocation-table entry: resolve its type name, extract the
    /// referenced allocation IDs from provenance, and build the description.
    pub fn from_alloc_info(info: &AllocInfo, type_index: &TypeIndex) -> (r: AllocEntry)
        ensures
            r.alloc_id == info.alloc_id,
            r.ty == info.ty,
            r.referenced_allocs@ == spec_entry_refs(info.payload),
            r.description@ == spec_entry_desc(
                info.payload,
                spec_type_name(type_entries_view(type_index.by_id@), info.ty),
            ),
            spec_kind_ok(
                r.kind,
                info.payload,
                spec_type_name(type_entries_view(type_index.by_id@), info.ty),
            ),
    {
        let ty_name = type_index.get_name(info.ty);
        match &info.payload {
            GlobalAllocInfo::Memory { bytes, ptrs } => {
                let is_str = str_contains(ty_name.as_str(), "str");
                let mut refs: Vec<u64> = Vec::new();
                let np = ptrs.len();
                let mut i: usize = 0;
                while i < np
                    invariant
                        i <= np,
                        np == ptrs@.len(),
                        refs@ =~= ptrs@.take(i as int).map_values(|p: (usize, u64)| p.1),
                    decreases np - i,
                {
                    refs.push(ptrs[i].1);
                    proof {
                        assert(refs@ =~= ptrs@.take(i + 1).map_values(|p: (usize, u64)| p.1));
                    }
                    i = i + 1;
                }
                proof {
                    assert(ptrs@.take(np as int) =~= ptrs@);
                }
                let concrete = concrete_bytes(bytes);
                let desc: String = if is_str && check_all_ascii(&concrete) {
                    let upto = if concrete.len() > MAX_STRING_PREVIEW_LEN {
                        MAX_STRING_PREVIEW_LEN
                    } else {
                        concrete.len()
                    };
                    let preview = build_preview(&concrete, upto);
                    let mut d = String::from_str("\"");
                    d.append(preview.as_str());
                    if concrete.len() > MAX_STRING_PREVIEW_LEN {
                        d.append("...\" (");
                        let cnt = usize_to_dec(concrete.len());
                        d.append(cnt.as_str());
                        d.append(" bytes)");
                    } else {
                        d.append("\"");
                    }
                    proof {
                        if concrete@.len() <= 20 {
                            assert(concrete@.take(concrete@.len() as int) =~= concrete@);
                        }
                        assert(d@ =~= spec_memory_desc(ty_name@, bytes@));
                    }
                    d
                } else if concrete.len() <= MAX_NUMERIC_BYTES && concrete.len() > 0 {
                    let mut d = ty_name.clone();
                    d.append(" = ");
                    let v = crate::util::bytes_to_u64_le(&concrete);
                    let vd = u64_to_dec(v);
                    d.append(vd.as_str());
                    proof {
                        assert(d@ =~= spec_memory_desc(ty_name@, bytes@));
                    }
                    d
                } else {
                    let mut d = ty_name.clone();
                    d.append(" (");
                    let cnt = usize_to_dec(bytes.len());
                    d.append(cnt.as_str());
                    d.append(" bytes)");
                    proof {
                        assert(d@ =~= spec_memory_desc(ty_name@, bytes@));
                    }
                    d
                };
                AllocEntry {
                    alloc_id: info.alloc_id,
                    ty: info.ty,
                    kind: AllocKind::Memory { bytes_len: bytes.len(), is_str },
                    description: desc,
                    referenced_allocs: refs,
                }
            },
            GlobalAllocInfo::Static { name } => {
                let mut d = String::from_str("static ");
                d.append(name.as_str());
                proof {
                    assert(d@ =~= spec_entry_desc(info.payload, ty_name@));
                }
                AllocEntry {
                    alloc_id: info.alloc_id,
                    ty: info.ty,
                    kind: AllocKind::Static { name: name.clone() },
                    description: d,
                    referenced_allocs: Vec::new(),
                }
            },
            GlobalAllocInfo::VTable { ty_name: vty, trait_name } => {
                let inner: String = match trait_name {
                    Some(tn) => {
                        let mut x = vty.clone();
                        x.append(" as ");
                        x.append(tn.as_str());
                        x
                    },
                    None => vty.clone(),
                };
                let mut d = String::from_str("vtable<");
                d.append(inner.as_str());
                d.append(">");
                proof {
                    assert(d@ =~= spec_entry_desc(info.payload, ty_name@));
                }
                AllocEntry {
                    alloc_id: info.alloc_id,
                    ty: info.ty,
                    kind: AllocKind::VTable { ty_desc: inner },
                    description: d,
                    referenced_allocs: Vec::new(),
                }
            },
            GlobalAllocInfo::Function { name } => {
                let mut d = String::from_str("fn ");
                d.append(name.as_str());
                proof {
                    assert(d@ =~= spec_entry_desc(info.payload, ty_name@));
                }
                AllocEntry {
                    alloc_id: info.alloc_id,
                    ty: info.ty,
                    kind: AllocKind::Function { name: name.clone() },
                    description: d,
                    referenced_allocs: Vec::new(),
                }
            },
        }
    }

    /// The short description: the allocation label followed by the entry's
    /// description.
    pub fn short_description(&self) -> (r: String)
        ensures
            r@ == spec_short_desc(*self),
    {
        let mut r = alloc_label(self.alloc_id);
        r.append(": ");
        r.append(self.description.as_str());
        proof {
            assert(r@ =~= spec_short_desc(*self));
        }
        r
    }
}

/// The short description a stored entry yields.
pub open spec fn spec_short_desc(e: AllocEntry) -> Seq<char> {
    spec_alloc_label(e.alloc_id) + ": "@ + e.description@
}


// ---- The alloc index ------------------------------------------------------

/// The entry for `id` among `entries`, the latest entry winning.
pub open spec fn spec_alloc_lookup(entries: Seq<AllocEntry>, id: u64) -> Option<AllocEntry>
    decreases entries.len(),
{
    if entries.len() == 0 {
        None
    } else if entries.last().alloc_id == id {
        Some(entries.last())
    } else {
        spec_alloc_lookup(entries.drop_last(), id)
    }
}

/// The plain description of allocation `id`: its entry's short description,
/// or the bare label when no entry resolves it.
pub open spec fn spec_describe(entries: Seq<AllocEntry>, id: u64) -> Seq<char> {
    match spec_alloc_lookup(entries, id) {
        Some(e) => spec_short_desc(e),
        None => spec_alloc_label(id),
    }
}

/// The contents of a sequence as a set.
pub open spec fn seq_set(v: Seq<u64>) -> Set<u64> {
    Set::new(|x: u64| v.contains(x))
}

/// Comma-joined parts.
pub open spec fn join_comma(parts: Seq<Seq<char>>) -> Seq<char>
    decreases parts.len(),
{
    if parts.len() == 0 {
        Seq::empty()
    } else if parts.len() == 1 {
        parts[0]
    } else {
        join_comma(parts.drop_last()) + ", "@ + parts.last()
    }
}

/// The recursive description of allocation `id`: the entry's short
/// description followed by the descriptions of the allocations it
/// references, until the depth budget runs out or an id already on the
/// visited set comes around again — the cycle guard. The pair carries the
/// visited set onward, so sibling branches never re-expand an id either.
pub open spec fn spec_desc_rec(
    entries: Seq<AllocEntry>,
    id: u64,
    depth: nat,
    visited: Set<u64>,
) -> (Seq<char>, Set<u64>)
    decreases depth, 0int, 0int,
{
    if depth == 0 || visited.contains(id) {
        (spec_describe(entries, id), visited)
    } else {
        let v2 = visited.insert(id);
        match spec_alloc_lookup(entries, id) {
            Some(e) => if e.referenced_allocs@.len() == 0 {
                (spec_short_desc(e), v2)
            } else {
                let pr = spec_desc_list(entries, e.referenced_allocs@, (depth - 1) as nat, v2);
                (spec_short_desc(e) + " -> ["@ + join_comma(pr.0) + "]"@, pr.1)
            },
            None => (spec_alloc_label(id), v2),
        }
    }
}

/// The descriptions of a list of referenced allocations, left to right,
/// threading the visited set through the siblings.
pub open spec fn spec_desc_list(
    entries: Seq<AllocEntry>,
    ids: Seq<u64>,
    depth: nat,
    visited: Set<u64>,
) -> (Seq<Seq<char>>, Set<u64>)
    decreases depth, 1int, ids.len(),
{
    if ids.len() == 0 {
        (Seq::empty(), visited)
    } else {
        let hd = spec_desc_rec(entries, ids.first(), depth, visited);
        let tl = spec_desc_list(entries, ids.drop_first(), depth, hd.1);
        (seq![hd.0] + tl.0, tl.1)
    }
}

/// A depth budget of zero yields exactly the plain description: the base
/// case of the recursive description.
pub proof fn lemma_describe_depth_zero(entries: Seq<AllocEntry>, id: u64, visited: Set<u64>)
    ensures
        spec_desc_rec(entries, id, 0, visited).0 == spec_describe(entries, id),
        spec_desc_rec(entries, id, 0, visited).1 == visited,
{
}

/// The recursive description never expands an id that is already on the
/// visited set: it falls back to the plain description, whatever the
/// remaining depth — the cycle guard.
pub proof fn lemma_describe_visited_not_expanded(
    entries: Seq<AllocEntry>,
    id: u64,
    depth: nat,
    visited: Set<u64>,
)
    requires
        visited.contains(id),
    ensures
        spec_desc_rec(entries, id, depth, visited).0 == spec_describe(entries, id),
        spec_desc_rec(entries, id, depth, visited).1 == visited,
{
}

fn vec_contains_u64(v: &Vec<u64>, x: u64) -> (r: bool)
    ensures
        r == v@.contains(x),
{
    let n = v.len();
    let mut i: usize = 0;
    while i < n
        invariant
            i <= n,
            n == v@.len(),
            forall |k: int| 0 <= k < i ==> v@[k] != x,
        decreases n - i,
    {
        if v[i] == x {
            return true;
        }
        i = i + 1;
    }
    false
}

/// One processed allocation entry matches one table entry.
pub open spec fn entry_ok(e: AllocEntry, info: AllocInfo, tyname: Seq<char>) -> bool {
    &&& e.alloc_id == info.alloc_id
    &&& e.ty == info.ty
    &&& e.referenced_allocs@ == spec_entry_refs(info.payload)
    &&& e.description@ == spec_entry_desc(info.payload, tyname)
    &&& spec_kind_ok(e.kind, info.payload, tyname)
}

/// Index for looking up allocation information by allocation ID.
pub struct AllocIndex {
    pub by_id: Vec<AllocEntry>,
}

impl AllocIndex {
    /// An empty index: every lookup misses and every description falls back
    /// to the bare label.
    pub fn new() -> (r: AllocIndex)
        ensures
            r.by_id@.len() == 0,
    {
        AllocIndex { by_id: Vec::new() }
    }

    /// Build the index from the flat allocation table in one pass.
    pub fn from_alloc_infos(allocs: &Vec<AllocInfo>, type_index: &TypeIndex) -> (r: AllocIndex)
        ensures
            r.by_id@.len() == allocs@.len(),
            forall |k: int|
                0 <= k < allocs@.len() ==> entry_ok(
                    #[trigger] r.by_id@[k],
                    allocs@[k],
                    spec_type_name(type_entries_view(type_index.by_id@), allocs@[k].ty),
                ),
    {
        let n = allocs.len();
        let mut by_id: Vec<AllocEntry> = Vec::new();
        let mut i: usize = 0;
        while i < n
            invariant
                i <= n,
                n == allocs@.len(),
                by_id@.len() == i,
                forall |k: int|
                    0 <= k < i ==> entry_ok(
                        #[trigger] by_id@[k],
                        allocs@[k],
                        spec_type_name(type_entries_view(type_index.by_id@), allocs@[k].ty),
                    ),
            decreases n - i,
        {
            let entry = AllocEntry::from_alloc_info(&allocs[i], type_index);
            by_id.push(entry);
            i = i + 1;
        }
        AllocIndex { by_id }
    }

    /// Look up an entry by allocation ID; a duplicate ID resolves to its
    /// latest entry.
    pub fn get(&self, id: u64) -> (r: Option<&AllocEntry>)
        ensures
            (r is Some) == (spec_alloc_lookup(self.by_id@, id) is Some),
            r matches Some(v) ==> spec_alloc_lookup(self.by_id@, id) == Some(*v),
    {
        let n = self.by_id.len();
        let mut i: usize = n;
        proof {
            assert(self.by_id@.take(n as int) =~= self.by_id@);
        }
        while i > 0
            invariant
                i <= n,
                n == self.by_id@.len(),
                spec_alloc_lookup(self.by_id@, id) == spec_alloc_lookup(
                    self.by_id@.take(i as int),
                    id,
                ),
            decreases i,
        {
            if self.by_id[i - 1].alloc_id == id {
                proof {
                    assert(self.by_id@.take(i as int).last() == self.by_id@[i - 1]);
                }
                return Some(&self.by_id[i - 1]);
            }
            proof {
                assert(self.by_id@.take(i as int).drop_last() =~= self.by_id@.take(i - 1));
            }
            i = i - 1;
        }
        proof {
            assert(self.by_id@.take(0) =~= Seq::<AllocEntry>::empty());
        }
        None
    }

    /// The stored entries, in table order.
    pub fn iter(&self) -> (r: &Vec<AllocEntry>)
        ensures
            r@ == self.by_id@,
    {
        &self.by_id
    }

    /// Describe an alloc by its ID for use in labels — never fails: an
    /// unknown ID yields its bare label.
    pub fn describe(&self, id: u64) -> (r: String)
        ensures
            r@ == spec_describe(self.by_id@, id),
    {
        match self.get(id) {
            Some(entry) => entry.short_description(),
            None => alloc_label(id),
        }
    }

    /// Describe an alloc with its nested references, depth-limited to avoid
    /// explosion and guarded against cycles by a per-call visited set.
    pub fn describe_with_refs(&self, id: u64, max_depth: usize) -> (r: String)
        ensures
            r@ == spec_desc_rec(self.by_id@, id, max_depth as nat, Set::empty()).0,
    {
        let mut visited: Vec<u64> = Vec::new();
        proof {
            assert(seq_set(visited@) =~= Set::<u64>::empty());
        }
        self.describe_recursive(id, max_depth, &mut visited)
    }

    fn describe_recursive(&self, id: u64, depth: usize, visited: &mut Vec<u64>) -> (r: String)
        ensures
            r@ == spec_desc_rec(self.by_id@, id, depth as nat, seq_set(old(visited)@)).0,
            seq_set(final(visited)@) == spec_desc_rec(
                self.by_id@,
                id,
                depth as nat,
                seq_set(old(visited)@),
            ).1,
        decreases depth,
    {
        if depth == 0 || vec_contains_u64(visited, id) {
            return self.describe(id);
        }
        visited.push(id);
        let ghost v2 = seq_set(visited@);
        proof {
            assert forall |x: u64| #![auto] seq_set(visited@).contains(x) <==> (seq_set(
                old(visited)@,
            ).insert(id).contains(x)) by {
                if visited@.contains(x) {
                    let ix = choose |ix: int| 0 <= ix < visited@.len() && visited@[ix] == x;
                    if ix < old(visited)@.len() {
                        assert(old(visited)@[ix] == x);
                    } else {
                        assert(x == id);
                    }
                }
                if old(visited)@.contains(x) {
                    let ix = choose |ix: int|
                        0 <= ix < old(visited)@.len() && old(visited)@[ix] == x;
                    assert(visited@[ix] == x);
                }
                if x == id {
                    assert(visited@[visited@.len() - 1] == x);
                }
            }
            assert(v2 =~= seq_set(old(visited)@).insert(id));
        }
        match self.get(id) {
            Some(entry) => {
                let nrefs = entry.referenced_allocs.len();
                if nrefs == 0 {
                    entry.short_description()
                } else {
                    let ghost ids = entry.referenced_allocs@;
                    let ghost all = spec_desc_list(self.by_id@, ids, (depth - 1) as nat, v2);
                    let mut joined = String::new();
                    let ghost mut parts_done: Seq<Seq<char>> = Seq::empty();
                    let mut i: usize = 0;
                    proof {
                        assert(ids.skip(0) =~= ids);
                    }
                    let ghost self_entries = self.by_id@;
                    while i < nrefs
                        invariant
                            i <= nrefs,
                            self_entries == self.by_id@,
                            nrefs == ids.len(),
                            ids == entry.referenced_allocs@,
                            depth >= 1,
                            parts_done.len() == i,
                            all == spec_desc_list(self_entries, ids, (depth - 1) as nat, v2),
                            all.0 == parts_done + spec_desc_list(
                                self_entries,
                                ids.skip(i as int),
                                (depth - 1) as nat,
                                seq_set(visited@),
                            ).0,
                            all.1 == spec_desc_list(
                                self_entries,
                                ids.skip(i as int),
                                (depth - 1) as nat,
                                seq_set(visited@),
                            ).1,
                            joined@ == join_comma(parts_done),
                        decreases nrefs - i,
                    {
                        proof {
                            assert(ids.skip(i as int).first() == ids[i as int]);
                            assert(ids.skip(i as int).drop_first() =~= ids.skip(i + 1));
                        }
                        let rid = entry.referenced_allocs[i];
                        let part = self.describe_recursive(rid, depth - 1, visited);
                        if i > 0 {
                            joined.append(", ");
                        }
                        joined.append(part.as_str());
                        proof {
                            let prev_parts = parts_done;
                            parts_done = prev_parts.push(part@);
                            assert(parts_done.drop_last() =~= prev_parts);
                            assert(parts_done.last() == part@);
                            if i == 0 {
                                assert(join_comma(parts_done) == part@);
                            } else {
                                assert(join_comma(parts_done) == join_comma(prev_parts) + ", "@
                                    + part@);
                            }
                            assert(joined@ =~= join_comma(parts_done));
                        }
                        i = i + 1;
                    }
                    proof {
                        assert(ids.skip(nrefs as int) =~= Seq::<u64>::empty());
                        assert(all.0 =~= parts_done);
                    }
                    let mut r = entry.short_description();
                    r.append(" -> [");
                    r.append(joined.as_str());
                    r.append("]");
                    proof {
                        assert(r@ =~= spec_desc_rec(
                            self.by_id@,
                            id,
                            depth as nat,
                            seq_set(old(visited)@),
                        ).0);
                    }
                    r
                }
            },
            None => alloc_label(id),
        }
    }
}

} // verus!
