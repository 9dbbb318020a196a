//! Utility functions for graph generation: terminator targets, display
//! names, label escaping for the diagram formats, and byte readings.
use vstd::prelude::*;

use crate::ir::{PlaceData, ProjElem, Term, spec_targets};
use crate::text::{
    dec_of, has_substring, hex_of, push_char, str_contains, u64_to_dec, u64_to_hex, usize_to_dec,
};
use vstd::string::StringSliceAdditionalSpecFns;

verus! {

// =========================================================================
// Byte readings
// =========================================================================

/// Little-endian value of a byte sequence: the first byte is least
/// significant.
pub open spec fn le_value(bytes: Seq<u8>) -> nat
    decreases bytes.len(),
{
    if bytes.len() == 0 {
        0
    } else {
        bytes[0] as nat + 256 * le_value(bytes.drop_first())
    }
}

/// 256 to the power k, the exclusive upper bound of a k-byte little-endian
/// value.
pub open spec fn pow256(k: nat) -> nat
    decreases k,
{
    if k == 0 {
        1
    } else {
        256 * pow256((k - 1) as nat)
    }
}

pub(crate) proof fn lemma_le_value_bound(bytes: Seq<u8>)
    ensures
        le_value(bytes) < pow256(bytes.len()),
    decreases bytes.len(),
{
    if bytes.len() > 0 {
        lemma_le_value_bound(bytes.drop_first());
    }
}

proof fn lemma_pow256_values()
    ensures
        pow256(7) == 0x100000000000000,
        pow256(8) == 0x10000000000000000,
{
    assert(pow256(0) == 1);
    assert(pow256(1) == 256);
    assert(pow256(2) == 0x10000);
    assert(pow256(3) == 0x1000000);
    assert(pow256(4) == 0x100000000);
    assert(pow256(5) == 0x10000000000);
    assert(pow256(6) == 0x1000000000000);
    assert(pow256(7) == 0x100000000000000);
    assert(pow256(8) == 0x10000000000000000);
}

proof fn lemma_pow256_monotonic(a: nat, b: nat)
    requires
        a <= b,
    ensures
        pow256(a) <= pow256(b),
    decreases b,
{
    if a < b {
        lemma_pow256_monotonic(a, (b - 1) as nat);
        assert(pow256(b) == 256 * pow256((b - 1) as nat));
        assert(pow256((b - 1) as nat) <= 256 * pow256((b - 1) as nat)) by (nonlinear_arith)
            requires
                pow256((b - 1) as nat) >= 0,
        ;
    }
}

/// Convert a byte slice to u64, little-endian (least significant byte
/// first).
pub fn bytes_to_u64_le(bytes: &Vec<u8>) -> (r: u64)
    requires
        bytes@.len() <= 8,
    ensures
        r == le_value(bytes@),
{
    let n = bytes.len();
    let mut r: u64 = 0;
    let mut i: usize = n;
    proof {
        assert(bytes@.subrange(n as int, n as int) =~= Seq::<u8>::empty());
    }
    while i > 0
        invariant
            i <= n,
            n == bytes@.len() <= 8,
            r == le_value(bytes@.subrange(i as int, n as int)),
        decreases i,
    {
        let b = bytes[i - 1];
        proof {
            let tail = bytes@.subrange(i as int, n as int);
            let whole = bytes@.subrange(i - 1, n as int);
            assert(whole.drop_first() =~= tail);
            assert(le_value(whole) == b as nat + 256 * le_value(tail));
            lemma_le_value_bound(tail);
            assert(pow256(tail.len()) <= pow256(7)) by {
                assert(tail.len() <= 7);
                lemma_pow256_monotonic(tail.len(), 7);
            }
            assert(256 * le_value(tail) <= 256 * (pow256(7) - 1)) by (nonlinear_arith)
                requires
                    le_value(tail) <= pow256(7) - 1,
            ;
            lemma_pow256_values();
        }
        r = r * 256 + (b as u64);
        i = i - 1;
    }
    proof {
        assert(bytes@.subrange(0, n as int) =~= bytes@);
    }
    r
}

// =========================================================================
// Terminator helpers
// =========================================================================

/// Get target block indices from a terminator.
pub fn terminator_targets(term: &Term) -> (r: Vec<usize>)
    ensures
        r@ == spec_targets(term.kind),
{
    crate::traversal::get_terminator_targets(term)
}

// =========================================================================
// Graph label trait
// =========================================================================

/// Rendering things as part of graph node labels.
pub trait GraphLabelString {
    /// The characters the label owes.
    spec fn spec_label(&self) -> Seq<char>;

    /// Render the label.
    fn label(&self) -> (r: String)
        ensures
            r@ == self.spec_label(),
    ;
}

/// One projection step applied to a graph label, with the richer display
/// the diagram labels use.
pub open spec fn label_proj_str(inner: Seq<char>, p: ProjElem) -> Seq<char> {
    match p {
        ProjElem::Deref => "(*"@ + inner + ")"@,
        ProjElem::Field(i) => inner + "."@ + dec_of(i as nat),
        ProjElem::Index(l) => inner + "[_"@ + dec_of(l as nat) + "]"@,
        ProjElem::ConstantIndex { offset, from_end } => inner + "["@ + (if from_end {
            "-"@
        } else {
            ""@
        }) + dec_of(offset as nat) + "]"@,
        ProjElem::Subslice { from, to, from_end } => inner + "["@ + dec_of(from as nat) + ".."@
            + (if from_end {
            "-"@
        } else {
            ""@
        }) + dec_of(to as nat) + "]"@,
        ProjElem::Downcast(i) => "("@ + inner + " as variant "@ + dec_of(i as nat) + ")"@,
        ProjElem::OpaqueCast(ty) => inner + " as type "@ + crate::render::ty_tag(ty),
        ProjElem::Subtype(ty) => inner + " :> "@ + crate::render::ty_tag(ty),
    }
}

pub open spec fn label_place_rec(local: usize, projs: Seq<ProjElem>) -> Seq<char>
    decreases projs.len(),
{
    if projs.len() == 0 {
        dec_of(local as nat)
    } else {
        label_proj_str(label_place_rec(local, projs.drop_last()), projs.last())
    }
}

impl GraphLabelString for PlaceData {
    open spec fn spec_label(&self) -> Seq<char> {
        label_place_rec(self.local, self.projection@)
    }

    fn label(&self) -> (r: String)
        ensures
            r@ == self.spec_label(),
    {
        let mut r = usize_to_dec(self.local);
        proof {
            assert(self.projection@.take(0) =~= Seq::<ProjElem>::empty());
            assert(r@ =~= label_place_rec(self.local, self.projection@.take(0)));
        }
        let n = self.projection.len();
        let mut i: usize = 0;
        while i < n
            invariant
                i <= n,
                n == self.projection@.len(),
                r@ == label_place_rec(self.local, self.projection@.take(i as int)),
            decreases n - i,
        {
            proof {
                assert(self.projection@.take(i + 1).drop_last() =~= self.projection@.take(
                    i as int,
                ));
                assert(self.projection@.take(i + 1).last() == self.projection@[i as int]);
            }
            match &self.projection[i] {
                ProjElem::Deref => {
                    let mut t = String::from_str("(*");
                    t.append(r.as_str());
                    t.append(")");
                    r = t;
                },
                ProjElem::Field(ix) => {
                    r.append(".");
                    let d = usize_to_dec(*ix);
                    r.append(d.as_str());
                },
                ProjElem::Index(l) => {
                    r.append("[_");
                    let d = usize_to_dec(*l);
                    r.append(d.as_str());
                    r.append("]");
                },
                ProjElem::ConstantIndex { offset, from_end } => {
                    r.append("[");
                    if *from_end {
                        r.append("-");
                    }
                    let d = u64_to_dec(*offset);
                    r.append(d.as_str());
                    r.append("]");
                },
                ProjElem::Subslice { from, to, from_end } => {
                    r.append("[");
                    let d0 = u64_to_dec(*from);
                    r.append(d0.as_str());
                    r.append("..");
                    if *from_end {
                        r.append("-");
                    }
                    let d1 = u64_to_dec(*to);
                    r.append(d1.as_str());
                    r.append("]");
                },
                ProjElem::Downcast(ix) => {
                    let mut t = String::from_str("(");
                    t.append(r.as_str());
                    t.append(" as variant ");
                    let d = usize_to_dec(*ix);
                    t.append(d.as_str());
                    t.append(")");
                    r = t;
                },
                ProjElem::OpaqueCast(ty) => {
                    r.append(" as type ");
                    r.append("ty");
                    let d = u64_to_dec(*ty);
                    r.append(d.as_str());
                },
                ProjElem::Subtype(ty) => {
                    r.append(" :> ");
                    r.append("ty");
                    let d = u64_to_dec(*ty);
                    r.append(d.as_str());
                },
            }
            proof {
                reveal_strlit("");
                reveal_strlit("-");
                assert(r@ =~= label_place_rec(self.local, self.projection@.take(i + 1)));
            }
            i = i + 1;
        }
        proof {
            assert(self.projection@.take(n as int) =~= self.projection@);
        }
        r
    }
}

impl GraphLabelString for crate::ir::AggregateInfo {
    open spec fn spec_label(&self) -> Seq<char> {
        crate::render::agg_label(*self)
    }

    fn label(&self) -> (r: String)
        ensures
            r@ == self.spec_label(),
    {
        match self {
            crate::ir::AggregateInfo::Array => String::from_str("Array"),
            crate::ir::AggregateInfo::Tuple => String::from_str("Tuple"),
            crate::ir::AggregateInfo::Adt(i) => {
                let mut r = String::from_str("Adt{");
                let d = usize_to_dec(*i);
                r.append(d.as_str());
                r.append("}");
                proof {
                    assert(r@ =~= self.spec_label());
                }
                r
            },
            crate::ir::AggregateInfo::Closure => String::from_str("Closure"),
            crate::ir::AggregateInfo::Coroutine => String::from_str("Coroutine"),
            crate::ir::AggregateInfo::RawPtrMut(ty) => {
                let mut r = String::from_str("*mut (");
                r.append(ty.as_str());
                r.append(")");
                proof {
                    assert(r@ =~= self.spec_label());
                }
                r
            },
            crate::ir::AggregateInfo::RawPtrConst(ty) => {
                let mut r = String::from_str("*(");
                r.append(ty.as_str());
                r.append(")");
                proof {
                    assert(r@ =~= self.spec_label());
                }
                r
            },
        }
    }
}

/// The label of a nullary operation: a named form for field offsets, the
/// plain variant name otherwise.
pub open spec fn spec_nullop_label(op: crate::ir::NullOpInfo) -> Seq<char> {
    match op {
        crate::ir::NullOpInfo::OffsetOf => "OffsetOf(..)"@,
        crate::ir::NullOpInfo::SizeOf => "SizeOf"@,
        crate::ir::NullOpInfo::AlignOf => "AlignOf"@,
        crate::ir::NullOpInfo::UbChecks => "UbChecks"@,
    }
}

impl GraphLabelString for crate::ir::NullOpInfo {
    open spec fn spec_label(&self) -> Seq<char> {
        spec_nullop_label(*self)
    }

    fn label(&self) -> (r: String)
        ensures
            r@ == self.spec_label(),
    {
        match self {
            crate::ir::NullOpInfo::OffsetOf => String::from_str("OffsetOf(..)"),
            crate::ir::NullOpInfo::SizeOf => String::from_str("SizeOf"),
            crate::ir::NullOpInfo::AlignOf => String::from_str("AlignOf"),
            crate::ir::NullOpInfo::UbChecks => String::from_str("UbChecks"),
        }
    }
}

// =========================================================================
// String helpers
// =========================================================================

/// Shorten a function name for display: the last segment after `::`.
pub fn short_fn_name(name: &str) -> (r: String)
    ensures
        r@ == crate::render::short_name_of(name@),
{
    crate::render::short_fn_name(name)
}

/// One step of the 64-bit FNV-1a fold.
pub open spec fn fnv_step(h: u64, b: u8) -> u64 {
    ((((h ^ (b as u64)) as int) * 0x100000001b3) % 0x10000000000000000) as u64
}

/// The 64-bit FNV-1a hash of a byte sequence.
pub open spec fn fnv64(s: Seq<u8>) -> u64
    decreases s.len(),
{
    if s.len() == 0 {
        0xcbf29ce484222325u64
    } else {
        fnv_step(fnv64(s.drop_last()), s.last())
    }
}

/// Generate a consistent short hash-based ID for a function name: an `X`
/// followed by the name's FNV-1a hash in hex.
pub fn short_name(function_name: &str) -> (r: String)
    ensures
        r@ == "X"@ + hex_of(fnv64(function_name.spec_bytes()) as nat),
{
    let bs = function_name.as_bytes();
    let n = bs.len();
    let mut h: u64 = 0xcbf29ce484222325;
    let mut i: usize = 0;
    proof {
        assert(bs@.take(0) =~= Seq::<u8>::empty());
    }
    while i < n
        invariant
            i <= n,
            n == bs@.len(),
            bs@ == function_name.spec_bytes(),
            h == fnv64(bs@.take(i as int)),
        decreases n - i,
    {
        proof {
            assert(bs@.take(i + 1).drop_last() =~= bs@.take(i as int));
            assert(bs@.take(i + 1).last() == bs@[i as int]);
        }
        let x: u64 = h ^ (bs[i] as u64);
        let prod: u128 = (x as u128) * (0x100000001b3u64 as u128);
        h = (prod % 0x10000000000000000u128) as u64;
        proof {
            assert(h == fnv_step(fnv64(bs@.take(i as int)), bs@[i as int]));
        }
        i = i + 1;
    }
    proof {
        assert(bs@.take(n as int) =~= bs@);
    }
    let mut r = String::from_str("X");
    let hx = u64_to_hex(h);
    r.append(hx.as_str());
    proof {
        assert(r@ =~= "X"@ + hex_of(fnv64(function_name.spec_bytes()) as nat));
    }
    r
}

/// Generate a consistent block node name within a function cluster.
pub fn block_name(function_name: &str, id: usize) -> (r: String)
    ensures
        r@ == "X"@ + hex_of(fnv64(function_name.spec_bytes()) as nat) + "_"@ + dec_of(id as nat),
{
    let mut r = short_name(function_name);
    r.append("_");
    let d = usize_to_dec(id);
    r.append(d.as_str());
    proof {
        assert(r@ =~= "X"@ + hex_of(fnv64(function_name.spec_bytes()) as nat) + "_"@ + dec_of(
            id as nat,
        ));
    }
    r
}

/// One 64-bit FNV-1a fold step over a whole word.
pub open spec fn fnv_step64(h: u64, v: u64) -> u64 {
    ((((h ^ v) as int) * 0x100000001b3) % 0x10000000000000000) as u64
}

/// The code of a terminator shape, for hashing.
pub open spec fn term_tag_code(k: crate::ir::TermKind) -> u64 {
    match k {
        crate::ir::TermKind::Goto { .. } => 0,
        crate::ir::TermKind::SwitchInt { .. } => 1,
        crate::ir::TermKind::Return => 2,
        crate::ir::TermKind::Resume => 3,
        crate::ir::TermKind::Abort => 4,
        crate::ir::TermKind::Unreachable => 5,
        crate::ir::TermKind::Drop { .. } => 6,
        crate::ir::TermKind::Call { .. } => 7,
        crate::ir::TermKind::Assert { .. } => 8,
        crate::ir::TermKind::InlineAsm { .. } => 9,
    }
}

/// Fold a node's successor targets into the hash, in order.
pub open spec fn fold_targets(h: u64, ts: Seq<usize>) -> u64
    decreases ts.len(),
{
    if ts.len() == 0 {
        h
    } else {
        fnv_step64(fold_targets(h, ts.drop_last()), ts.last() as u64)
    }
}

/// Fold one node into the hash: its index, its terminator shape, its
/// control-flow edges and its statement count.
pub open spec fn fold_block(h: u64, idx: int, node: crate::ir::CfgNode) -> u64 {
    fnv_step64(
        fold_targets(
            fnv_step64(fnv_step64(h, idx as u64), term_tag_code(node.terminator.kind)),
            spec_targets(node.terminator.kind),
        ),
        node.statements.len() as u64,
    )
}

/// The structural hash of a body's first `upto` nodes, seeded with the node
/// count.
pub open spec fn spec_body_hash(body: crate::ir::FnBody, upto: int) -> u64
    decreases upto,
{
    if upto <= 0 {
        fnv_step64(0xcbf29ce484222325u64, body.blocks.len() as u64)
    } else {
        fold_block(spec_body_hash(body, upto - 1), upto - 1, body.blocks[upto - 1])
    }
}

fn step64(h: u64, v: u64) -> (r: u64)
    ensures
        r == fnv_step64(h, v),
{
    let x: u64 = h ^ v;
    let prod: u128 = (x as u128) * (0x100000001b3u64 as u128);
    (prod % 0x10000000000000000u128) as u64
}

/// Generate a consistent structural hash for a function body: the node
/// count, and per node its index, terminator shape, control-flow edges and
/// statement count.
pub fn hash_body(body: &crate::ir::FnBody) -> (r: u64)
    ensures
        r == spec_body_hash(*body, body.blocks.len() as int),
{
    let n = body.blocks.len();
    let mut h: u64 = step64(0xcbf29ce484222325, n as u64);
    let mut b: usize = 0;
    while b < n
        invariant
            b <= n,
            n == body.blocks.len(),
            h == spec_body_hash(*body, b as int),
        decreases n - b,
    {
        h = step64(h, b as u64);
        let tag: u64 = match &body.blocks[b].terminator.kind {
            crate::ir::TermKind::Goto { .. } => 0,
            crate::ir::TermKind::SwitchInt { .. } => 1,
            crate::ir::TermKind::Return => 2,
            crate::ir::TermKind::Resume => 3,
            crate::ir::TermKind::Abort => 4,
            crate::ir::TermKind::Unreachable => 5,
            crate::ir::TermKind::Drop { .. } => 6,
            crate::ir::TermKind::Call { .. } => 7,
            crate::ir::TermKind::Assert { .. } => 8,
            crate::ir::TermKind::InlineAsm { .. } => 9,
        };
        h = step64(h, tag);
        let ts = crate::traversal::get_terminator_targets(&body.blocks[b].terminator);
        let m = ts.len();
        let ghost base = h;
        let mut j: usize = 0;
        proof {
            assert(ts@.take(0) =~= Seq::<usize>::empty());
        }
        while j < m
            invariant
                j <= m,
                m == ts@.len(),
                h == fold_targets(base, ts@.take(j as int)),
            decreases m - j,
        {
            h = step64(h, ts[j] as u64);
            proof {
                assert(ts@.take(j + 1).drop_last() =~= ts@.take(j as int));
                assert(ts@.take(j + 1).last() == ts@[j as int]);
            }
            j = j + 1;
        }
        proof {
            assert(ts@.take(m as int) =~= ts@);
        }
        h = step64(h, body.blocks[b].statements.len() as u64);
        proof {
            assert(h == fold_block(spec_body_hash(*body, b as int), b as int, body.blocks[b as int]));
        }
        b = b + 1;
    }
    h
}

/// A function symbol as the producer records it.
#[derive(Clone)]
pub enum FnSymType {
    NormalSym(String),
    NoOpSym(String),
    IntrinsicSym(String),
}

/// The display string a function symbol owes.
pub open spec fn spec_function_string(f: FnSymType) -> Seq<char> {
    match f {
        FnSymType::NormalSym(name) => name@,
        FnSymType::NoOpSym(name) => "NoOp: "@ + name@,
        FnSymType::IntrinsicSym(name) => "Intr: "@ + name@,
    }
}

/// Convert a function symbol to a display string.
pub fn function_string(f: FnSymType) -> (r: String)
    ensures
        r@ == spec_function_string(f),
{
    match f {
        FnSymType::NormalSym(name) => name,
        FnSymType::NoOpSym(name) => {
            let mut r = String::from_str("NoOp: ");
            r.append(name.as_str());
            proof {
                assert(r@ =~= spec_function_string(FnSymType::NoOpSym(name)));
            }
            r
        },
        FnSymType::IntrinsicSym(name) => {
            let mut r = String::from_str("Intr: ");
            r.append(name.as_str());
            proof {
                assert(r@ =~= spec_function_string(FnSymType::IntrinsicSym(name)));
            }
            r
        },
    }
}

/// Check if a name is unqualified: it holds no `::` separator.
pub fn is_unqualified(name: &str) -> (r: bool)
    ensures
        r == !has_substring(name@, "::"@),
{
    !str_contains(name, "::")
}

// =========================================================================
// Label escaping
// =========================================================================

/// The replacement of one character in a D2 label.
pub open spec fn d2_c(c: char) -> Seq<char> {
    if c == '\\' {
        "\\\\"@
    } else if c == '"' {
        "\\\""@
    } else if c == '$' {
        "\\$"@
    } else {
        seq![c]
    }
}

pub open spec fn d2_escaped(s: Seq<char>) -> Seq<char>
    decreases s.len(),
{
    if s.len() == 0 {
        Seq::empty()
    } else {
        d2_escaped(s.drop_last()) + d2_c(s.last())
    }
}

/// Escape special characters for D2 string labels.
pub fn escape_d2(s: &str) -> (r: String)
    ensures
        r@ == d2_escaped(s@),
{
    let n = s.unicode_len();
    let mut r = String::new();
    let mut i: usize = 0;
    proof {
        assert(s@.take(0) =~= Seq::<char>::empty());
        assert(r@ =~= d2_escaped(s@.take(0)));
    }
    while i < n
        invariant
            i <= n,
            n == s@.len(),
            r@ == d2_escaped(s@.take(i as int)),
        decreases n - i,
    {
        proof {
            assert(s@.take(i + 1).drop_last() =~= s@.take(i as int));
            assert(s@.take(i + 1).last() == s@[i as int]);
        }
        let c = s.get_char(i);
        if c == '\\' {
            r.append("\\\\");
        } else if c == '"' {
            r.append("\\\"");
        } else if c == '$' {
            r.append("\\$");
        } else {
            push_char(&mut r, c);
            proof {
                assert(r@ =~= d2_escaped(s@.take(i as int)) + d2_c(c));
            }
        }
        proof {
            assert(r@ =~= d2_escaped(s@.take(i + 1)));
        }
        i = i + 1;
    }
    proof {
        assert(s@.take(n as int) =~= s@);
    }
    r
}

/// The replacement of one character in a Mermaid label.
pub open spec fn mermaid_c(c: char) -> Seq<char> {
    if c == '\\' {
        "\\\\"@
    } else if c == '"' {
        "\\\""@
    } else if c == '\n' {
        "<br/>"@
    } else if c == '$' {
        "&#36;"@
    } else {
        seq![c]
    }
}

pub open spec fn mermaid_escaped(s: Seq<char>) -> Seq<char>
    decreases s.len(),
{
    if s.len() == 0 {
        Seq::empty()
    } else {
        mermaid_escaped(s.drop_last()) + mermaid_c(s.last())
    }
}

/// Escape special characters for Mermaid string labels.
pub fn escape_mermaid(s: &str) -> (r: String)
    ensures
        r@ == mermaid_escaped(s@),
{
    let n = s.unicode_len();
    let mut r = String::new();
    let mut i: usize = 0;
    proof {
        assert(s@.take(0) =~= Seq::<char>::empty());
        assert(r@ =~= mermaid_escaped(s@.take(0)));
    }
    while i < n
        invariant
            i <= n,
            n == s@.len(),
            r@ == mermaid_escaped(s@.take(i as int)),
        decreases n - i,
    {
        proof {
            assert(s@.take(i + 1).drop_last() =~= s@.take(i as int));
            assert(s@.take(i + 1).last() == s@[i as int]);
        }
        let c = s.get_char(i);
        if c == '\\' {
            r.append("\\\\");
        } else if c == '"' {
            r.append("\\\"");
        } else if c == '\n' {
            r.append("<br/>");
        } else if c == '$' {
            r.append("&#36;");
        } else {
            push_char(&mut r, c);
            proof {
                assert(r@ =~= mermaid_escaped(s@.take(i as int)) + mermaid_c(c));
            }
        }
        proof {
            assert(r@ =~= mermaid_escaped(s@.take(i + 1)));
        }
        i = i + 1;
    }
    proof {
        assert(s@.take(n as int) =~= s@);
    }
    r
}

/// The replacement of one character in a table cell.
pub open spec fn table_c(c: char) -> Seq<char> {
    if c == '|' {
        "\\|"@
    } else if c == '\n' {
        " "@
    } else {
        seq![c]
    }
}

pub open spec fn table_escaped(s: Seq<char>) -> Seq<char>
    decreases s.len(),
{
    if s.len() == 0 {
        Seq::empty()
    } else {
        table_escaped(s.drop_last()) + table_c(s.last())
    }
}

/// Escape a string for a table cell.
pub fn escape_table_cell(s: &str) -> (r: String)
    ensures
        r@ == table_escaped(s@),
{
    let n = s.unicode_len();
    let mut r = String::new();
    let mut i: usize = 0;
    proof {
        assert(s@.take(0) =~= Seq::<char>::empty());
        assert(r@ =~= table_escaped(s@.take(0)));
    }
    while i < n
        invariant
            i <= n,
            n == s@.len(),
            r@ == table_escaped(s@.take(i as int)),
        decreases n - i,
    {
        proof {
            assert(s@.take(i + 1).drop_last() =~= s@.take(i as int));
            assert(s@.take(i + 1).last() == s@[i as int]);
        }
        let c = s.get_char(i);
        if c == '|' {
            r.append("\\|");
        } else if c == '\n' {
            r.append(" ");
        } else {
            push_char(&mut r, c);
            proof {
                assert(r@ =~= table_escaped(s@.take(i as int)) + table_c(c));
            }
        }
        proof {
            assert(r@ =~= table_escaped(s@.take(i + 1)));
        }
        i = i + 1;
    }
    proof {
        assert(s@.take(n as int) =~= s@);
    }
    r
}

/// The replacement of one character in a code cell: backticks become plain
/// quotes so the cell's own backticks survive.
pub open spec fn code_c(c: char) -> Seq<char> {
    if c == '`' {
        "'"@
    } else if c == '|' {
        "\\|"@
    } else if c == '\n' {
        " "@
    } else {
        seq![c]
    }
}

pub open spec fn code_escaped(s: Seq<char>) -> Seq<char>
    decreases s.len(),
{
    if s.len() == 0 {
        Seq::empty()
    } else {
        code_escaped(s.drop_last()) + code_c(s.last())
    }
}

/// Escape a string for code content inside backticks.
pub fn escape_code_cell(s: &str) -> (r: String)
    ensures
        r@ == code_escaped(s@),
{
    let n = s.unicode_len();
    let mut r = String::new();
    let mut i: usize = 0;
    proof {
        assert(s@.take(0) =~= Seq::<char>::empty());
        assert(r@ =~= code_escaped(s@.take(0)));
    }
    while i < n
        invariant
            i <= n,
            n == s@.len(),
            r@ == code_escaped(s@.take(i as int)),
        decreases n - i,
    {
        proof {
            assert(s@.take(i + 1).drop_last() =~= s@.take(i as int));
            assert(s@.take(i + 1).last() == s@[i as int]);
        }
        let c = s.get_char(i);
        if c == '`' {
            r.append("'");
        } else if c == '|' {
            r.append("\\|");
        } else if c == '\n' {
            r.append(" ");
        } else {
            push_char(&mut r, c);
            proof {
                assert(r@ =~= code_escaped(s@.take(i as int)) + code_c(c));
            }
        }
        proof {
            assert(r@ =~= code_escaped(s@.take(i + 1)));
        }
        i = i + 1;
    }
    proof {
        assert(s@.take(n as int) =~= s@);
    }
    r
}


// =========================================================================
// Name wrapping for diagram labels
// =========================================================================

/// The pieces of `s` split after each space, scanning from `cur` with the
/// current piece starting at `start`: each space closes the piece right
/// after it, and a trailing piece without a space closes at the end.
pub open spec fn split_after_spaces(s: Seq<char>, start: int, cur: int) -> Seq<Seq<char>>
    decreases s.len() - cur,
    when 0 <= start <= cur
{
    if cur >= s.len() {
        if start < s.len() {
            seq![s.subrange(start, s.len() as int)]
        } else {
            Seq::empty()
        }
    } else if s[cur] == ' ' {
        seq![s.subrange(start, cur + 1)] + split_after_spaces(s, cur + 1, cur + 1)
    } else {
        split_after_spaces(s, start, cur + 1)
    }
}

/// A piece chopped into chunks of at most 25 characters.
pub open spec fn chunks25(p: Seq<char>) -> Seq<Seq<char>>
    decreases p.len(),
{
    if p.len() == 0 {
        Seq::empty()
    } else if p.len() <= 25 {
        seq![p]
    } else {
        seq![p.take(25)] + chunks25(p.skip(25))
    }
}

/// All chunks of all pieces, in order.
pub open spec fn all_chunks(pieces: Seq<Seq<char>>) -> Seq<Seq<char>>
    decreases pieces.len(),
{
    if pieces.len() == 0 {
        Seq::empty()
    } else {
        chunks25(pieces.first()) + all_chunks(pieces.drop_first())
    }
}

/// Parts joined by a literal backslash-n separator, as diagram labels break
/// lines.
pub open spec fn join_breaks(parts: Seq<Seq<char>>) -> Seq<char>
    decreases parts.len(),
{
    if parts.len() == 0 {
        Seq::empty()
    } else if parts.len() == 1 {
        parts[0]
    } else {
        join_breaks(parts.drop_last()) + "\\n"@ + parts.last()
    }
}

/// The wrapped display form of a name: split after spaces, chopped into
/// chunks of at most 25 characters, joined by literal line-break escapes.
pub open spec fn spec_name_lines(s: Seq<char>) -> Seq<char> {
    join_breaks(all_chunks(split_after_spaces(s, 0, 0)))
}

/// Append one piece's chunks to the label, separated by line-break escapes;
/// `any` says whether anything was emitted yet.
fn emit_chunks(r: &mut String, any: &mut bool, piece: &str, Ghost(done): Ghost<Seq<Seq<char>>>)
    -> (new_done: Ghost<Seq<Seq<char>>>)
    requires
        old(r)@ == join_breaks(done),
        *old(any) == (done.len() > 0),
    ensures
        new_done@ == done + chunks25(piece@),
        final(r)@ == join_breaks(new_done@),
        *final(any) == (new_done@.len() > 0),
{
    let len = piece.unicode_len();
    let mut i: usize = 0;
    let ghost mut d = done;
    proof {
        assert(piece@.skip(0) =~= piece@);
        assert(done + chunks25(piece@) =~= d + chunks25(piece@.skip(0)));
    }
    while i < len
        invariant
            i <= len,
            len == piece@.len(),
            r@ == join_breaks(d),
            *any == (d.len() > 0),
            done + chunks25(piece@) == d + chunks25(piece@.skip(i as int)),
        decreases len - i,
    {
        let end = if len - i > 25 {
            i + 25
        } else {
            len
        };
        let chunk = piece.substring_char(i, end);
        if *any {
            r.append("\\n");
        }
        r.append(chunk);
        proof {
            let rest = piece@.skip(i as int);
            if rest.len() <= 25 {
                assert(chunks25(rest) == seq![rest]);
                assert(chunk@ =~= rest);
                assert(piece@.skip(end as int) =~= Seq::<char>::empty());
                assert(chunks25(piece@.skip(end as int)) =~= Seq::<Seq<char>>::empty());
            } else {
                assert(chunks25(rest) == seq![rest.take(25)] + chunks25(rest.skip(25)));
                assert(chunk@ =~= rest.take(25));
                assert(rest.skip(25) =~= piece@.skip(end as int));
            }
            let prev = d;
            d = prev.push(chunk@);
            assert(d.drop_last() =~= prev);
            if prev.len() == 0 {
                assert(join_breaks(d) == chunk@);
            } else {
                assert(join_breaks(d) == join_breaks(prev) + "\\n"@ + chunk@);
            }
            assert(r@ =~= join_breaks(d));
            assert(done + chunks25(piece@) =~= d + chunks25(piece@.skip(end as int)));
        }
        *any = true;
        i = end;
    }
    proof {
        assert(piece@.skip(len as int) =~= Seq::<char>::empty());
        assert(chunks25(piece@.skip(len as int)) =~= Seq::<Seq<char>>::empty());
        assert(d =~= done + chunks25(piece@));
    }
    Ghost(d)
}

/// Format a name with line breaks for display: the name splits after each
/// space and wraps every piece at 25 characters.
pub fn name_lines(name: &str) -> (r: String)
    ensures
        r@ == spec_name_lines(name@),
{
    let n = name.unicode_len();
    let mut r = String::new();
    let mut any = false;
    let ghost mut done: Seq<Seq<char>> = Seq::empty();
    let mut start: usize = 0;
    let mut cur: usize = 0;
    proof {
        assert(r@ =~= join_breaks(done));
        assert(all_chunks(split_after_spaces(name@, 0, 0)) =~= done + all_chunks(
            split_after_spaces(name@, 0, 0),
        ));
    }
    while cur < n
        invariant
            start <= cur <= n,
            n == name@.len(),
            r@ == join_breaks(done),
            any == (done.len() > 0),
            all_chunks(split_after_spaces(name@, 0, 0)) == done + all_chunks(
                split_after_spaces(name@, start as int, cur as int),
            ),
        decreases n - cur,
    {
        if name.get_char(cur) == ' ' {
            let piece = name.substring_char(start, cur + 1);
            proof {
                assert(piece@ =~= name@.subrange(start as int, cur + 1));
                let pieces = split_after_spaces(name@, start as int, cur as int);
                let rest = split_after_spaces(name@, cur + 1, cur + 1);
                assert(pieces == seq![name@.subrange(start as int, cur + 1)] + rest);
                assert(pieces.first() == name@.subrange(start as int, cur + 1));
                assert(pieces.drop_first() =~= rest);
                assert(all_chunks(pieces) == chunks25(piece@) + all_chunks(rest));
            }
            let ghost pre_done = done;
            let Ghost(d2) = emit_chunks(&mut r, &mut any, piece, Ghost(done));
            proof {
                done = d2;
                assert(all_chunks(split_after_spaces(name@, 0, 0)) =~= done + all_chunks(
                    split_after_spaces(name@, cur + 1, cur + 1),
                ));
            }
            start = cur + 1;
        } else {
            proof {
                assert(split_after_spaces(name@, start as int, cur as int)
                    == split_after_spaces(name@, start as int, cur + 1));
            }
        }
        cur = cur + 1;
    }
    if start < n {
        let piece = name.substring_char(start, n);
        proof {
            assert(piece@ =~= name@.subrange(start as int, n as int));
            let pieces = split_after_spaces(name@, start as int, n as int);
            assert(pieces == seq![name@.subrange(start as int, n as int)]);
            assert(pieces.first() == piece@);
            assert(pieces.drop_first() =~= Seq::<Seq<char>>::empty());
            assert(all_chunks(Seq::<Seq<char>>::empty()) =~= Seq::<Seq<char>>::empty());
            assert(all_chunks(pieces) == chunks25(pieces.first()) + all_chunks(
                pieces.drop_first(),
            ));
            assert(all_chunks(pieces) =~= chunks25(piece@));
        }
        let Ghost(d2) = emit_chunks(&mut r, &mut any, piece, Ghost(done));
        proof {
            done = d2;
            assert(all_chunks(split_after_spaces(name@, 0, 0)) =~= done);
        }
    } else {
        proof {
            assert(split_after_spaces(name@, start as int, n as int) =~= Seq::<Seq<char>>::empty());
            assert(all_chunks(split_after_spaces(name@, 0, 0)) =~= done);
        }
    }
    r
}

} // verus!
