//! The intermediate-representation data model: an externally supplied,
//! immutable function body made of basic blocks, statements and terminators,
//! together with the flat metadata tables (types, allocations, spans, function
//! symbols) addressed by small integer IDs.
//!
//! Every shape is a closed tagged-variant type so that consumers match
//! exhaustively: a new variant fails to compile them rather than silently
//! falling through.
use vstd::prelude::*;

verus! {

/// A place: a local variable with a projection path applied to it.
#[derive(Clone)]
pub struct PlaceData {
    pub local: usize,
    pub projection: Vec<ProjElem>,
}

/// One step of a place projection.
#[derive(Clone)]
pub enum ProjElem {
    Deref,
    Field(usize),
    Index(usize),
    ConstantIndex { offset: u64, from_end: bool },
    Subslice { from: u64, to: u64, from_end: bool },
    Downcast(usize),
    OpaqueCast(u64),
    Subtype(u64),
}

/// The kind of a reference-creating operation as the IR records it.
#[derive(Clone, Copy, PartialEq, Eq, Structural)]
pub enum RefKind {
    Shared,
    Mut,
    Fake,
}

/// The payload of a constant operand, as plain bytes.
#[derive(Clone)]
pub enum ConstKind {
    /// An allocated constant; a byte is `None` where it is uninitialized.
    Allocated(Vec<Option<u8>>),
    ZeroSized,
    Opaque,
}

/// A constant operand. `fn_name` carries the full symbol name when the
/// constant's type is a function definition (the callee of a call).
#[derive(Clone)]
pub struct ConstData {
    pub kind: ConstKind,
    pub ty: u64,
    pub fn_name: Option<String>,
}

/// A rendered type-level constant (e.g. an array length), supplied as text.
#[derive(Clone)]
pub struct TyConstData {
    pub text: String,
}

/// An operand of a statement or terminator.
#[derive(Clone)]
pub enum Operand {
    Copy(PlaceData),
    Move(PlaceData),
    Constant(ConstData),
}

#[derive(Clone, Copy, PartialEq, Eq, Structural)]
pub enum CastKindInfo {
    IntToInt,
    PointerCoercion,
    Other,
}

#[derive(Clone, Copy, PartialEq, Eq, Structural)]
pub enum NullOpInfo {
    SizeOf,
    AlignOf,
    OffsetOf,
    UbChecks,
}

#[derive(Clone, Copy, PartialEq, Eq, Structural)]
pub enum UnOpInfo {
    Not,
    Neg,
    PtrMetadata,
}

#[derive(Clone, Copy, PartialEq, Eq, Structural)]
pub enum BinOpInfo {
    Add,
    AddUnchecked,
    Sub,
    SubUnchecked,
    Mul,
    MulUnchecked,
    Div,
    Rem,
    BitXor,
    BitAnd,
    BitOr,
    Shl,
    ShlUnchecked,
    Shr,
    ShrUnchecked,
    Eq,
    Lt,
    Le,
    Ne,
    Ge,
    Gt,
    Cmp,
    Offset,
}

/// The kind of an aggregate construction; pointer kinds carry the rendered
/// pointee type name.
#[derive(Clone)]
pub enum AggregateInfo {
    Array,
    Tuple,
    Adt(usize),
    Closure,
    Coroutine,
    RawPtrMut(String),
    RawPtrConst(String),
}

/// A value-producing operation on the right-hand side of an assignment.
#[derive(Clone)]
pub enum RvalueData {
    Use(Operand),
    Repeat(Operand, TyConstData),
    Ref(RefKind, PlaceData),
    AddressOf(PlaceData),
    Len(PlaceData),
    Cast(CastKindInfo, Operand, u64),
    BinaryOp(BinOpInfo, Operand, Operand),
    CheckedBinaryOp(BinOpInfo, Operand, Operand),
    UnaryOp(UnOpInfo, Operand),
    NullaryOp(NullOpInfo, u64),
    Discriminant(PlaceData),
    Aggregate(AggregateInfo, Vec<Operand>),
    ShallowInitBox(Operand),
    CopyForDeref(PlaceData),
    ThreadLocalRef,
}

/// A statement of a basic block.
#[derive(Clone)]
pub enum StmtKind {
    Assign(PlaceData, RvalueData),
    SetDiscriminant { place: PlaceData, variant_index: usize },
    StorageLive(usize),
    StorageDead(usize),
    Retag(PlaceData),
    FakeRead(PlaceData),
    PlaceMention(PlaceData),
    Nop,
}

#[derive(Clone)]
pub struct Stmt {
    pub kind: StmtKind,
    pub span: usize,
}

/// What happens on the unwind path of a terminator.
#[derive(Clone, Copy, PartialEq, Eq, Structural)]
pub enum UnwindInfo {
    Continue,
    Unreachable,
    Terminate,
    Cleanup(usize),
}

/// The branch table of a `SwitchInt` terminator: value-tagged targets plus
/// the fallthrough target.
#[derive(Clone)]
pub struct SwitchTargetsInfo {
    pub branches: Vec<(u128, usize)>,
    pub otherwise: usize,
}

/// The single control-transfer instruction ending a basic block.
#[derive(Clone)]
pub enum TermKind {
    Goto { target: usize },
    SwitchInt { discr: Operand, targets: SwitchTargetsInfo },
    Return,
    Resume,
    Abort,
    Unreachable,
    Drop { place: PlaceData, target: usize, unwind: UnwindInfo },
    Call {
        func: Operand,
        args: Vec<Operand>,
        destination: PlaceData,
        target: Option<usize>,
        unwind: UnwindInfo,
    },
    Assert {
        cond: Operand,
        expected: bool,
        target: usize,
        unwind: UnwindInfo,
    },
    InlineAsm { destination: Option<usize>, unwind: UnwindInfo },
}

#[derive(Clone)]
pub struct Term {
    pub kind: TermKind,
    pub span: usize,
}

/// A local variable declaration; the type is an ID into the type table.
#[derive(Clone)]
pub struct LocalDecl {
    pub ty: u64,
}

/// A basic block: straight-line statements followed by one terminator.
#[derive(Clone)]
pub struct CfgNode {
    pub statements: Vec<Stmt>,
    pub terminator: Term,
}

/// An immutable function body: the control-flow graph nodes in order, and the
/// local variable declarations. Node 0 is the entry node.
#[derive(Clone)]
pub struct FnBody {
    pub blocks: Vec<CfgNode>,
    pub locals: Vec<LocalDecl>,
}

// =========================================================================
// Successor edges
// =========================================================================

/// The target of the unwind path, if it is a cleanup block.
pub open spec fn spec_unwind_target(u: UnwindInfo) -> Seq<usize> {
    match u {
        UnwindInfo::Cleanup(t) => seq![t],
        _ => Seq::empty(),
    }
}

/// The targets of an optional normal successor.
pub open spec fn spec_opt_target(t: Option<usize>) -> Seq<usize> {
    match t {
        Some(t) => seq![t],
        None => Seq::empty(),
    }
}

/// The successor node indices of a terminator, in the order the analyses
/// enumerate them: value branches before the fallthrough, normal targets
/// before unwind targets.
pub open spec fn spec_targets(k: TermKind) -> Seq<usize> {
    match k {
        TermKind::Goto { target } => seq![target],
        TermKind::SwitchInt { discr: _, targets } => targets.branches@.map_values(
            |p: (u128, usize)| p.1,
        ).push(targets.otherwise),
        TermKind::Return => Seq::empty(),
        TermKind::Resume => Seq::empty(),
        TermKind::Abort => Seq::empty(),
        TermKind::Unreachable => Seq::empty(),
        TermKind::Drop { place: _, target, unwind } => seq![target] + spec_unwind_target(unwind),
        TermKind::Call { func: _, args: _, destination: _, target, unwind } => spec_opt_target(
            target,
        ) + spec_unwind_target(unwind),
        TermKind::Assert { cond: _, expected: _, target, unwind } => seq![target]
            + spec_unwind_target(unwind),
        TermKind::InlineAsm { destination, unwind } => spec_opt_target(destination)
            + spec_unwind_target(unwind),
    }
}

/// The successors of node `b` in `body`.
pub open spec fn spec_node_targets(body: FnBody, b: int) -> Seq<usize> {
    spec_targets(body.blocks[b].terminator.kind)
}

// =========================================================================
// Well-formedness
// =========================================================================

/// Every successor edge of the node points inside the node range.
pub open spec fn wf_node(node: CfgNode, n: nat) -> bool {
    forall |j: int|
        0 <= j < spec_targets(node.terminator.kind).len()
            ==> #[trigger] spec_targets(node.terminator.kind)[j] < n
}

/// A well-formed control-flow graph: every edge target is a valid node index.
pub open spec fn wf_body(body: FnBody) -> bool {
    forall |i: int|
        0 <= i < body.blocks.len() ==> #[trigger] wf_node(
            body.blocks[i],
            body.blocks.len() as nat,
        )
}

// =========================================================================
// Reachability
// =========================================================================

/// `p` is a path through successor edges of `body`: consecutive entries are
/// connected by an edge, and every entry is a valid node index.
pub open spec fn is_path(body: FnBody, p: Seq<usize>) -> bool {
    &&& p.len() >= 1
    &&& forall |i: int| 0 <= i < p.len() ==> #[trigger] p[i] < body.blocks.len()
    &&& forall |i: int|
        #![trigger p[i]]
        0 <= i < p.len() - 1 ==> spec_node_targets(body, p[i] as int).contains(p[i + 1])
}

/// Node `to` is reachable from node `from` in one or more edge steps.
pub open spec fn reach_plus(body: FnBody, from: usize, to: usize) -> bool {
    exists |p: Seq<usize>|
        #[trigger] is_path(body, p) && p.len() >= 2 && p.first() == from && p.last() == to
}

/// A node is on a loop exactly when it can reach itself in one or more steps.
pub open spec fn spec_in_loop(body: FnBody, b: usize) -> bool {
    reach_plus(body, b, b)
}


/// Check that every successor edge of the body points inside the node
/// range — the input contract of the analyzers.
pub fn body_is_well_formed(body: &FnBody) -> (r: bool)
    ensures
        r == wf_body(*body),
{
    let n = body.blocks.len();
    let mut b: usize = 0;
    while b < n
        invariant
            b <= n,
            n == body.blocks.len(),
            forall |k: int| 0 <= k < b ==> wf_node(#[trigger] body.blocks[k], n as nat),
        decreases n - b,
    {
        let ts = crate::traversal::get_terminator_targets(&body.blocks[b].terminator);
        let m = ts.len();
        let mut j: usize = 0;
        while j < m
            invariant
                j <= m,
                b < n,
                n == body.blocks.len(),
                ts@ == spec_targets(body.blocks[b as int].terminator.kind),
                m == ts@.len(),
                forall |k: int| 0 <= k < j ==> #[trigger] ts@[k] < n,
            decreases m - j,
        {
            if ts[j] >= n {
                proof {
                    assert(!wf_node(body.blocks[b as int], n as nat));
                }
                return false;
            }
            j = j + 1;
        }
        proof {
            assert(wf_node(body.blocks[b as int], n as nat));
        }
        b = b + 1;
    }
    true
}

} // verus!
