//! Shared rendering of IR values to human-readable label strings: places,
//! operands, constants, rvalues and operators.
use vstd::prelude::*;

use crate::ir::{
    AggregateInfo, BinOpInfo, CastKindInfo, ConstData, ConstKind, NullOpInfo, Operand, PlaceData,
    ProjElem, RvalueData, UnOpInfo,
};
use crate::text::{
    dec_of, has_substring, int_dec_of, push_char, str_contains, u64_to_dec, usize_to_dec,
};

verus! {

// =========================================================================
// Short function names
// =========================================================================

/// A path separator `::` starts at position `i` of `s`.
pub open spec fn is_sep_at(s: Seq<char>, i: int) -> bool {
    0 <= i && i + 2 <= s.len() && s[i] == ':' && s[i + 1] == ':'
}

/// The last path separator of `s` starts at position `i`.
pub open spec fn is_last_sep_at(s: Seq<char>, i: int) -> bool {
    is_sep_at(s, i) && forall |k: int| i < k ==> !is_sep_at(s, k)
}

/// The final path segment of a name: everything after the last `::`
/// separator, or the whole name when it has none.
pub open spec fn short_name_of(s: Seq<char>) -> Seq<char> {
    if exists |i: int| is_last_sep_at(s, i) {
        let i = choose |i: int| is_last_sep_at(s, i);
        s.subrange(i + 2, s.len() as int)
    } else {
        s
    }
}

proof fn lemma_last_sep_unique(s: Seq<char>, i: int, j: int)
    requires
        is_last_sep_at(s, i),
        is_last_sep_at(s, j),
    ensures
        i == j,
{
    if i < j {
        assert(!is_sep_at(s, j));
    }
    if j < i {
        assert(!is_sep_at(s, i));
    }
}

/// Extract the short function name from a full path.
pub fn short_fn_name(name: &str) -> (r: String)
    ensures
        r@ == short_name_of(name@),
{
    let n = name.unicode_len();
    if n < 2 {
        proof {
            assert(forall |i: int| !is_sep_at(name@, i));
        }
        return name.to_owned();
    }
    let mut j: usize = n - 1;
    while j > 0
        invariant
            j <= n - 1,
            n == name@.len(),
            forall |k: int| j <= k ==> !is_sep_at(name@, k),
        decreases j,
    {
        let p = j - 1;
        if name.get_char(p) == ':' && name.get_char(p + 1) == ':' {
            proof {
                let pp = p as int;
                assert(is_last_sep_at(name@, pp));
                let c = choose |i: int| is_last_sep_at(name@, i);
                lemma_last_sep_unique(name@, c, pp);
            }
            let r = name.substring_char(p + 2, n);
            return r.to_owned();
        }
        j = p;
    }
    proof {
        assert(forall |k: int| !is_sep_at(name@, k));
    }
    name.to_owned()
}

// =========================================================================
// Call targets
// =========================================================================

/// The display name of a call's callee: the short form of the function
/// symbol carried by a constant operand, or the opaque label `fn`.
pub open spec fn call_name_of(func: Operand) -> Seq<char> {
    match func {
        Operand::Constant(c) => match c.fn_name {
            Some(n) => short_name_of(n@),
            None => "fn"@,
        },
        _ => "fn"@,
    }
}

/// Extract a function name from a call operand.
pub fn extract_call_name(func: &Operand) -> (r: String)
    ensures
        r@ == call_name_of(*func),
{
    match func {
        Operand::Constant(c) => match &c.fn_name {
            Some(n) => short_fn_name(n.as_str()),
            None => String::from_str("fn"),
        },
        _ => String::from_str("fn"),
    }
}

/// The callee's display name marks a panic path: it mentions `panic` or
/// `assert_failed`.
pub open spec fn call_marks_panic(func: Operand) -> bool {
    has_substring(call_name_of(func), "panic"@) || has_substring(
        call_name_of(func),
        "assert_failed"@,
    )
}

/// Whether a call's callee name marks a panic path.
pub fn call_name_marks_panic(func: &Operand) -> (r: bool)
    ensures
        r == call_marks_panic(*func),
{
    let name = extract_call_name(func);
    if str_contains(name.as_str(), "panic") {
        return true;
    }
    str_contains(name.as_str(), "assert_failed")
}


// =========================================================================
// Places
// =========================================================================

/// One projection step applied to a rendered place.
pub open spec fn proj_str(inner: Seq<char>, p: ProjElem) -> Seq<char> {
    match p {
        ProjElem::Deref => "(*"@ + inner + ")"@,
        ProjElem::Field(i) => inner + "."@ + dec_of(i as nat),
        ProjElem::Index(l) => inner + "[_"@ + dec_of(l as nat) + "]"@,
        ProjElem::Downcast(i) => "("@ + inner + " as #"@ + dec_of(i as nat) + ")"@,
        _ => inner + ".[proj]"@,
    }
}

pub open spec fn place_str_rec(local: usize, projs: Seq<ProjElem>) -> Seq<char>
    decreases projs.len(),
{
    if projs.len() == 0 {
        "_"@ + dec_of(local as nat)
    } else {
        proj_str(place_str_rec(local, projs.drop_last()), projs.last())
    }
}

/// The rendered form of a place: its local with each projection applied.
pub open spec fn place_str(p: PlaceData) -> Seq<char> {
    place_str_rec(p.local, p.projection@)
}

/// Render a place (lvalue) to a string.
pub fn render_place(place: &PlaceData) -> (r: String)
    ensures
        r@ == place_str(*place),
{
    let mut r = String::from_str("_");
    let d = usize_to_dec(place.local);
    r.append(d.as_str());
    proof {
        assert(place.projection@.take(0) =~= Seq::<ProjElem>::empty());
        assert(r@ =~= place_str_rec(place.local, place.projection@.take(0)));
    }
    let n = place.projection.len();
    let mut i: usize = 0;
    while i < n
        invariant
            i <= n,
            n == place.projection@.len(),
            r@ == place_str_rec(place.local, place.projection@.take(i as int)),
        decreases n - i,
    {
        proof {
            assert(place.projection@.take(i + 1).drop_last() =~= place.projection@.take(i as int));
            assert(place.projection@.take(i + 1).last() == place.projection@[i as int]);
        }
        match &place.projection[i] {
            ProjElem::Deref => {
                let mut t = String::from_str("(*");
                t.append(r.as_str());
                t.append(")");
                r = t;
            },
            ProjElem::Field(ix) => {
                r.append(".");
                let d = usize_to_dec(*ix);
                r.append(d.as_str());
            },
            ProjElem::Index(l) => {
                r.append("[_");
                let d = usize_to_dec(*l);
                r.append(d.as_str());
                r.append("]");
            },
            ProjElem::Downcast(ix) => {
                let mut t = String::from_str("(");
                t.append(r.as_str());
                t.append(" as #");
                let d = usize_to_dec(*ix);
                t.append(d.as_str());
                t.append(")");
                r = t;
            },
            _ => {
                r.append(".[proj]");
            },
        }
        proof {
            assert(r@ =~= place_str_rec(place.local, place.projection@.take(i + 1)));
        }
        i = i + 1;
    }
    proof {
        assert(place.projection@.take(n as int) =~= place.projection@);
    }
    r
}

// =========================================================================
// Constants
// =========================================================================

/// The value of a little-endian byte image read as a signed integer, when
/// every byte is initialized and the width is 1, 2, 4 or 8 bytes; one byte
/// reads as unsigned.
pub open spec fn le_sint_of(bytes: Seq<Option<u8>>) -> Option<int> {
    if exists |i: int| 0 <= i < bytes.len() && bytes[i] is None {
        None
    } else {
        let v = crate::util::le_value(crate::index::concrete_of(bytes)) as int;
        if bytes.len() == 1 {
            Some(v)
        } else if bytes.len() == 2 {
            Some(if v < 0x8000 { v } else { v - 0x10000 })
        } else if bytes.len() == 4 {
            Some(if v < 0x80000000 { v } else { v - 0x100000000 })
        } else if bytes.len() == 8 {
            Some(if v < 0x8000000000000000 { v } else { v - 0x10000000000000000 })
        } else {
            None
        }
    }
}

/// Try to interpret a little-endian byte image as a signed integer.
pub fn bytes_to_int(bytes: &Vec<Option<u8>>) -> (r: Option<i128>)
    ensures
        (r is Some) == (le_sint_of(bytes@) is Some),
        r matches Some(v) ==> le_sint_of(bytes@) == Some(v as int),
{
    let n = bytes.len();
    let mut i: usize = 0;
    while i < n
        invariant
            i <= n,
            n == bytes@.len(),
            forall |k: int| 0 <= k < i ==> !((#[trigger] bytes@[k]) is None),
        decreases n - i,
    {
        if bytes[i].is_none() {
            return None;
        }
        i = i + 1;
    }
    let concrete = crate::index::concrete_bytes(bytes);
    proof {
        lemma_concrete_all_some(bytes@);
    }
    if n == 1 || n == 2 || n == 4 || n == 8 {
        let v = crate::util::bytes_to_u64_le(&concrete);
        proof {
            crate::util::lemma_le_value_bound(concrete@);
        }
        if n == 1 {
            Some(v as i128)
        } else if n == 2 {
            if v < 0x8000 {
                Some(v as i128)
            } else {
                Some(v as i128 - 0x10000)
            }
        } else if n == 4 {
            if v < 0x80000000 {
                Some(v as i128)
            } else {
                Some(v as i128 - 0x100000000)
            }
        } else {
            if v < 0x8000000000000000 {
                Some(v as i128)
            } else {
                Some(v as i128 - 0x10000000000000000)
            }
        }
    } else {
        None
    }
}

proof fn lemma_concrete_all_some(bytes: Seq<Option<u8>>)
    requires
        forall |k: int| 0 <= k < bytes.len() ==> !((#[trigger] bytes[k]) is None),
    ensures
        crate::index::concrete_of(bytes).len() == bytes.len(),
    decreases bytes.len(),
{
    if bytes.len() > 0 {
        lemma_concrete_all_some(bytes.drop_last());
        assert(!(bytes[bytes.len() - 1] is None));
        assert(crate::index::opt_byte(bytes.last()).len() == 1);
    }
}

/// The rendered form of a constant operand.
pub open spec fn mir_const_str(c: ConstData) -> Seq<char> {
    match c.kind {
        ConstKind::Allocated(bytes) => match le_sint_of(bytes@) {
            Some(v) => int_dec_of(v),
            None => "["@ + dec_of(bytes@.len()) + " bytes]"@,
        },
        ConstKind::ZeroSized => "()"@,
        ConstKind::Opaque => "const"@,
    }
}

/// Render a constant operand to a string.
pub fn render_mir_const(c: &ConstData) -> (r: String)
    ensures
        r@ == mir_const_str(*c),
{
    match &c.kind {
        ConstKind::Allocated(bytes) => match bytes_to_int(bytes) {
            Some(v) => {
                let r = crate::text::i128_to_dec(v);
                proof {
                    assert(r@ =~= mir_const_str(*c));
                }
                r
            },
            None => {
                let mut r = String::from_str("[");
                let d = usize_to_dec(bytes.len());
                r.append(d.as_str());
                r.append(" bytes]");
                proof {
                    assert(r@ =~= mir_const_str(*c));
                }
                r
            },
        },
        ConstKind::ZeroSized => String::from_str("()"),
        ConstKind::Opaque => String::from_str("const"),
    }
}

/// Render a type-level constant to a string: its producer-supplied text.
pub fn render_ty_const(c: &crate::ir::TyConstData) -> (r: String)
    ensures
        r@ == c.text@,
{
    c.text.clone()
}

// =========================================================================
// Operands
// =========================================================================

/// The rendered form of an operand.
pub open spec fn operand_str(op: Operand) -> Seq<char> {
    match op {
        Operand::Copy(place) => place_str(place),
        Operand::Move(place) => "move "@ + place_str(place),
        Operand::Constant(c) => mir_const_str(c),
    }
}

/// Render an operand to a string.
pub fn render_operand(op: &Operand) -> (r: String)
    ensures
        r@ == operand_str(*op),
{
    match op {
        Operand::Copy(place) => render_place(place),
        Operand::Move(place) => {
            let mut r = String::from_str("move ");
            let p = render_place(place);
            r.append(p.as_str());
            proof {
                assert(r@ =~= operand_str(*op));
            }
            r
        },
        Operand::Constant(c) => render_mir_const(c),
    }
}

// =========================================================================
// Operators
// =========================================================================

/// The symbol of a binary operator.
pub open spec fn binop_sym(op: BinOpInfo) -> Seq<char> {
    match op {
        BinOpInfo::Add => "+"@,
        BinOpInfo::AddUnchecked => "+"@,
        BinOpInfo::Sub => "-"@,
        BinOpInfo::SubUnchecked => "-"@,
        BinOpInfo::Mul => "*"@,
        BinOpInfo::MulUnchecked => "*"@,
        BinOpInfo::Div => "/"@,
        BinOpInfo::Rem => "%"@,
        BinOpInfo::BitXor => "^"@,
        BinOpInfo::BitAnd => "&"@,
        BinOpInfo::BitOr => "|"@,
        BinOpInfo::Shl => "<<"@,
        BinOpInfo::ShlUnchecked => "<<"@,
        BinOpInfo::Shr => ">>"@,
        BinOpInfo::ShrUnchecked => ">>"@,
        BinOpInfo::Eq => "=="@,
        BinOpInfo::Lt => "<"@,
        BinOpInfo::Le => "<="@,
        BinOpInfo::Ne => "!="@,
        BinOpInfo::Ge => ">="@,
        BinOpInfo::Gt => ">"@,
        BinOpInfo::Cmp => "<=>"@,
        BinOpInfo::Offset => "offset"@,
    }
}

/// Render a binary operator symbol.
pub fn render_binop(op: &BinOpInfo) -> (r: &'static str)
    ensures
        r@ == binop_sym(*op),
{
    match op {
        BinOpInfo::Add => "+",
        BinOpInfo::AddUnchecked => "+",
        BinOpInfo::Sub => "-",
        BinOpInfo::SubUnchecked => "-",
        BinOpInfo::Mul => "*",
        BinOpInfo::MulUnchecked => "*",
        BinOpInfo::Div => "/",
        BinOpInfo::Rem => "%",
        BinOpInfo::BitXor => "^",
        BinOpInfo::BitAnd => "&",
        BinOpInfo::BitOr => "|",
        BinOpInfo::Shl => "<<",
        BinOpInfo::ShlUnchecked => "<<",
        BinOpInfo::Shr => ">>",
        BinOpInfo::ShrUnchecked => ">>",
        BinOpInfo::Eq => "==",
        BinOpInfo::Lt => "<",
        BinOpInfo::Le => "<=",
        BinOpInfo::Ne => "!=",
        BinOpInfo::Ge => ">=",
        BinOpInfo::Gt => ">",
        BinOpInfo::Cmp => "<=>",
        BinOpInfo::Offset => "offset",
    }
}

/// The human-readable name of a binary operator.
pub open spec fn binop_name(op: BinOpInfo) -> Seq<char> {
    match op {
        BinOpInfo::Add => "Add"@,
        BinOpInfo::AddUnchecked => "Add"@,
        BinOpInfo::Sub => "Subtract"@,
        BinOpInfo::SubUnchecked => "Subtract"@,
        BinOpInfo::Mul => "Multiply"@,
        BinOpInfo::MulUnchecked => "Multiply"@,
        BinOpInfo::Div => "Divide"@,
        BinOpInfo::Rem => "Remainder"@,
        BinOpInfo::BitXor => "XOR"@,
        BinOpInfo::BitAnd => "AND"@,
        BinOpInfo::BitOr => "OR"@,
        BinOpInfo::Shl => "Shift left"@,
        BinOpInfo::ShlUnchecked => "Shift left"@,
        BinOpInfo::Shr => "Shift right"@,
        BinOpInfo::ShrUnchecked => "Shift right"@,
        BinOpInfo::Eq => "Equal"@,
        BinOpInfo::Lt => "Less than"@,
        BinOpInfo::Le => "Less or equal"@,
        BinOpInfo::Ne => "Not equal"@,
        BinOpInfo::Ge => "Greater or equal"@,
        BinOpInfo::Gt => "Greater than"@,
        BinOpInfo::Cmp => "Compare"@,
        BinOpInfo::Offset => "Offset"@,
    }
}

/// Human-readable binary operator name.
pub fn op_name(op: &BinOpInfo) -> (r: &'static str)
    ensures
        r@ == binop_name(*op),
{
    match op {
        BinOpInfo::Add => "Add",
        BinOpInfo::AddUnchecked => "Add",
        BinOpInfo::Sub => "Subtract",
        BinOpInfo::SubUnchecked => "Subtract",
        BinOpInfo::Mul => "Multiply",
        BinOpInfo::MulUnchecked => "Multiply",
        BinOpInfo::Div => "Divide",
        BinOpInfo::Rem => "Remainder",
        BinOpInfo::BitXor => "XOR",
        BinOpInfo::BitAnd => "AND",
        BinOpInfo::BitOr => "OR",
        BinOpInfo::Shl => "Shift left",
        BinOpInfo::ShlUnchecked => "Shift left",
        BinOpInfo::Shr => "Shift right",
        BinOpInfo::ShrUnchecked => "Shift right",
        BinOpInfo::Eq => "Equal",
        BinOpInfo::Lt => "Less than",
        BinOpInfo::Le => "Less or equal",
        BinOpInfo::Ne => "Not equal",
        BinOpInfo::Ge => "Greater or equal",
        BinOpInfo::Gt => "Greater than",
        BinOpInfo::Cmp => "Compare",
        BinOpInfo::Offset => "Offset",
    }
}

/// The symbol of a unary operator.
pub open spec fn unop_sym(op: UnOpInfo) -> Seq<char> {
    match op {
        UnOpInfo::Not => "!"@,
        UnOpInfo::Neg => "-"@,
        UnOpInfo::PtrMetadata => "metadata"@,
    }
}

/// Render a unary operator symbol.
pub fn render_unop(op: &UnOpInfo) -> (r: &'static str)
    ensures
        r@ == unop_sym(*op),
{
    match op {
        UnOpInfo::Not => "!",
        UnOpInfo::Neg => "-",
        UnOpInfo::PtrMetadata => "metadata",
    }
}


// =========================================================================
// Rvalues
// =========================================================================

/// The label of an aggregate construction.
pub open spec fn agg_label(a: AggregateInfo) -> Seq<char> {
    match a {
        AggregateInfo::Array => "Array"@,
        AggregateInfo::Tuple => "Tuple"@,
        AggregateInfo::Adt(i) => "Adt{"@ + dec_of(i as nat) + "}"@,
        AggregateInfo::Closure => "Closure"@,
        AggregateInfo::Coroutine => "Coroutine"@,
        AggregateInfo::RawPtrMut(ty) => "*mut ("@ + ty@ + ")"@,
        AggregateInfo::RawPtrConst(ty) => "*("@ + ty@ + ")"@,
    }
}

fn render_agg_label(a: &AggregateInfo) -> (r: String)
    ensures
        r@ == agg_label(*a),
{
    match a {
        AggregateInfo::Array => String::from_str("Array"),
        AggregateInfo::Tuple => String::from_str("Tuple"),
        AggregateInfo::Adt(i) => {
            let mut r = String::from_str("Adt{");
            let d = usize_to_dec(*i);
            r.append(d.as_str());
            r.append("}");
            proof {
                assert(r@ =~= agg_label(*a));
            }
            r
        },
        AggregateInfo::Closure => String::from_str("Closure"),
        AggregateInfo::Coroutine => String::from_str("Coroutine"),
        AggregateInfo::RawPtrMut(ty) => {
            let mut r = String::from_str("*mut (");
            r.append(ty.as_str());
            r.append(")");
            proof {
                assert(r@ =~= agg_label(*a));
            }
            r
        },
        AggregateInfo::RawPtrConst(ty) => {
            let mut r = String::from_str("*(");
            r.append(ty.as_str());
            r.append(")");
            proof {
                assert(r@ =~= agg_label(*a));
            }
            r
        },
    }
}

/// The placeholder display of a type ID.
pub open spec fn ty_tag(ty: u64) -> Seq<char> {
    "ty"@ + dec_of(ty as nat)
}

/// The name of a nullary operation.
pub open spec fn nullop_name(op: NullOpInfo) -> Seq<char> {
    match op {
        NullOpInfo::SizeOf => "sizeof"@,
        NullOpInfo::AlignOf => "alignof"@,
        NullOpInfo::OffsetOf => "offsetof"@,
        NullOpInfo::UbChecks => "ub_checks"@,
    }
}

/// The rendered form of an rvalue.
pub open spec fn rvalue_str(rv: RvalueData) -> Seq<char> {
    match rv {
        RvalueData::Use(op) => operand_str(op),
        RvalueData::Repeat(op, c) => "["@ + operand_str(op) + "; "@ + c.text@ + "]"@,
        RvalueData::Ref(rk, p) => (match rk {
            crate::ir::RefKind::Shared => "&"@,
            crate::ir::RefKind::Mut => "&mut "@,
            crate::ir::RefKind::Fake => "&?"@,
        }) + place_str(p),
        RvalueData::AddressOf(p) => "&raw "@ + place_str(p),
        RvalueData::Len(p) => "len("@ + place_str(p) + ")"@,
        RvalueData::Cast(k, op, ty) => operand_str(op) + (match k {
            CastKindInfo::IntToInt => " as "@,
            CastKindInfo::PointerCoercion => " as "@,
            CastKindInfo::Other => " cast "@,
        }) + ty_tag(ty),
        RvalueData::BinaryOp(b, l, r) => operand_str(l) + " "@ + binop_sym(b) + " "@
            + operand_str(r),
        RvalueData::CheckedBinaryOp(b, l, r) => "checked("@ + operand_str(l) + " "@ + binop_sym(b)
            + " "@ + operand_str(r) + ")"@,
        RvalueData::UnaryOp(u, op) => unop_sym(u) + operand_str(op),
        RvalueData::NullaryOp(no, ty) => nullop_name(no) + "("@ + ty_tag(ty) + ")"@,
        RvalueData::Discriminant(p) => "discr("@ + place_str(p) + ")"@,
        RvalueData::Aggregate(kind, ops) => agg_label(kind) + "("@ + crate::index::join_comma(
            ops@.map_values(|o: Operand| operand_str(o)),
        ) + ")"@,
        RvalueData::ShallowInitBox(op) => "box "@ + operand_str(op),
        RvalueData::CopyForDeref(p) => "copy_deref("@ + place_str(p) + ")"@,
        RvalueData::ThreadLocalRef => "thread_local"@,
    }
}

/// Render the comma-joined operand list of an aggregate.
fn render_operand_list(ops: &Vec<Operand>) -> (r: String)
    ensures
        r@ == crate::index::join_comma(ops@.map_values(|o: Operand| operand_str(o))),
{
    let mut r = String::new();
    let n = ops.len();
    let mut i: usize = 0;
    let ghost f = |o: Operand| operand_str(o);
    proof {
        assert(ops@.take(0).map_values(f) =~= Seq::<Seq<char>>::empty());
        assert(r@ =~= crate::index::join_comma(ops@.take(0).map_values(f)));
    }
    while i < n
        invariant
            i <= n,
            n == ops@.len(),
            f == (|o: Operand| operand_str(o)),
            r@ == crate::index::join_comma(ops@.take(i as int).map_values(f)),
        decreases n - i,
    {
        let part = render_operand(&ops[i]);
        if i > 0 {
            r.append(", ");
        }
        r.append(part.as_str());
        proof {
            let prev = ops@.take(i as int).map_values(f);
            let now = ops@.take(i + 1).map_values(f);
            assert(now.drop_last() =~= prev);
            assert(now.last() == f(ops@[i as int]));
            if i == 0 {
                assert(crate::index::join_comma(now) == now[0]);
            } else {
                assert(crate::index::join_comma(now) == crate::index::join_comma(prev) + ", "@
                    + now.last());
            }
            assert(r@ =~= crate::index::join_comma(now));
        }
        i = i + 1;
    }
    proof {
        assert(ops@.take(n as int) =~= ops@);
        assert(ops@.take(n as int).map_values(f) =~= ops@.map_values(f));
    }
    r
}

/// Render an rvalue to a string.
pub fn render_rvalue(rv: &RvalueData) -> (r: String)
    ensures
        r@ == rvalue_str(*rv),
{
    match rv {
        RvalueData::Use(op) => render_operand(op),
        RvalueData::Repeat(op, c) => {
            let mut r = String::from_str("[");
            let o = render_operand(op);
            r.append(o.as_str());
            r.append("; ");
            r.append(c.text.as_str());
            r.append("]");
            proof {
                assert(r@ =~= rvalue_str(*rv));
            }
            r
        },
        RvalueData::Ref(rk, p) => {
            let mut r = match rk {
                crate::ir::RefKind::Shared => String::from_str("&"),
                crate::ir::RefKind::Mut => String::from_str("&mut "),
                crate::ir::RefKind::Fake => String::from_str("&?"),
            };
            let pl = render_place(p);
            r.append(pl.as_str());
            proof {
                assert(r@ =~= rvalue_str(*rv));
            }
            r
        },
        RvalueData::AddressOf(p) => {
            let mut r = String::from_str("&raw ");
            let pl = render_place(p);
            r.append(pl.as_str());
            proof {
                assert(r@ =~= rvalue_str(*rv));
            }
            r
        },
        RvalueData::Len(p) => {
            let mut r = String::from_str("len(");
            let pl = render_place(p);
            r.append(pl.as_str());
            r.append(")");
            proof {
                assert(r@ =~= rvalue_str(*rv));
            }
            r
        },
        RvalueData::Cast(k, op, ty) => {
            let mut r = render_operand(op);
            match k {
                CastKindInfo::IntToInt => r.append(" as "),
                CastKindInfo::PointerCoercion => r.append(" as "),
                CastKindInfo::Other => r.append(" cast "),
            }
            r.append("ty");
            let d = u64_to_dec(*ty);
            r.append(d.as_str());
            proof {
                assert(r@ =~= rvalue_str(*rv));
            }
            r
        },
        RvalueData::BinaryOp(b, l, rr) => {
            let mut r = render_operand(l);
            r.append(" ");
            r.append(render_binop(b));
            r.append(" ");
            let o2 = render_operand(rr);
            r.append(o2.as_str());
            proof {
                assert(r@ =~= rvalue_str(*rv));
            }
            r
        },
        RvalueData::CheckedBinaryOp(b, l, rr) => {
            let mut r = String::from_str("checked(");
            let o1 = render_operand(l);
            r.append(o1.as_str());
            r.append(" ");
            r.append(render_binop(b));
            r.append(" ");
            let o2 = render_operand(rr);
            r.append(o2.as_str());
            r.append(")");
            proof {
                assert(r@ =~= rvalue_str(*rv));
            }
            r
        },
        RvalueData::UnaryOp(u, op) => {
            let mut r = String::from_str(render_unop(u));
            let o = render_operand(op);
            r.append(o.as_str());
            proof {
                assert(r@ =~= rvalue_str(*rv));
            }
            r
        },
        RvalueData::NullaryOp(no, ty) => {
            let mut r = match no {
                NullOpInfo::SizeOf => String::from_str("sizeof"),
                NullOpInfo::AlignOf => String::from_str("alignof"),
                NullOpInfo::OffsetOf => String::from_str("offsetof"),
                NullOpInfo::UbChecks => String::from_str("ub_checks"),
            };
            r.append("(");
            r.append("ty");
            let d = u64_to_dec(*ty);
            r.append(d.as_str());
            r.append(")");
            proof {
                assert(r@ =~= rvalue_str(*rv));
            }
            r
        },
        RvalueData::Discriminant(p) => {
            let mut r = String::from_str("discr(");
            let pl = render_place(p);
            r.append(pl.as_str());
            r.append(")");
            proof {
                assert(r@ =~= rvalue_str(*rv));
            }
            r
        },
        RvalueData::Aggregate(kind, ops) => {
            let mut r = render_agg_label(kind);
            r.append("(");
            let inner = render_operand_list(ops);
            r.append(inner.as_str());
            r.append(")");
            proof {
                assert(r@ =~= rvalue_str(*rv));
            }
            r
        },
        RvalueData::ShallowInitBox(op) => {
            let mut r = String::from_str("box ");
            let o = render_operand(op);
            r.append(o.as_str());
            proof {
                assert(r@ =~= rvalue_str(*rv));
            }
            r
        },
        RvalueData::CopyForDeref(p) => {
            let mut r = String::from_str("copy_deref(");
            let pl = render_place(p);
            r.append(pl.as_str());
            r.append(")");
            proof {
                assert(r@ =~= rvalue_str(*rv));
            }
            r
        },
        RvalueData::ThreadLocalRef => String::from_str("thread_local"),
    }
}

/// The annotation an rvalue earns: a short reading aid, empty where there
/// is nothing to say.
pub open spec fn rvalue_note(rv: RvalueData) -> Seq<char> {
    match rv {
        RvalueData::Use(Operand::Constant(_)) => "Load constant"@,
        RvalueData::Use(Operand::Copy(_)) => "Copy value"@,
        RvalueData::Use(Operand::Move(_)) => "Move value"@,
        RvalueData::Ref(crate::ir::RefKind::Shared, _) => "Shared borrow"@,
        RvalueData::Ref(crate::ir::RefKind::Mut, _) => "Mutable borrow"@,
        RvalueData::BinaryOp(op, _, _) => binop_name(op) + " operation"@,
        RvalueData::CheckedBinaryOp(op, _, _) => "Checked "@ + binop_name(op) + " (may panic)"@,
        RvalueData::UnaryOp(UnOpInfo::Not, _) => "Bitwise/logical NOT"@,
        RvalueData::UnaryOp(UnOpInfo::Neg, _) => "Negation"@,
        RvalueData::Cast(CastKindInfo::IntToInt, _, _) => "Integer conversion"@,
        RvalueData::Cast(CastKindInfo::PointerCoercion, _, _) => "Pointer coercion"@,
        RvalueData::Len(_) => "Get length"@,
        RvalueData::Discriminant(_) => "Get enum discriminant"@,
        RvalueData::Aggregate(_, _) => "Construct aggregate"@,
        RvalueData::AddressOf(_) => "Get raw pointer"@,
        _ => ""@,
    }
}

/// Generate a human-readable annotation for an rvalue.
pub fn annotate_rvalue(rv: &RvalueData) -> (r: String)
    ensures
        r@ == rvalue_note(*rv),
{
    match rv {
        RvalueData::Use(Operand::Constant(_)) => String::from_str("Load constant"),
        RvalueData::Use(Operand::Copy(_)) => String::from_str("Copy value"),
        RvalueData::Use(Operand::Move(_)) => String::from_str("Move value"),
        RvalueData::Ref(crate::ir::RefKind::Shared, _) => String::from_str("Shared borrow"),
        RvalueData::Ref(crate::ir::RefKind::Mut, _) => String::from_str("Mutable borrow"),
        RvalueData::BinaryOp(op, _, _) => {
            let mut r = String::from_str(op_name(op));
            r.append(" operation");
            proof {
                assert(r@ =~= rvalue_note(*rv));
            }
            r
        },
        RvalueData::CheckedBinaryOp(op, _, _) => {
            let mut r = String::from_str("Checked ");
            r.append(op_name(op));
            r.append(" (may panic)");
            proof {
                assert(r@ =~= rvalue_note(*rv));
            }
            r
        },
        RvalueData::UnaryOp(UnOpInfo::Not, _) => String::from_str("Bitwise/logical NOT"),
        RvalueData::UnaryOp(UnOpInfo::Neg, _) => String::from_str("Negation"),
        RvalueData::Cast(CastKindInfo::IntToInt, _, _) => String::from_str("Integer conversion"),
        RvalueData::Cast(CastKindInfo::PointerCoercion, _, _) => String::from_str(
            "Pointer coercion",
        ),
        RvalueData::Len(_) => String::from_str("Get length"),
        RvalueData::Discriminant(_) => String::from_str("Get enum discriminant"),
        RvalueData::Aggregate(_, _) => String::from_str("Construct aggregate"),
        RvalueData::AddressOf(_) => String::from_str("Get raw pointer"),
        _ => {
            let r = String::new();
            proof {
                reveal_strlit("");
                assert(r@ =~= ""@);
            }
            r
        },
    }
}

// =========================================================================
// HTML escaping
// =========================================================================

/// The HTML entity replacement of one character.
pub open spec fn html_c(c: char) -> Seq<char> {
    if c == '&' {
        "&amp;"@
    } else if c == '<' {
        "&lt;"@
    } else if c == '>' {
        "&gt;"@
    } else if c == '"' {
        "&quot;"@
    } else {
        seq![c]
    }
}

/// The HTML-escaped form of a string.
pub open spec fn html_escaped(s: Seq<char>) -> Seq<char>
    decreases s.len(),
{
    if s.len() == 0 {
        Seq::empty()
    } else {
        html_escaped(s.drop_last()) + html_c(s.last())
    }
}

/// Escape HTML special characters.
pub fn escape_html(s: &str) -> (r: String)
    ensures
        r@ == html_escaped(s@),
{
    let n = s.unicode_len();
    let mut r = String::new();
    let mut i: usize = 0;
    proof {
        assert(s@.take(0) =~= Seq::<char>::empty());
        assert(r@ =~= html_escaped(s@.take(0)));
    }
    while i < n
        invariant
            i <= n,
            n == s@.len(),
            r@ == html_escaped(s@.take(i as int)),
        decreases n - i,
    {
        proof {
            assert(s@.take(i + 1).drop_last() =~= s@.take(i as int));
            assert(s@.take(i + 1).last() == s@[i as int]);
        }
        let c = s.get_char(i);
        if c == '&' {
            r.append("&amp;");
        } else if c == '<' {
            r.append("&lt;");
        } else if c == '>' {
            r.append("&gt;");
        } else if c == '"' {
            r.append("&quot;");
        } else {
            push_char(&mut r, c);
            proof {
                assert(r@ =~= html_escaped(s@.take(i as int)) + html_c(c));
            }
        }
        proof {
            assert(r@ =~= html_escaped(s@.take(i + 1)));
        }
        i = i + 1;
    }
    proof {
        assert(s@.take(n as int) =~= s@);
    }
    r
}

} // verus!
