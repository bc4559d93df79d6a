//! The slice of the category IR that the emitter's analyses read: types,
//! literal values, objects, morphisms and functions, each addressed by its
//! index (an object, morphism or function id).
use vstd::prelude::*;

verus! {

/// A value type of the IR.
pub enum Ty {
    Int { bits: u32, signed: bool },
    Float { bits: u32 },
    Bool,
    Unit,
    Str,
    IoToken,
    Tuple(Vec<Ty>),
    Struct { name: String, fields: Vec<(String, Ty)> },
    Array { elem: Box<Ty>, size: u64 },
}

/// A literal value. Floating-point literals are held as their IEEE-754 bits.
pub enum Value {
    I32(i32),
    I64(i64),
    U8(u8),
    Bool(bool),
    F32(u32),
    F64(u64),
    Str(String),
}

#[derive(PartialEq, Eq, Structural, Clone, Copy)]
pub enum ObjectKind {
    Input,
    Constant,
    Temporary,
}

#[derive(Clone, Copy)]
/// The operations of the IR.
pub enum Operation {
    Add,
    Sub,
    Mul,
    Div,
    Mod,
    Eq,
    Neq,
    Lt,
    Gt,
    Le,
    Ge,
    Iota,
    Fill,
    Zip,
    Enumerate,
    Index,
    Update,
    Print { newline: bool },
    LoopEnter,
    LoopBack,
    LoopExit,
    Call(usize),
    MapEach { body: usize, captures: u32 },
    Fold { body: usize, captures: u32 },
    Pair { slot: u32 },
    Proj { index: u32 },
    Neg,
    And,
    Or,
    Not,
    Widen,
    Phi,
    TimeMs,
    Output,
}

/// What element `i` of an array is, without reading the array: the index
/// itself, one scalar broadcast, element `i` of another array, a pair of two
/// such laws, or a producer's body applied to an inner element.
#[allow(inconsistent_fields)]
pub enum ElemSrc {
    Index,
    Broadcast { source: usize, slot: u32 },
    Load { source: usize, slot: Option<u32> },
    Pair(Box<ElemSrc>, Box<ElemSrc>),
    Apply { body: usize, source: usize, captures: u32, inner: Box<ElemSrc>, array: usize },
}

pub struct Object {
    pub ty: Ty,
    pub kind: ObjectKind,
    pub value: Option<Value>,
    /// The function that owns the object, if any.
    pub owner: Option<usize>,
}

/// One conditional of the function's guard plan: the `Phi` morphism that
/// joins it, the morphisms only its true arm and only its false arm need,
/// and whether branching on it pays (the plan's verdict).
pub struct GuardSite {
    pub phi: usize,
    pub on_true: Vec<usize>,
    pub on_false: Vec<usize>,
    pub gated: bool,
}

/// A morphism `op: source -> target`.
pub struct Morphism {
    pub op: Operation,
    pub source: usize,
    pub target: usize,
}

pub struct FuncDef {
    /// The function's morphisms.
    pub morphisms: Vec<usize>,
    /// The `Index` morphisms its bounds proof shows in range.
    pub proven: Vec<usize>,
    /// Its morphisms in topological order.
    pub topo: Vec<usize>,
}

pub struct CategoryIr {
    pub objects: Vec<Object>,
    pub morphisms: Vec<Morphism>,
    pub funcs: Vec<FuncDef>,
    /// For each object, the morphisms that produce it.
    pub in_edges: Vec<Vec<usize>>,
    /// For each object, the morphisms that consume it.
    pub out_edges: Vec<Vec<usize>>,
}

impl CategoryIr {
    /// Every id the IR holds resolves.
    pub open spec fn wf(&self) -> bool {
        &&& forall|m: int|
            0 <= m < self.morphisms.len() ==> #[trigger] self.morphisms@[m].source
                < self.objects.len() && self.morphisms@[m].target < self.objects.len()
        &&& forall|f: int, j: int|
            0 <= f < self.funcs.len() && 0 <= j < self.funcs@[f].morphisms.len()
                ==> #[trigger] self.funcs@[f].morphisms@[j] < self.morphisms.len()
        &&& self.in_edges.len() == self.objects.len()
        &&& forall|o: int, j: int|
            0 <= o < self.in_edges.len() && 0 <= j < self.in_edges@[o].len()
                ==> #[trigger] self.in_edges@[o]@[j] < self.morphisms.len()
                && self.morphisms@[self.in_edges@[o]@[j] as int].target == o
        &&& self.out_edges.len() == self.objects.len()
        &&& forall|o: int, j: int|
            0 <= o < self.out_edges.len() && 0 <= j < self.out_edges@[o].len()
                ==> #[trigger] self.out_edges@[o]@[j] < self.morphisms.len()
    }
}

/// Does `ty` mention `IoToken` anywhere (top level or nested in a product)?
pub open spec fn has_token(ty: Ty) -> bool
    decreases ty, 0int,
{
    match ty {
        Ty::IoToken => true,
        Ty::Tuple(ts) => tys_have_token(ts@, ts.len() as int),
        Ty::Struct { fields, .. } => fields_have_token(fields@, fields.len() as int),
        _ => false,
    }
}

/// Does one of the first `k` types mention `IoToken`?
pub open spec fn tys_have_token(ts: Seq<Ty>, k: int) -> bool
    decreases ts, k,
{
    if k <= 0 || k > ts.len() {
        false
    } else {
        tys_have_token(ts, k - 1) || has_token(ts[k - 1])
    }
}

/// Does one of the first `k` named fields' types mention `IoToken`?
pub open spec fn fields_have_token(fs: Seq<(String, Ty)>, k: int) -> bool
    decreases fs, k,
{
    if k <= 0 || k > fs.len() {
        false
    } else {
        fields_have_token(fs, k - 1) || has_token(fs[k - 1].1)
    }
}

/// Does `ty` mention `IoToken` anywhere (top level or nested in a product)?
#[verifier::loop_isolation(false)]
pub fn ty_has_token(ty: &Ty) -> (r: bool)
    ensures
        r == has_token(*ty),
    decreases ty,
{
    match ty {
        Ty::IoToken => true,
        Ty::Tuple(ts) => {
            let mut i: usize = 0;
            while i < ts.len()
                invariant
                    0 <= i <= ts.len(),
                    !tys_have_token(ts@, i as int),
                decreases ts.len() - i,
            {
                if ty_has_token(&ts[i]) {
                    assert(tys_have_token(ts@, i + 1));
                    proof {
                        lemma_tys_token_prefix(ts@, i + 1, ts.len() as int);
                    }
                    return true;
                }
                i += 1;
            }
            false
        },
        Ty::Struct { fields, .. } => {
            let mut i: usize = 0;
            while i < fields.len()
                invariant
                    0 <= i <= fields.len(),
                    !fields_have_token(fields@, i as int),
                decreases fields.len() - i,
            {
                if ty_has_token(&fields[i].1) {
                    assert(fields_have_token(fields@, i + 1));
                    proof {
                        lemma_fields_token_prefix(fields@, i + 1, fields.len() as int);
                    }
                    return true;
                }
                i += 1;
            }
            false
        },
        _ => false,
    }
}

pub open spec fn is_float_ty(ty: Ty) -> bool {
    ty is Float
}

pub fn is_float(ty: &Ty) -> (r: bool)
    ensures
        r == is_float_ty(*ty),
{
    match ty {
        Ty::Float { .. } => true,
        _ => false,
    }
}

/// One of the first `k` types is an `Array`.
pub open spec fn tys_have_array(ts: Seq<Ty>, k: int) -> bool {
    exists|i: int| 0 <= i < k && i < ts.len() && #[trigger] ts[i] is Array
}

/// One of the first `k` named fields is an `Array`.
pub open spec fn fields_have_array(fs: Seq<(String, Ty)>, k: int) -> bool {
    exists|i: int| 0 <= i < k && i < fs.len() && #[trigger] fs[i].1 is Array
}

/// `ty` is an `Array` itself, or has one as a direct product component
/// (arrays nested deeper in products do not count).
pub open spec fn top_array(ty: Ty) -> bool {
    match ty {
        Ty::Array { .. } => true,
        Ty::Tuple(ts) => tys_have_array(ts@, ts.len() as int),
        Ty::Struct { fields, .. } => fields_have_array(fields@, fields.len() as int),
        _ => false,
    }
}

/// Does `ty` carry a top-level Array: the ty itself, or a direct product component?
#[verifier::loop_isolation(false)]
pub fn has_top_array(ty: &Ty) -> (r: bool)
    ensures
        r == top_array(*ty),
{
    match ty {
        Ty::Array { .. } => true,
        Ty::Tuple(ts) => {
            let mut i: usize = 0;
            while i < ts.len()
                invariant
                    0 <= i <= ts.len(),
                    !tys_have_array(ts@, i as int),
                decreases ts.len() - i,
            {
                if let Ty::Array { .. } = &ts[i] {
                    assert(ts@[i as int] is Array);
                    return true;
                }
                i += 1;
            }
            false
        },
        Ty::Struct { fields, .. } => {
            let mut i: usize = 0;
            while i < fields.len()
                invariant
                    0 <= i <= fields.len(),
                    !fields_have_array(fields@, i as int),
                decreases fields.len() - i,
            {
                if let Ty::Array { .. } = &fields[i].1 {
                    assert(fields@[i as int].1 is Array);
                    return true;
                }
                i += 1;
            }
            false
        },
        _ => false,
    }
}

/// The direct component count of a Tuple/Struct (0 for anything else).
pub open spec fn arity(ty: Ty) -> u32 {
    match ty {
        Ty::Tuple(ts) => ts.len() as u32,
        Ty::Struct { fields, .. } => fields.len() as u32,
        _ => 0,
    }
}

/// The direct component count of a Tuple/Struct (0 for anything else).
pub fn product_arity(ty: &Ty) -> (r: u32)
    ensures
        r == arity(*ty),
{
    match ty {
        Ty::Tuple(ts) => ts.len() as u32,
        Ty::Struct { fields, .. } => fields.len() as u32,
        _ => 0,
    }
}

/// The scalars `Print` accepts: 8-, 32- and 64-bit integers, booleans, and
/// 32- and 64-bit floats.
pub open spec fn printable(ty: Ty) -> bool {
    match ty {
        Ty::Int { bits, .. } => bits == 32 || bits == 64 || bits == 8,
        Ty::Bool => true,
        Ty::Float { bits } => bits == 32 || bits == 64,
        _ => false,
    }
}

/// `(runtime print function, needs zero-extension, LLVM type)` of a printable scalar.
pub open spec fn print_target(ty: Ty) -> (Seq<char>, bool, Seq<char>) {
    match ty {
        Ty::Int { bits, .. } => if bits == 32 {
            ("mapal_print_i32"@, false, "i32"@)
        } else if bits == 64 {
            ("mapal_print_i64"@, false, "i64"@)
        } else {
            ("mapal_print_u8"@, true, "i8"@)
        },
        Ty::Bool => ("mapal_print_bool"@, true, "i1"@),
        Ty::Float { bits } => if bits == 32 {
            ("mapal_print_f32"@, false, "float"@)
        } else {
            ("mapal_print_f64"@, false, "double"@)
        },
        _ => (Seq::empty(), false, Seq::empty()),
    }
}

/// Component `k` of a tuple or struct type.
pub open spec fn component(ty: Ty, k: int) -> Option<Ty> {
    match ty {
        Ty::Tuple(ts) => if 0 <= k < ts.len() {
            Some(ts@[k])
        } else {
            None
        },
        Ty::Struct { fields, .. } => if 0 <= k < fields.len() {
            Some(fields@[k].1)
        } else {
            None
        },
        _ => None,
    }
}

/// `(runtime print function, needs zero-extension, LLVM type)` for a printable scalar.
pub fn print_dispatch(ty: &Ty) -> (r: (&'static str, bool, &'static str))
    requires
        printable(*ty),
    ensures
        (r.0@, r.1, r.2@) == print_target(*ty),
        match *ty {
            Ty::Int { bits, .. } => if bits == 32 {
                r.0@ == "mapal_print_i32"@ && !r.1 && r.2@ == "i32"@
            } else if bits == 64 {
                r.0@ == "mapal_print_i64"@ && !r.1 && r.2@ == "i64"@
            } else {
                r.0@ == "mapal_print_u8"@ && r.1 && r.2@ == "i8"@
            },
            Ty::Bool => r.0@ == "mapal_print_bool"@ && r.1 && r.2@ == "i1"@,
            Ty::Float { bits } => if bits == 32 {
                r.0@ == "mapal_print_f32"@ && !r.1 && r.2@ == "float"@
            } else {
                r.0@ == "mapal_print_f64"@ && !r.1 && r.2@ == "double"@
            },
            _ => false,
        },
{
    match ty {
        Ty::Int { bits, .. } => {
            if *bits == 32 {
                ("mapal_print_i32", false, "i32")
            } else if *bits == 64 {
                ("mapal_print_i64", false, "i64")
            } else {
                ("mapal_print_u8", true, "i8")
            }
        },
        Ty::Bool => ("mapal_print_bool", true, "i1"),
        Ty::Float { bits } => {
            if *bits == 32 {
                ("mapal_print_f32", false, "float")
            } else {
                ("mapal_print_f64", false, "double")
            }
        },
        _ => ("", false, ""),
    }
}

/// An uppercase hexadecimal digit.
pub open spec fn hex_digit(d: int) -> char {
    if d < 10 {
        (d + 48) as char
    } else {
        (d + 55) as char
    }
}

/// The last `k` hexadecimal digits of `x`, most significant first.
pub open spec fn hex_digits(x: nat, k: nat) -> Seq<char>
    decreases k,
{
    if k == 0 {
        Seq::empty()
    } else {
        hex_digits(x / 16, (k - 1) as nat).push(hex_digit((x % 16) as int))
    }
}

/// The one-character text of a hexadecimal digit, uppercase.
fn hex_digit_str(d: u64) -> (r: &'static str)
    requires
        d < 16,
    ensures
        r@ == seq![hex_digit(d as int)],
{
    proof {
        reveal_strlit("0");
        reveal_strlit("1");
        reveal_strlit("2");
        reveal_strlit("3");
        reveal_strlit("4");
        reveal_strlit("5");
        reveal_strlit("6");
        reveal_strlit("7");
        reveal_strlit("8");
        reveal_strlit("9");
        reveal_strlit("A");
        reveal_strlit("B");
        reveal_strlit("C");
        reveal_strlit("D");
        reveal_strlit("E");
        reveal_strlit("F");
    }
    let r = if d == 0 {
        "0"
    } else if d == 1 {
        "1"
    } else if d == 2 {
        "2"
    } else if d == 3 {
        "3"
    } else if d == 4 {
        "4"
    } else if d == 5 {
        "5"
    } else if d == 6 {
        "6"
    } else if d == 7 {
        "7"
    } else if d == 8 {
        "8"
    } else if d == 9 {
        "9"
    } else if d == 10 {
        "A"
    } else if d == 11 {
        "B"
    } else if d == 12 {
        "C"
    } else if d == 13 {
        "D"
    } else if d == 14 {
        "E"
    } else {
        "F"
    };
    assert(r@ =~= seq![hex_digit(d as int)]);
    r
}

/// The last `k` hexadecimal digits of `x`, most significant first.
fn hex_tail(x: u64, k: u64) -> (r: String)
    ensures
        r@ == hex_digits(x as nat, k as nat),
    decreases k,
{
    if k == 0 {
        String::new()
    } else {
        let mut s = hex_tail(x / 16, k - 1);
        s.append(hex_digit_str(x % 16));
        assert(s@ =~= hex_digits((x / 16) as nat, (k - 1) as nat).push(hex_digit((x % 16) as int)));
        s
    }
}

/// `0x`, then the value in uppercase hexadecimal zero-padded to 16 digits
/// (what `format!("0x{:016X}", bits)` writes; a `u64` never needs more).
fn u64_hex16(bits: u64) -> (r: String)
    ensures
        r@ == seq!['0', 'x'] + hex_digits(bits as nat, 16),
{
    let mut s = String::from_str("0x");
    proof {
        reveal_strlit("0x");
    }
    s.append(hex_tail(bits, 16).as_str());
    s
}

/// The LLVM constant text of a scalar literal; a `double` as the 16-hex-digit
/// form of its bits.
pub open spec fn literal_text(v: Value) -> Seq<char> {
    match v {
        Value::I32(n) => crate::num::dec_int(n as int),
        Value::I64(n) => crate::num::dec_int(n as int),
        Value::U8(n) => crate::num::dec_nat(n as nat),
        Value::Bool(b) => if b {
            seq!['t', 'r', 'u', 'e']
        } else {
            seq!['f', 'a', 'l', 's', 'e']
        },
        Value::F64(bits) => seq!['0', 'x'] + hex_digits(bits as nat, 16),
        _ => Seq::empty(),
    }
}

/// The LLVM constant text for a scalar `Value`. A `float` literal's text goes
/// through its widening to `double`, which is float arithmetic: it is not
/// written here, and `F32` is outside this function's domain, as `Str` is.
pub fn const_literal(v: &Value) -> (r: String)
    requires
        !(v is Str),
        !(v is F32),
    ensures
        r@ == literal_text(*v),
{
    match v {
        Value::I32(n) => crate::num::i64_to_string(*n as i64),
        Value::I64(n) => crate::num::i64_to_string(*n),
        Value::U8(n) => crate::num::u64_to_string(*n as u64),
        Value::Bool(b) => {
            proof {
                reveal_strlit("true");
                reveal_strlit("false");
            }
            let r = if *b {
                String::from_str("true")
            } else {
                String::from_str("false")
            };
            assert(r@ =~= literal_text(*v));
            r
        },
        Value::F64(bits) => u64_hex16(*bits),
        _ => String::new(),
    }
}

/// The slot-`k` feeder among the producers `es`: the source of the first
/// `Pair` into slot `k`.
pub open spec fn pair_source_in(ir: CategoryIr, es: Seq<usize>, k: u32) -> Option<usize>
    decreases es.len(),
{
    if es.len() == 0 {
        None
    } else if ir.morphisms@[es[0] as int].op matches Operation::Pair { slot } && slot == k {
        Some(ir.morphisms@[es[0] as int].source)
    } else {
        pair_source_in(ir, es.drop_first(), k)
    }
}

/// The object that feeds slot `k` of the product object `agg`.
pub open spec fn pair_source(ir: CategoryIr, agg: usize, k: u32) -> Option<usize> {
    pair_source_in(ir, ir.in_edges@[agg as int]@, k)
}

/// Whether an operation reads component `k` of its source by address.
pub open spec fn reads_as_address(op: Operation, k: u32) -> bool {
    match op {
        Operation::Index | Operation::Update => k == 0,
        Operation::Zip => k <= 1,
        Operation::MapEach { captures, .. } => k <= captures,
        Operation::Fold { captures, .. } => k < captures || k == captures + 1,
        Operation::Call(_) => true,
        _ => false,
    }
}

/// Component `k` of the product object `agg` is an array fed by a `Pair`
/// that every use of `agg` (there is at least one) reads by address.
pub open spec fn pointer_only_component(ir: CategoryIr, agg: usize, k: u32) -> bool {
    &&& component(ir.objects@[agg as int].ty, k as int) matches Some(Ty::Array { .. })
    &&& pair_source(ir, agg, k) is Some
    &&& ir.out_edges@[agg as int].len() > 0
    &&& forall|j: int|
        0 <= j < ir.out_edges@[agg as int].len() ==> #[trigger] reads_as_address(
            ir.morphisms@[ir.out_edges@[agg as int]@[j] as int].op,
            k,
        )
}

/// The slot-`k` feeder of a product object (the source of a `Pair` into that slot).
pub fn pair_source_ir(ir: &CategoryIr, agg: usize, k: u32) -> (r: Option<usize>)
    requires
        ir.wf(),
        agg < ir.objects.len(),
    ensures
        r == pair_source(*ir, agg, k),
        r matches Some(o) ==> o < ir.objects.len(),
{
    let es = &ir.in_edges[agg];
    let mut i: usize = 0;
    assert(es@.subrange(0, es.len() as int) =~= es@);
    while i < es.len()
        invariant
            ir.wf(),
            agg < ir.objects.len(),
            es@ == ir.in_edges@[agg as int]@,
            0 <= i <= es.len(),
            pair_source(*ir, agg, k) == pair_source_in(*ir, es@.subrange(i as int, es.len() as int), k),
        decreases es.len() - i,
    {
        let m = es[i];
        assert(es@.subrange(i as int, es.len() as int)[0] == m);
        assert(es@.subrange(i as int, es.len() as int).drop_first() =~= es@.subrange(
            i + 1,
            es.len() as int,
        ));
        if let Operation::Pair { slot } = ir.morphisms[m].op {
            if slot == k {
                return Some(ir.morphisms[m].source);
            }
        }
        i += 1;
    }
    None
}

/// The literal integer behind slot `k` of `source`, if that feeder is an
/// integer constant.
pub open spec fn const_int(ir: CategoryIr, source: usize, k: u32) -> Option<i128> {
    match pair_source(ir, source, k) {
        None => None,
        Some(o) => {
            let obj = ir.objects@[o as int];
            if obj.kind != ObjectKind::Constant {
                None
            } else {
                match obj.value {
                    Some(Value::I32(n)) => Some(n as i128),
                    Some(Value::I64(n)) => Some(n as i128),
                    Some(Value::U8(n)) => Some(n as i128),
                    _ => None,
                }
            }
        },
    }
}

/// A literal int operand (the constant behind a pair slot); `None` when not a
/// literal int.
pub fn const_int_operand(ir: &CategoryIr, source: usize, k: u32) -> (r: Option<i128>)
    requires
        ir.wf(),
        source < ir.objects.len(),
    ensures
        r == const_int(*ir, source, k),
{
    let o = match pair_source_ir(ir, source, k) {
        Some(o) => o,
        None => return None,
    };
    let obj = &ir.objects[o];
    if obj.kind != ObjectKind::Constant {
        return None;
    }
    match &obj.value {
        Some(Value::I32(n)) => Some(*n as i128),
        Some(Value::I64(n)) => Some(*n as i128),
        Some(Value::U8(n)) => Some(*n as i128),
        _ => None,
    }
}

proof fn lemma_tys_token_prefix(ts: Seq<Ty>, k: int, n: int)
    requires
        0 <= k <= n <= ts.len(),
        tys_have_token(ts, k),
    ensures
        tys_have_token(ts, n),
    decreases n - k,
{
    if k < n {
        lemma_tys_token_prefix(ts, k + 1, n);
    }
}

proof fn lemma_fields_token_prefix(fs: Seq<(String, Ty)>, k: int, n: int)
    requires
        0 <= k <= n <= fs.len(),
        fields_have_token(fs, k),
    ensures
        fields_have_token(fs, n),
    decreases n - k,
{
    if k < n {
        lemma_fields_token_prefix(fs, k + 1, n);
    }
}

} // verus!
