use lib::ir::{
    const_int_operand, const_literal, has_top_array, is_float, pair_source_ir, print_dispatch,
    product_arity, ty_has_token, CategoryIr, Morphism, Object, ObjectKind, Operation, Ty, Value,
};
use lib::sign_pred;

fn int_ty(bits: u32) -> Ty {
    Ty::Int { bits, signed: true }
}

fn arr(elem: Ty) -> Ty {
    Ty::Array { elem: Box::new(elem), size: 4 }
}

#[test]
fn token_anywhere_in_a_product() {
    assert!(ty_has_token(&Ty::IoToken));
    assert!(!ty_has_token(&int_ty(32)));
    assert!(ty_has_token(&Ty::Tuple(vec![int_ty(32), Ty::Tuple(vec![Ty::IoToken])])));
    assert!(ty_has_token(&Ty::Struct {
        name: "S".to_string(),
        fields: vec![("a".to_string(), Ty::Bool), ("t".to_string(), Ty::IoToken)],
    }));
    assert!(!ty_has_token(&arr(Ty::IoToken)));
    assert!(!ty_has_token(&Ty::Tuple(vec![])));
}

#[test]
fn top_level_arrays_only() {
    assert!(has_top_array(&arr(int_ty(8))));
    assert!(has_top_array(&Ty::Tuple(vec![int_ty(8), arr(int_ty(8))])));
    assert!(!has_top_array(&Ty::Tuple(vec![Ty::Tuple(vec![arr(int_ty(8))])])));
    assert!(has_top_array(&Ty::Struct { name: "S".to_string(), fields: vec![("a".to_string(), arr(Ty::Bool))] }));
    assert!(!has_top_array(&Ty::Bool));
}

#[test]
fn arity_of_products() {
    assert_eq!(product_arity(&Ty::Tuple(vec![Ty::Bool, Ty::Unit, Ty::Str])), 3);
    assert_eq!(product_arity(&Ty::Struct { name: "S".to_string(), fields: vec![] }), 0);
    assert_eq!(product_arity(&arr(Ty::Bool)), 0);
}

#[test]
fn floats() {
    assert!(is_float(&Ty::Float { bits: 64 }));
    assert!(!is_float(&int_ty(64)));
}

#[test]
fn print_functions_by_type() {
    assert_eq!(print_dispatch(&int_ty(32)), ("mapal_print_i32", false, "i32"));
    assert_eq!(print_dispatch(&int_ty(64)), ("mapal_print_i64", false, "i64"));
    assert_eq!(print_dispatch(&Ty::Int { bits: 8, signed: false }), ("mapal_print_u8", true, "i8"));
    assert_eq!(print_dispatch(&Ty::Bool), ("mapal_print_bool", true, "i1"));
    assert_eq!(print_dispatch(&Ty::Float { bits: 32 }), ("mapal_print_f32", false, "float"));
    assert_eq!(print_dispatch(&Ty::Float { bits: 64 }), ("mapal_print_f64", false, "double"));
}

#[test]
fn literal_texts() {
    assert_eq!(const_literal(&Value::I32(-2147483648)), "-2147483648");
    assert_eq!(const_literal(&Value::I64(42)), "42");
    assert_eq!(const_literal(&Value::U8(255)), "255");
    assert_eq!(const_literal(&Value::Bool(true)), "true");
    assert_eq!(const_literal(&Value::Bool(false)), "false");
    assert_eq!(const_literal(&Value::F64(1.5f64.to_bits())), "0x3FF8000000000000");
    assert_eq!(const_literal(&Value::F64(0)), "0x0000000000000000");
}

#[test]
fn predicate_spelling() {
    assert_eq!(sign_pred(true, "slt", "ult"), "slt");
    assert_eq!(sign_pred(false, "slt", "ult"), "ult");
}

fn product_ir() -> CategoryIr {
    let o = |ty, kind, value| Object { ty, kind, value, owner: Some(0) };
    CategoryIr {
        objects: vec![
            o(int_ty(32), ObjectKind::Input, None),
            o(int_ty(64), ObjectKind::Constant, Some(Value::I64(-7))),
            o(Ty::Tuple(vec![int_ty(32), int_ty(64)]), ObjectKind::Temporary, None),
            o(Ty::Bool, ObjectKind::Constant, Some(Value::Bool(true))),
            o(Ty::Tuple(vec![int_ty(32), Ty::Bool]), ObjectKind::Temporary, None),
        ],
        morphisms: vec![
            Morphism { op: Operation::Pair { slot: 0 }, source: 0, target: 2 },
            Morphism { op: Operation::Pair { slot: 1 }, source: 1, target: 2 },
            Morphism { op: Operation::Pair { slot: 1 }, source: 3, target: 4 },
            Morphism { op: Operation::Pair { slot: 0 }, source: 0, target: 4 },
        ],
        funcs: vec![],
        in_edges: vec![vec![], vec![], vec![0, 1], vec![], vec![2, 3]],
        out_edges: vec![vec![0, 3], vec![1], vec![], vec![2], vec![]],
    }
}

#[test]
fn slot_feeders() {
    let ir = product_ir();
    assert_eq!(pair_source_ir(&ir, 2, 0), Some(0));
    assert_eq!(pair_source_ir(&ir, 2, 1), Some(1));
    assert_eq!(pair_source_ir(&ir, 2, 2), None);
    assert_eq!(pair_source_ir(&ir, 4, 0), Some(0));
    assert_eq!(pair_source_ir(&ir, 0, 0), None);
}

#[test]
fn literal_int_operands() {
    let ir = product_ir();
    assert_eq!(const_int_operand(&ir, 2, 1), Some(-7));
    assert_eq!(const_int_operand(&ir, 2, 0), None);
    assert_eq!(const_int_operand(&ir, 4, 1), None);
    assert_eq!(const_int_operand(&ir, 4, 3), None);
}

#[test]
fn integer_and_hex_spellings_at_the_extremes() {
    assert_eq!(const_literal(&Value::I64(i64::MIN)), "-9223372036854775808");
    assert_eq!(const_literal(&Value::I64(i64::MAX)), "9223372036854775807");
    assert_eq!(const_literal(&Value::I64(0)), "0");
    assert_eq!(const_literal(&Value::I32(-7)), "-7");
    assert_eq!(const_literal(&Value::U8(0)), "0");
    assert_eq!(const_literal(&Value::F64(u64::MAX)), "0xFFFFFFFFFFFFFFFF");
    assert_eq!(const_literal(&Value::F64(0xABCDEF0123456789)), "0xABCDEF0123456789");
}
