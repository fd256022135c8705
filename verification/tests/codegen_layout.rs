use kangc::ast::{BinOp, Expr, LValue, UnaryOp};
use kangc::lowering::{lower_assign_target, lower_index, AssignTarget, IndexLowering, IndexSource};
use kangc::lowering::{
    c_abi_passing, lower_binary, lower_unary, pair_return, resolve_overloaded_name, str_conversion, unpack_pair_first,
    ArgPassing, BinaryLowering, OperandError, PairReturn, StrConversion, StructTable, UnaryLowering,
};
use kangc::semantic::types::{KangType, TypedExpr, TypedExprKind};

fn arg(ty: KangType) -> TypedExpr {
    TypedExpr { kind: TypedExprKind::IntLit("1".to_string()), ty }
}

fn st(name: &str) -> KangType {
    KangType::Struct(name.to_string())
}

fn pair(a: KangType, b: KangType) -> KangType {
    KangType::Pair(Box::new(a), Box::new(b))
}

fn fields(list: &[(&str, KangType)]) -> Vec<(String, KangType)> {
    list.iter().map(|(n, t)| (n.to_string(), t.clone())).collect()
}

#[test]
fn overloads_resolve_by_first_argument() {
    assert_eq!(resolve_overloaded_name("str", &[arg(KangType::I32)]), "str_i32");
    assert_eq!(resolve_overloaded_name("str", &[arg(KangType::F64)]), "str_f64");
    assert_eq!(resolve_overloaded_name("str", &[arg(KangType::Bool)]), "str_bool");
    assert_eq!(resolve_overloaded_name("str", &[arg(KangType::Str)]), "str");
    assert_eq!(resolve_overloaded_name("i32", &[arg(KangType::Str)]), "i32_str");
    assert_eq!(resolve_overloaded_name("i32", &[arg(KangType::F64)]), "i32_f64");
    assert_eq!(resolve_overloaded_name("f64", &[arg(KangType::Str)]), "f64_str");
    assert_eq!(resolve_overloaded_name("f64", &[arg(KangType::I32)]), "f64_i32");
    assert_eq!(resolve_overloaded_name("bool", &[arg(KangType::Str)]), "bool_str");
    assert_eq!(resolve_overloaded_name("bool", &[arg(KangType::I32)]), "bool");
}

#[test]
fn overloads_see_through_pairs_and_keep_other_names() {
    assert_eq!(resolve_overloaded_name("str", &[arg(pair(KangType::I32, KangType::Bool))]), "str_i32");
    assert_eq!(resolve_overloaded_name("i32", &[arg(pair(KangType::Str, KangType::Bool))]), "i32_str");
    assert_eq!(resolve_overloaded_name("puts", &[arg(KangType::Str)]), "puts");
    assert_eq!(resolve_overloaded_name("str", &[]), "str");
    assert_eq!(*unpack_pair_first(&pair(KangType::F64, KangType::Bool)), KangType::F64);
    assert_eq!(*unpack_pair_first(&KangType::Bool), KangType::Bool);
}

#[test]
fn scalar_and_reference_sizes() {
    let t = StructTable::new();
    assert_eq!(t.size_of(&KangType::I32), 4);
    assert_eq!(t.size_of(&KangType::F64), 8);
    assert_eq!(t.size_of(&KangType::Bool), 1);
    assert_eq!(t.size_of(&KangType::Str), 16);
    assert_eq!(t.size_of(&KangType::Array(Box::new(KangType::F64))), 16);
    assert_eq!(t.size_of(&KangType::Void), 0);
    assert_eq!(t.alignment_of(&KangType::Str), 8);
    assert_eq!(t.alignment_of(&KangType::Bool), 1);
}

#[test]
fn pairs_are_laid_out_as_two_fields() {
    let t = StructTable::new();
    assert_eq!(t.size_of(&pair(KangType::I32, KangType::Bool)), 8);
    assert_eq!(t.alignment_of(&pair(KangType::Bool, KangType::I32)), 4);
    assert_eq!(t.size_of(&pair(KangType::Bool, KangType::F64)), 16);
    assert_eq!(t.size_of(&pair(KangType::Bool, KangType::Bool)), 2);
}

#[test]
fn structs_pad_fields_and_the_whole() {
    let mut t = StructTable::new();
    t.register("P", &fields(&[("x", KangType::I32), ("y", KangType::F64)]));
    t.register("Q", &fields(&[("a", KangType::Bool), ("b", st("P")), ("c", KangType::Bool)]));
    t.register("E", &[]);
    assert_eq!(t.size_of(&st("P")), 16);
    assert_eq!(t.size_of(&st("Q")), 32);
    assert_eq!(t.alignment_of(&st("Q")), 8);
    assert_eq!(t.size_of(&st("E")), 0);
    assert_eq!(t.alignment_of(&st("E")), 8);
    for ty in [st("P"), st("Q"), st("E"), pair(KangType::Bool, st("P"))] {
        assert_eq!(t.size_of(&ty) % t.alignment_of(&ty), 0);
    }
}

#[test]
fn registering_again_replaces_the_fields() {
    let mut t = StructTable::new();
    t.register("P", &fields(&[("x", KangType::I32), ("y", KangType::F64)]));
    t.register("P", &fields(&[("x", KangType::Bool)]));
    assert_eq!(t.entries.len(), 1);
    assert_eq!(t.size_of(&st("P")), 1);
}

#[test]
fn cycles_and_missing_structs_have_no_layout() {
    let mut t = StructTable::new();
    t.register("A", &fields(&[("b", st("B"))]));
    t.register("B", &fields(&[("a", st("A"))]));
    t.register("C", &fields(&[("items", KangType::Array(Box::new(st("C"))))]));
    assert!(!t.lays_out(&st("A")));
    assert_eq!(t.checked_size_of(&st("B")), None);
    assert!(!t.lays_out(&st("Z")));
    assert_eq!(t.checked_size_of(&pair(KangType::I32, st("Z"))), None);
    assert!(t.lays_out(&st("C")));
    assert_eq!(t.checked_size_of(&st("C")), Some(16));
}

#[test]
fn binary_operators_by_operand_types() {
    let (i, f, b, s) = (KangType::I32, KangType::F64, KangType::Bool, KangType::Str);
    assert_eq!(lower_binary(BinOp::Add, &s, &i), BinaryLowering::StrConcat);
    assert_eq!(lower_binary(BinOp::Add, &i, &s), BinaryLowering::StrConcat);
    assert_eq!(lower_binary(BinOp::Eq, &s, &s), BinaryLowering::StrEq { negate: false });
    assert_eq!(lower_binary(BinOp::Neq, &s, &s), BinaryLowering::StrEq { negate: true });
    assert_eq!(lower_binary(BinOp::Add, &i, &i), BinaryLowering::Int(BinOp::Add));
    assert_eq!(lower_binary(BinOp::Mul, &f, &f), BinaryLowering::Float(BinOp::Mul));
    assert_eq!(lower_binary(BinOp::Lt, &b, &b), BinaryLowering::Int(BinOp::Lt));
    assert_eq!(lower_binary(BinOp::Ge, &f, &f), BinaryLowering::Float(BinOp::Ge));
    assert_eq!(lower_binary(BinOp::And, &b, &b), BinaryLowering::Logical(BinOp::And));
    assert_eq!(lower_binary(BinOp::Sub, &s, &s), BinaryLowering::Unsupported(OperandError::Arith));
    assert_eq!(lower_binary(BinOp::Lt, &s, &s), BinaryLowering::Unsupported(OperandError::Compare));
}

#[test]
fn divisions_are_always_checked() {
    assert_eq!(lower_binary(BinOp::Div, &KangType::I32, &KangType::I32), BinaryLowering::IntDivChecked);
    assert_eq!(lower_binary(BinOp::Div, &KangType::F64, &KangType::F64), BinaryLowering::FloatDivChecked);
    assert_eq!(
        lower_binary(BinOp::Div, &KangType::Str, &KangType::Str),
        BinaryLowering::Unsupported(OperandError::Div)
    );
    assert_eq!(OperandError::Div.message(), "除法仅支持 i32/f64");
}

#[test]
fn unary_operators_by_operand_type() {
    assert_eq!(lower_unary(UnaryOp::Neg, &KangType::I32), UnaryLowering::IntNeg);
    assert_eq!(lower_unary(UnaryOp::Neg, &KangType::F64), UnaryLowering::FloatNeg);
    assert_eq!(lower_unary(UnaryOp::Not, &KangType::Bool), UnaryLowering::Not);
    assert_eq!(lower_unary(UnaryOp::Neg, &KangType::Str), UnaryLowering::Unsupported(OperandError::Neg));
    assert_eq!(OperandError::Neg.message(), "取负仅支持 i32/f64");
}

#[test]
fn arguments_to_the_c_runtime() {
    assert_eq!(c_abi_passing(&KangType::Str), ArgPassing::PtrAndLen);
    assert_eq!(c_abi_passing(&KangType::Array(Box::new(KangType::I32))), ArgPassing::PtrAndLen);
    assert_eq!(c_abi_passing(&pair(KangType::I32, KangType::Bool)), ArgPassing::FirstOfPair);
    assert_eq!(c_abi_passing(&KangType::Bool), ArgPassing::BoolAsI32);
    assert_eq!(c_abi_passing(&KangType::F64), ArgPassing::AsIs);
    assert_eq!(str_conversion(&KangType::I32), StrConversion::FromI32);
    assert_eq!(str_conversion(&KangType::F64), StrConversion::FromF64);
    assert_eq!(str_conversion(&KangType::Bool), StrConversion::FromBool);
    assert_eq!(str_conversion(&KangType::Str), StrConversion::Keep);
}

#[test]
fn pairs_from_the_c_runtime() {
    assert_eq!(pair_return(&pair(KangType::Str, KangType::Bool)), PairReturn::StrBool);
    assert_eq!(pair_return(&pair(KangType::I32, KangType::Bool)), PairReturn::IntBool);
    assert_eq!(pair_return(&pair(KangType::F64, KangType::Bool)), PairReturn::FloatBool);
    assert_eq!(pair_return(&pair(KangType::Bool, KangType::Bool)), PairReturn::BoolBool);
    assert_eq!(pair_return(&pair(KangType::I32, KangType::I32)), PairReturn::AsIs);
    assert_eq!(pair_return(&KangType::Str), PairReturn::AsIs);
}

#[test]
fn every_index_is_checked_or_refused() {
    assert_eq!(lower_index(&KangType::Str), IndexLowering::CheckedStrByte);
    assert_eq!(lower_index(&KangType::Array(Box::new(KangType::F64))), IndexLowering::CheckedArrayElement);
    assert_eq!(lower_index(&KangType::I32), IndexLowering::Unsupported);
}

#[test]
fn assignment_targets_by_form() {
    let id = |n: &str| Box::new(Expr::Ident(n.to_string(), 0..1));
    match lower_assign_target(&LValue::Ident("x".into(), 0..1)) {
        AssignTarget::Variable(n) => assert_eq!(n, "x"),
        other => panic!("{:?}", other),
    }
    match lower_assign_target(&LValue::Index { array: id("a"), index: Box::new(Expr::IntLit("3".into(), 2..3)), span: 0..4 }) {
        AssignTarget::Element { array, index: IndexSource::Literal(v) } => assert_eq!((array.as_str(), v.as_str()), ("a", "3")),
        other => panic!("{:?}", other),
    }
    match lower_assign_target(&LValue::Index { array: id("a"), index: id("i"), span: 0..4 }) {
        AssignTarget::Element { array, index: IndexSource::Variable(v) } => assert_eq!((array.as_str(), v.as_str()), ("a", "i")),
        other => panic!("{:?}", other),
    }
    let call = Box::new(Expr::Call { func: id("f"), args: vec![], span: 0..3 });
    match lower_assign_target(&LValue::Index { array: call, index: id("i"), span: 0..4 }) {
        AssignTarget::Unsupported(m) => assert_eq!(m, "数组索引左值必须是变量"),
        other => panic!("{:?}", other),
    }
    let sum = Box::new(Expr::Binary { left: id("i"), op: kangc::ast::BinOp::Add, right: id("j"), span: 0..3 });
    match lower_assign_target(&LValue::Index { array: id("a"), index: sum, span: 0..4 }) {
        AssignTarget::Unsupported(m) => assert_eq!(m, "左值中不支持的表达式类型"),
        other => panic!("{:?}", other),
    }
    match lower_assign_target(&LValue::FieldAccess { obj: id("p"), field: "x".into(), span: 0..3 }) {
        AssignTarget::Field { object, field } => assert_eq!((object.as_str(), field.as_str()), ("p", "x")),
        other => panic!("{:?}", other),
    }
}
