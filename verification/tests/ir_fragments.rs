use kangc::ir::{
    bounds_check_ir, for_ir, func_ir, if_ir, int_div_ir, logical_ir, panic_message, return_ir, str_eq_ir, Inst, Operand, PanicKind, Pred, Term,
};

#[test]
fn bounds_check_blocks_shape() {
    let blocks = bounds_check_ir(0, 1, 2, 3);
    assert_eq!(blocks.len(), 3);
    assert_eq!(blocks[0].label, 2);
    assert_eq!(blocks[0].term, Term::CondBr(5, 3, 4));
    assert_eq!(blocks[0].insts.len(), 3);
    assert!(matches!(
        blocks[0].insts[0],
        Inst::ICmp { dst: 3, pred: Pred::Slt, a: Operand::Reg(0), b: Operand::Int(0) }
    ));
    assert!(matches!(
        blocks[0].insts[1],
        Inst::ICmp { dst: 4, pred: Pred::Sge, a: Operand::Reg(0), b: Operand::Reg(1) }
    ));
    assert!(matches!(blocks[0].insts[2], Inst::Or { dst: 5, a: 3, b: 4 }));
    assert_eq!(blocks[1].label, 3);
    assert_eq!(blocks[1].term, Term::Panic(PanicKind::Bounds));
    assert!(blocks[1].insts.is_empty());
    assert_eq!(blocks[2].label, 4);
    assert_eq!(blocks[2].term, Term::Continue);
}

#[test]
fn int_div_checks_then_divides() {
    let (blocks, quotient) = int_div_ir(0, 1, 2, 3);
    assert_eq!(quotient, 7);
    let labels: Vec<u32> = blocks.iter().map(|b| b.label).collect();
    assert_eq!(labels, vec![2, 3, 4, 5, 6]);
    assert!(matches!(
        blocks[0].insts[0],
        Inst::ICmp { dst: 3, pred: Pred::Eq, a: Operand::Reg(1), b: Operand::Int(0) }
    ));
    assert_eq!(blocks[0].term, Term::CondBr(3, 3, 4));
    assert_eq!(blocks[1].term, Term::Panic(PanicKind::DivZero));
    assert!(matches!(
        blocks[2].insts[0],
        Inst::ICmp { dst: 4, pred: Pred::Eq, a: Operand::Reg(0), b: Operand::Int(i32::MIN) }
    ));
    assert!(matches!(
        blocks[2].insts[1],
        Inst::ICmp { dst: 5, pred: Pred::Eq, a: Operand::Reg(1), b: Operand::Int(-1) }
    ));
    assert!(matches!(blocks[2].insts[2], Inst::And { dst: 6, a: 4, b: 5 }));
    assert_eq!(blocks[2].term, Term::CondBr(6, 5, 6));
    assert_eq!(blocks[3].term, Term::Panic(PanicKind::Overflow));
    assert!(matches!(blocks[4].insts[0], Inst::SDiv { dst: 7, a: 0, b: 1 }));
    assert_eq!(blocks[4].term, Term::Continue);
}

#[test]
fn str_eq_blocks_shape() {
    let (blocks, result) = str_eq_ir(0, 1, false, 2, 3);
    assert_eq!(result, 12);
    let labels: Vec<u32> = blocks.iter().map(|b| b.label).collect();
    assert_eq!(labels, vec![2, 3, 4, 5, 6, 7]);
    assert!(matches!(blocks[0].insts[0], Inst::StrLen { dst: 3, s: 0 }));
    assert!(matches!(blocks[0].insts[1], Inst::StrLen { dst: 4, s: 1 }));
    assert_eq!(blocks[0].term, Term::CondBr(5, 3, 7));
    assert!(matches!(blocks[1].insts[0], Inst::Alloca { slot: 3 }));
    assert!(matches!(blocks[1].insts[1], Inst::Store { slot: 3, val: Operand::Int(0) }));
    assert_eq!(blocks[2].term, Term::CondBr(7, 5, 7));
    assert!(matches!(blocks[3].insts[0], Inst::StrByte { dst: 8, s: 0, idx: 6 }));
    assert!(matches!(blocks[3].insts[1], Inst::StrByte { dst: 9, s: 1, idx: 6 }));
    assert_eq!(blocks[3].term, Term::CondBr(10, 6, 7));
    assert!(matches!(blocks[4].insts[0], Inst::Add { dst: 11, a: 6, b: Operand::Int(1) }));
    assert_eq!(blocks[4].term, Term::Br(4));
    assert_eq!(blocks[5].insts.len(), 1);
    match &blocks[5].insts[0] {
        Inst::Phi { dst, incoming } => {
            assert_eq!(*dst, 12);
            assert_eq!(
                incoming,
                &vec![(Operand::Bool(false), 2), (Operand::Bool(false), 5), (Operand::Bool(true), 4)]
            );
        }
        other => panic!("unexpected {:?}", other),
    }
    assert_eq!(blocks[5].term, Term::Continue);
}

#[test]
fn str_ne_negates_the_result() {
    let (blocks, result) = str_eq_ir(0, 1, true, 2, 3);
    assert_eq!(result, 13);
    assert_eq!(blocks[5].insts.len(), 2);
    assert!(matches!(blocks[5].insts[1], Inst::Xor { dst: 13, a: 12, b: Operand::Bool(true) }));
}

#[test]
fn panic_messages() {
    assert_eq!(panic_message(PanicKind::Bounds), ("index out of bounds", "bounds"));
    assert_eq!(panic_message(PanicKind::DivZero), ("division by zero", "divz"));
    assert_eq!(panic_message(PanicKind::Overflow), ("integer overflow", "overflow"));
}

#[test]
fn if_blocks_shape() {
    let blocks = if_ir(0, 1, Some(2), 0, 1);
    let labels: Vec<u32> = blocks.iter().map(|b| b.label).collect();
    assert_eq!(labels, vec![0, 1, 2, 3]);
    assert!(matches!(blocks[0].insts[0], Inst::Part { part: 0, dst: 1 }));
    assert!(matches!(blocks[0].insts[1], Inst::IsTrue { dst: 2, src: 1 }));
    assert_eq!(blocks[0].term, Term::CondBr(2, 1, 2));
    assert!(matches!(blocks[1].insts[0], Inst::Part { part: 1, .. }));
    assert_eq!(blocks[1].term, Term::Fallthrough(3));
    assert!(matches!(blocks[2].insts[0], Inst::Part { part: 2, .. }));
    assert_eq!(blocks[2].term, Term::Fallthrough(3));
    assert!(blocks[3].insts.is_empty());
    assert_eq!(blocks[3].term, Term::Continue);
}

#[test]
fn if_without_else_has_an_empty_else_block() {
    let blocks = if_ir(0, 1, None, 0, 1);
    assert_eq!(blocks.len(), 4);
    assert!(blocks[2].insts.is_empty());
    assert_eq!(blocks[2].term, Term::Fallthrough(3));
}

#[test]
fn for_blocks_shape() {
    let blocks = for_ir(0, 1, 2, 3, 0, 1);
    let labels: Vec<u32> = blocks.iter().map(|b| b.label).collect();
    assert_eq!(labels, vec![0, 1, 2, 3]);
    assert!(matches!(blocks[0].insts[0], Inst::Part { part: 0, .. }));
    assert_eq!(blocks[0].term, Term::Br(1));
    assert!(matches!(blocks[1].insts[0], Inst::Part { part: 1, dst: 1 }));
    assert!(matches!(blocks[1].insts[1], Inst::IsTrue { dst: 2, src: 1 }));
    assert_eq!(blocks[1].term, Term::CondBr(2, 2, 3));
    assert_eq!(blocks[2].insts.len(), 2);
    assert!(matches!(blocks[2].insts[0], Inst::Part { part: 2, .. }));
    assert!(matches!(blocks[2].insts[1], Inst::Part { part: 3, .. }));
    assert_eq!(blocks[2].term, Term::Fallthrough(1));
    assert_eq!(blocks[3].term, Term::Continue);
}

#[test]
fn function_blocks_hold_every_part_in_order() {
    let blocks = func_ir(3, true);
    assert_eq!(blocks.len(), 1);
    assert_eq!(blocks[0].label, 0);
    assert_eq!(blocks[0].insts.len(), 3);
    for (k, inst) in blocks[0].insts.iter().enumerate() {
        match inst {
            Inst::Part { part, .. } => assert_eq!(*part, k as u32),
            other => panic!("unexpected {:?}", other),
        }
    }
    assert_eq!(blocks[0].term, Term::FallOff(true));
}

#[test]
fn function_with_a_result_ends_unreachable() {
    let blocks = func_ir(0, false);
    assert_eq!(blocks.len(), 1);
    assert!(blocks[0].insts.is_empty());
    assert_eq!(blocks[0].term, Term::FallOff(false));
}

#[test]
fn logical_operators_test_both_operands() {
    let (blocks, result) = logical_ir(true, 0, 1, 2, 3);
    assert_eq!(result, 5);
    assert_eq!(blocks.len(), 1);
    assert!(matches!(blocks[0].insts[0], Inst::IsTrue { dst: 3, src: 0 }));
    assert!(matches!(blocks[0].insts[1], Inst::IsTrue { dst: 4, src: 1 }));
    assert!(matches!(blocks[0].insts[2], Inst::And { dst: 5, a: 3, b: 4 }));
    assert_eq!(blocks[0].term, Term::Continue);
    let (blocks, _) = logical_ir(false, 0, 1, 2, 3);
    assert!(matches!(blocks[0].insts[2], Inst::Or { dst: 5, a: 3, b: 4 }));
}

#[test]
fn return_blocks_by_count() {
    let none = return_ir(0, 0, 1);
    assert!(none[0].insts.is_empty());
    assert_eq!(none[0].term, Term::Ret(None));
    let one = return_ir(1, 0, 1);
    assert!(matches!(one[0].insts[0], Inst::Part { part: 0, dst: 1 }));
    assert_eq!(one[0].term, Term::Ret(Some(1)));
    let two = return_ir(2, 0, 1);
    assert_eq!(two[0].insts.len(), 3);
    assert!(matches!(two[0].insts[1], Inst::Part { part: 1, dst: 2 }));
    assert!(matches!(two[0].insts[2], Inst::Pack { dst: 3, a: 1, b: 2 }));
    assert_eq!(two[0].term, Term::Ret(Some(3)));
}
