use tapevm::rpn::{Error, Item, Op, Stack};

fn stack_of(items: &[Item]) -> Stack {
    let mut s = Stack::new();
    for it in items {
        s.push(*it).unwrap();
    }
    s
}

fn drain(s: &mut Stack) -> Vec<Item> {
    let mut out = vec![];
    while let Ok(it) = s.pop() {
        out.push(it);
    }
    out.reverse();
    out
}

#[test]
fn new_stack_is_empty() {
    let mut s = Stack::new();
    assert!(s.empty());
    assert_eq!(s.pop(), Err(Error::Empty));
    assert_eq!(s.push(Item::Int(1)), Ok(()));
    assert!(!s.empty());
    assert_eq!(s.top(), Some(Item::Int(1)));
    assert_eq!(s.pop(), Ok(Item::Int(1)));
    assert!(s.empty());
}

#[test]
fn add_two_ints() {
    let mut s = stack_of(&[Item::Int(2), Item::Int(3)]);
    assert_eq!(s.eval(Op::Add), Ok(()));
    assert_eq!(drain(&mut s), vec![Item::Int(5)]);
}

#[test]
fn add_wraps() {
    let mut s = stack_of(&[Item::Int(i32::MAX), Item::Int(1)]);
    assert_eq!(s.eval(Op::Add), Ok(()));
    assert_eq!(drain(&mut s), vec![Item::Int(i32::MIN)]);
}

#[test]
fn add_type_error_drops_operands() {
    let mut s = stack_of(&[Item::Int(9), Item::Bool(true), Item::Int(3)]);
    assert_eq!(s.eval(Op::Add), Err(Error::Type));
    assert_eq!(drain(&mut s), vec![Item::Int(9)]);
}

#[test]
fn too_few_items_empties_stack() {
    let mut s = stack_of(&[Item::Int(1)]);
    assert_eq!(s.eval(Op::Add), Err(Error::Empty));
    assert!(s.empty());
    let mut s = stack_of(&[Item::Bool(true), Item::Int(1)]);
    assert_eq!(s.eval(Op::Cond), Err(Error::Empty));
    assert!(s.empty());
}

#[test]
fn equality_of_ints_and_bools() {
    let mut s = stack_of(&[Item::Int(4), Item::Int(4)]);
    assert_eq!(s.eval(Op::Eq), Ok(()));
    assert_eq!(drain(&mut s), vec![Item::Bool(true)]);
    let mut s = stack_of(&[Item::Bool(true), Item::Bool(false)]);
    assert_eq!(s.eval(Op::Eq), Ok(()));
    assert_eq!(drain(&mut s), vec![Item::Bool(false)]);
    let mut s = stack_of(&[Item::Bool(true), Item::Int(1)]);
    assert_eq!(s.eval(Op::Eq), Err(Error::Type));
}

#[test]
fn negate_bool() {
    let mut s = stack_of(&[Item::Bool(false)]);
    assert_eq!(s.eval(Op::Neg), Ok(()));
    assert_eq!(drain(&mut s), vec![Item::Bool(true)]);
    let mut s = stack_of(&[Item::Int(1)]);
    assert_eq!(s.eval(Op::Neg), Err(Error::Type));
}

#[test]
fn swap_top_two() {
    let mut s = stack_of(&[Item::Int(1), Item::Int(2), Item::Bool(true)]);
    assert_eq!(s.eval(Op::Swap), Ok(()));
    assert_eq!(drain(&mut s), vec![Item::Int(1), Item::Bool(true), Item::Int(2)]);
}

#[test]
fn conditional_picks() {
    let mut s = stack_of(&[Item::Bool(true), Item::Int(10), Item::Int(20)]);
    assert_eq!(s.eval(Op::Cond), Ok(()));
    assert_eq!(drain(&mut s), vec![Item::Int(10)]);
    let mut s = stack_of(&[Item::Bool(false), Item::Int(10), Item::Int(20)]);
    assert_eq!(s.eval(Op::Cond), Ok(()));
    assert_eq!(drain(&mut s), vec![Item::Int(20)]);
    let mut s = stack_of(&[Item::Int(0), Item::Int(10), Item::Int(20)]);
    assert_eq!(s.eval(Op::Cond), Err(Error::Type));
    assert!(s.empty());
}

#[test]
fn quit_leaves_stack() {
    let mut s = stack_of(&[Item::Int(1)]);
    assert_eq!(s.eval(Op::Quit), Err(Error::Quit));
    assert_eq!(drain(&mut s), vec![Item::Int(1)]);
}

#[test]
fn rand_with_given_draw() {
    let mut s = stack_of(&[Item::Int(7)]);
    assert_eq!(s.eval_with(Op::Rand, -23), Ok(()));
    assert_eq!(drain(&mut s), vec![Item::Int(2)]);
    let mut s = stack_of(&[Item::Int(-5)]);
    assert_eq!(s.eval_with(Op::Rand, i32::MIN), Ok(()));
    assert_eq!(drain(&mut s), vec![Item::Int(3)]);
    let mut s = stack_of(&[Item::Bool(true)]);
    assert_eq!(s.eval_with(Op::Rand, 1), Err(Error::Type));
}

#[test]
fn rand_stays_in_range() {
    for _ in 0..50 {
        let mut s = stack_of(&[Item::Int(6)]);
        assert_eq!(s.eval(Op::Rand), Ok(()));
        match s.pop() {
            Ok(Item::Int(v)) => assert!((0..6).contains(&v)),
            other => panic!("unexpected {:?}", other),
        }
    }
}

#[test]
fn items_are_ordered() {
    assert!(Item::Int(1) < Item::Int(2));
    assert!(Item::Int(5) < Item::Bool(false));
    let errs = [Error::Empty, Error::Extra, Error::Type, Error::Syntax, Error::Quit];
    assert_eq!(errs.len(), 5);
}
