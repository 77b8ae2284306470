use rmosh::error::VmError;
use rmosh::gc::Gc;
use rmosh::objects::{Closure, Object, Pair, Procedure};
use rmosh::op::Op;
use rmosh::vm::Vm;

fn size_of_pair() -> usize {
    std::mem::size_of::<Pair>()
}

// Base closure + procedure as free variable
fn size_of_min_vm() -> usize {
    std::mem::size_of::<Closure>() + std::mem::size_of::<Procedure>()
}

fn test_ops_with_size(vm: &mut Vm, ops: Vec<Op>, expected: Object, expected_heap_diff: usize) {
    let before_size = vm.gc.bytes_allocated();
    let ret = vm.run(ops);
    vm.mark_and_sweep();
    vm.collect();
    let after_size = vm.gc.bytes_allocated();
    assert_eq!(after_size - before_size, size_of_min_vm() + expected_heap_diff);
    assert_eq!(ret, Ok(expected));
}

// Custom hand written tests.
#[test]
fn test_symbol_intern() {
    let mut gc = Gc::new();

    let symbol = gc.intern("foo".to_owned());
    let symbol2 = gc.intern("foo".to_owned());
    assert_eq!(symbol, symbol2);
}

#[test]
fn test_vm_call_proc() {
    let mut vm = Vm::new();
    // ((lambda (a) (+ a a))
    let ops: Vec<Op> = vec![
        Op::Frame(8),
        Op::Constant(Object::Number(3)),
        Op::Push,
        Op::ReferFree(0),
        Op::Call(1),
    ];
    let before_size = vm.gc.bytes_allocated();
    let ret = vm.run(ops);
    vm.mark_and_sweep();
    vm.collect();
    let after_size = vm.gc.bytes_allocated();
    assert_eq!(after_size - before_size, size_of_min_vm());
    match ret {
        Ok(Object::Undef) => {}
        _ => panic!("ac was {:?}", ret),
    }
}

#[test]
fn test_vm_alloc_many_pairs() {
    let mut vm = Vm::new();
    let mut ops = vec![];

    for _ in 0..100 {
        ops.push(Op::Constant(Object::Number(99)));
        ops.push(Op::Push);
        ops.push(Op::Constant(Object::Number(101)));
        ops.push(Op::Cons);
    }
    let before_size = vm.gc.bytes_allocated();
    let _ = vm.run(ops);
    vm.mark_and_sweep();
    vm.collect();
    let after_size = vm.gc.bytes_allocated();
    assert_eq!(after_size - before_size, size_of_min_vm() + size_of_pair());
}

#[test]
fn test_vm_define() {
    let mut vm = Vm::new();
    let ops = vec![
        Op::Constant(Object::Number(9)),
        Op::DefineGlobal(vm.gc.intern("a".to_owned())),
        Op::ReferGlobal(vm.gc.intern("a".to_owned())),
    ];
    let before_size = vm.gc.bytes_allocated();
    let ret = vm.run(ops);
    vm.mark_and_sweep();
    vm.collect();
    let after_size = vm.gc.bytes_allocated();
    assert_eq!(after_size - before_size, size_of_min_vm());
    match ret {
        Ok(Object::Number(a)) => {
            assert_eq!(a, 9);
        }
        _ => panic!("{:?}", "todo"),
    }
}

#[test]
fn test_vm_run_add_pair() {
    let mut vm = Vm::new();
    let ops = vec![
        Op::Constant(Object::Number(99)),
        Op::Push,
        Op::Constant(Object::Number(101)),
        Op::Cons,
        Op::AddPair,
    ];
    let before_size = vm.gc.bytes_allocated();
    let ret = vm.run(ops);
    vm.mark_and_sweep();
    vm.collect();
    let after_size = vm.gc.bytes_allocated();
    assert_eq!(after_size - before_size, size_of_min_vm());
    match ret {
        Ok(Object::Number(a)) => {
            assert_eq!(a, 200);
        }
        _ => panic!("{:?}", "todo"),
    }
}

// All ops in the following tests are generated in data/.

#[test]
fn test_call0() {
    let mut vm = Vm::new();
    let ops = vec![
        Op::Frame(5),
        Op::Closure {
            size: 3,
            arg_len: 0,
            is_optional_arg: false,
            num_free_vars: 0,
        },
        Op::Constant(Object::Number(3)),
        Op::Return(0),
        Op::Call(0),
        Op::Halt,
        Op::Nop,
        Op::Nop,
    ];
    test_ops_with_size(&mut vm, ops, Object::Number(3), 0);
}

#[test]
fn test_call1() {
    let mut vm = Vm::new();
    let ops = vec![
        Op::Frame(10),
        Op::Constant(Object::Number(1)),
        Op::Push,
        Op::Closure {
            size: 6,
            arg_len: 1,
            is_optional_arg: false,
            num_free_vars: 0,
        },
        Op::ReferLocal(0),
        Op::Push,
        Op::ReferLocal(0),
        Op::NumberAdd,
        Op::Return(1),
        Op::Call(1),
        Op::Halt,
        Op::Nop,
        Op::Nop,
    ];
    test_ops_with_size(&mut vm, ops, Object::Number(2), 0);
}

#[test]
fn test_call2() {
    let mut vm = Vm::new();
    let ops = vec![
        Op::Frame(12),
        Op::Constant(Object::Number(1)),
        Op::Push,
        Op::Constant(Object::Number(2)),
        Op::Push,
        Op::Closure {
            size: 6,
            arg_len: 2,
            is_optional_arg: false,
            num_free_vars: 0,
        },
        Op::ReferLocal(0),
        Op::Push,
        Op::ReferLocal(1),
        Op::NumberAdd,
        Op::Return(2),
        Op::Call(2),
        Op::Halt,
        Op::Nop,
        Op::Nop,
    ];
    test_ops_with_size(&mut vm, ops, Object::Number(3), 0);
}

#[test]
fn test_if0() {
    let mut vm = Vm::new();
    let ops = vec![
        Op::Constant(Object::Number(1)),
        Op::Test(3),
        Op::Constant(Object::Number(2)),
        Op::LocalJmp(2),
        Op::Constant(Object::Number(3)),
        Op::Halt,
        Op::Nop,
        Op::Nop,
    ];
    test_ops_with_size(&mut vm, ops, Object::Number(2), 0);
}

#[test]
fn test_if1() {
    let mut vm = Vm::new();
    let ops = vec![
        Op::Constant(Object::False),
        Op::Test(3),
        Op::Constant(Object::Number(2)),
        Op::LocalJmp(2),
        Op::Constant(Object::Number(3)),
        Op::Halt,
        Op::Nop,
        Op::Nop,
    ];
    test_ops_with_size(&mut vm, ops, Object::Number(3), 0);
}

#[test]
fn test_let0() {
    let mut vm = Vm::new();
    let ops = vec![
        Op::LetFrame(1),
        Op::Constant(Object::Number(0)),
        Op::Push,
        Op::Enter(1),
        Op::ReferLocal(0),
        Op::Leave(1),
        Op::Halt,
    ];
    test_ops_with_size(&mut vm, ops, Object::Number(0), 0);
}

#[test]
fn test_let1() {
    let mut vm = Vm::new();
    let ops = vec![
        Op::LetFrame(2),
        Op::Constant(Object::Number(1)),
        Op::Push,
        Op::Constant(Object::Number(2)),
        Op::Push,
        Op::Enter(2),
        Op::ReferLocal(0),
        Op::Push,
        Op::ReferLocal(1),
        Op::NumberAdd,
        Op::Leave(2),
        Op::Halt,
    ];
    test_ops_with_size(&mut vm, ops, Object::Number(3), 0);
}

#[test]
fn test_define0() {
    let mut vm = Vm::new();
    let ops = vec![
        Op::Constant(Object::Number(3)),
        Op::DefineGlobal(vm.gc.intern("a".to_owned())),
        Op::Halt,
    ];
    test_ops_with_size(&mut vm, ops, Object::Undef, 0);
}

#[test]
fn test_nested_let0() {
    let mut vm = Vm::new();
    let ops = vec![
        Op::LetFrame(3),
        Op::Constant(Object::Number(1)),
        Op::Push,
        Op::Enter(1),
        Op::LetFrame(2),
        Op::ReferLocal(0),
        Op::Push,
        Op::Display(1),
        Op::Constant(Object::Number(2)),
        Op::Push,
        Op::Enter(1),
        Op::ReferFree(0),
        Op::Push,
        Op::ReferLocal(0),
        Op::NumberAdd,
        Op::Leave(1),
        Op::Leave(1),
        Op::Halt,
    ];
    test_ops_with_size(&mut vm, ops, Object::Number(3), 0);
}

#[test]
fn test_nested_let1() {
    let mut vm = Vm::new();
    let ops = vec![
        Op::LetFrame(5),
        Op::Constant(Object::Number(1)),
        Op::Push,
        Op::Enter(1),
        Op::LetFrame(4),
        Op::ReferLocal(0),
        Op::Push,
        Op::Display(1),
        Op::Constant(Object::Number(2)),
        Op::Push,
        Op::Enter(1),
        Op::LetFrame(3),
        Op::ReferFree(0),
        Op::Push,
        Op::ReferLocal(0),
        Op::Push,
        Op::Display(2),
        Op::Constant(Object::Number(3)),
        Op::Push,
        Op::Enter(1),
        Op::ReferFree(1),
        Op::Push,
        Op::ReferFree(0),
        Op::NumberAdd,
        Op::Push,
        Op::ReferLocal(0),
        Op::NumberAdd,
        Op::Leave(1),
        Op::Leave(1),
        Op::Leave(1),
        Op::Halt,
    ];
    test_ops_with_size(&mut vm, ops, Object::Number(6), 0);
}

#[test]
fn test_and() {
    let mut vm = Vm::new();
    let ops = vec![Op::Constant(Object::True), Op::Halt];
    test_ops_with_size(&mut vm, ops, Object::True, 0);
}

#[test]
fn test_if2() {
    let mut vm = Vm::new();
    let ops = vec![
        Op::Constant(Object::False),
        Op::Test(3),
        Op::Constant(Object::False),
        Op::LocalJmp(2),
        Op::Constant(Object::True),
        Op::Halt,
        Op::Nop,
        Op::Nop,
    ];
    test_ops_with_size(&mut vm, ops, Object::True, 0);
}

#[test]
fn test_unbound_global_is_a_binding_error() {
    let mut vm = Vm::new();
    let a = vm.intern("a");
    let ret = vm.run(vec![Op::ReferGlobal(a), Op::Halt]);
    assert_eq!(
        ret,
        Err(VmError::Unbound {
            op: Op::ReferGlobal(a),
            symbol: a
        })
    );
}
