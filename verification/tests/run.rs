use rmosh::error::{ErrorKind, VmError};
use rmosh::gc::GcRef;
use rmosh::objects::{Closure, HeapObject, Object, Pair, Procedure};
use rmosh::op::Op;
use rmosh::vm::Vm;

fn run(ops: Vec<Op>) -> Result<Object, VmError> {
    Vm::new().run(ops)
}

fn kind(ops: Vec<Op>) -> ErrorKind {
    run(ops).unwrap_err().kind()
}

#[test]
fn number_add_adds() {
    let ops = vec![
        Op::Constant(Object::Number(99)),
        Op::Push,
        Op::Constant(Object::Number(1)),
        Op::NumberAdd,
        Op::Halt,
    ];
    assert_eq!(run(ops), Ok(Object::Number(100)));
}

#[test]
fn number_add_takes_negative_numbers() {
    let ops = vec![
        Op::Constant(Object::Number(-5)),
        Op::Push,
        Op::Constant(Object::Number(3)),
        Op::NumberAdd,
        Op::Halt,
    ];
    assert_eq!(run(ops), Ok(Object::Number(-2)));
}

#[test]
fn cons_then_add_pair_adds_the_fields() {
    let ops = vec![
        Op::Constant(Object::Number(99)),
        Op::Push,
        Op::Constant(Object::Number(101)),
        Op::Cons,
        Op::AddPair,
        Op::Halt,
    ];
    assert_eq!(run(ops), Ok(Object::Number(200)));
}

#[test]
fn cons_takes_first_from_the_stack_and_second_from_the_accumulator() {
    let mut vm = Vm::new();
    let ret = vm.run(vec![
        Op::Constant(Object::Number(1)),
        Op::Push,
        Op::Constant(Object::Number(2)),
        Op::Cons,
        Op::Halt,
    ]);
    match ret {
        Ok(Object::Pair(r)) => match vm.gc.get(r) {
            Some(HeapObject::Pair(p)) => {
                assert_eq!(p.first, Object::Number(1));
                assert_eq!(p.second, Object::Number(2));
            }
            _ => panic!("no pair"),
        },
        _ => panic!("ac was {:?}", ret),
    }
}

#[test]
fn define_then_refer_gives_the_value() {
    let mut vm = Vm::new();
    let a = vm.intern("a");
    let ops = vec![
        Op::Constant(Object::Number(9)),
        Op::DefineGlobal(a),
        Op::ReferGlobal(a),
        Op::Halt,
    ];
    assert_eq!(vm.run(ops), Ok(Object::Number(9)));
}

#[test]
fn second_definition_replaces_the_first() {
    let mut vm = Vm::new();
    let a = vm.intern("a");
    let b = vm.intern("b");
    let ops = vec![
        Op::Constant(Object::Number(1)),
        Op::DefineGlobal(a),
        Op::Constant(Object::Number(2)),
        Op::DefineGlobal(b),
        Op::Constant(Object::Number(3)),
        Op::DefineGlobal(a),
        Op::ReferGlobal(b),
        Op::Push,
        Op::ReferGlobal(a),
        Op::NumberAdd,
        Op::Halt,
    ];
    assert_eq!(vm.run(ops), Ok(Object::Number(5)));
}

#[test]
fn globals_outlive_the_run_that_defined_them() {
    let mut vm = Vm::new();
    let a = vm.intern("a");
    assert_eq!(
        vm.run(vec![Op::Constant(Object::Number(4)), Op::DefineGlobal(a)]),
        Ok(Object::Undef)
    );
    vm.collect();
    assert!(vm.gc.is_live(a));
    assert_eq!(vm.run(vec![Op::ReferGlobal(a)]), Ok(Object::Number(4)));
}

#[test]
fn global_value_is_a_root() {
    let mut vm = Vm::new();
    let a = vm.intern("a");
    let ret = vm.run(vec![
        Op::Constant(Object::Number(1)),
        Op::Push,
        Op::Constant(Object::Number(2)),
        Op::Cons,
        Op::DefineGlobal(a),
    ]);
    assert_eq!(ret, Ok(Object::Undef));
    vm.collect();
    assert_eq!(
        vm.run(vec![Op::ReferGlobal(a), Op::AddPair]),
        Ok(Object::Number(3))
    );
}

#[test]
fn empty_program_returns_the_accumulator() {
    assert_eq!(run(vec![]), Ok(Object::Undef));
}

#[test]
fn run_off_the_end_returns_the_accumulator() {
    assert_eq!(run(vec![Op::Constant(Object::Number(7))]), Ok(Object::Number(7)));
}

#[test]
fn jump_past_the_end_returns_the_accumulator() {
    let ops = vec![
        Op::Constant(Object::Number(7)),
        Op::LocalJmp(usize::MAX),
        Op::Constant(Object::Number(8)),
    ];
    assert_eq!(run(ops), Ok(Object::Number(7)));
}

#[test]
fn undef_and_nop() {
    let ops = vec![
        Op::Constant(Object::Number(7)),
        Op::Nop,
        Op::Undef,
        Op::Nop,
        Op::Halt,
    ];
    assert_eq!(run(ops), Ok(Object::Undef));
}

#[test]
fn test_counts_only_false_as_false() {
    for value in [Object::Number(0), Object::Undef, Object::True] {
        let ops = vec![
            Op::Constant(value),
            Op::Test(3),
            Op::Constant(Object::Number(1)),
            Op::Halt,
            Op::Constant(Object::Number(2)),
            Op::Halt,
        ];
        assert_eq!(run(ops), Ok(Object::Number(1)));
    }
}

#[test]
fn write_procedure_returns_undef_and_records_its_argument() {
    let mut vm = Vm::new();
    let ret = vm.run(vec![
        Op::Frame(8),
        Op::Constant(Object::Number(3)),
        Op::Push,
        Op::ReferFree(0),
        Op::Call(1),
    ]);
    assert_eq!(ret, Ok(Object::Undef));
    assert_eq!(vm.output(), &vec![Object::Number(3)]);
}

#[test]
fn write_procedure_is_applied_to_the_top_of_the_stack() {
    let mut vm = Vm::new();
    let ret = vm.run(vec![
        Op::Constant(Object::Number(1)),
        Op::Push,
        Op::Frame(5),
        Op::Constant(Object::True),
        Op::Push,
        Op::ReferFree(0),
        Op::Call(1),
        Op::ReferLocal(0),
        Op::Halt,
    ]);
    assert_eq!(ret, Ok(Object::Number(1)));
    assert_eq!(vm.output(), &vec![Object::True]);
}

#[test]
fn write_procedure_called_twice_records_both_arguments_in_order() {
    let mut vm = Vm::new();
    let ret = vm.run(vec![
        Op::Frame(5),
        Op::Constant(Object::Number(3)),
        Op::Push,
        Op::ReferFree(0),
        Op::Call(1),
        Op::Frame(5),
        Op::Constant(Object::Number(4)),
        Op::Push,
        Op::ReferFree(0),
        Op::Call(1),
        Op::Halt,
    ]);
    assert_eq!(ret, Ok(Object::Undef));
    assert_eq!(vm.output(), &vec![Object::Number(3), Object::Number(4)]);
}

#[test]
fn interpreter_answers_for_its_store() {
    let mut vm = Vm::new();
    assert_eq!(vm.bytes_allocated(), 0);
    let a = vm.intern("a");
    assert_eq!(vm.bytes_allocated(), vm.gc.bytes_allocated());
    assert_eq!(vm.bytes_allocated(), std::mem::size_of::<rmosh::objects::Symbol>());
    assert!(vm.is_live(a));
    assert!(!vm.is_live(GcRef { index: 5, generation: 0 }));
    assert!(matches!(vm.get(a), Some(HeapObject::Symbol(_))));
    assert!(vm.get(GcRef { index: 5, generation: 0 }).is_none());
    assert!(vm.has_room(&HeapObject::Pair(Pair::new(Object::Undef, Object::Undef))));
    let ret = vm.run(vec![
        Op::Constant(Object::Number(1)),
        Op::Push,
        Op::Constant(Object::Number(2)),
        Op::Cons,
    ]);
    match ret {
        Ok(Object::Pair(r)) => {
            assert!(vm.is_live(r));
            match vm.get(r) {
                Some(HeapObject::Pair(p)) => assert_eq!(p.second, Object::Number(2)),
                _ => panic!("no pair"),
            }
        }
        _ => panic!("ac was {:?}", ret),
    }
}

#[test]
fn display_captures_the_top_of_the_stack_first() {
    let ops = vec![
        Op::LetFrame(0),
        Op::Constant(Object::Number(10)),
        Op::Push,
        Op::Constant(Object::Number(20)),
        Op::Push,
        Op::Display(2),
        Op::ReferFree(0),
        Op::Halt,
    ];
    assert_eq!(run(ops), Ok(Object::Number(20)));
    let ops = vec![
        Op::LetFrame(0),
        Op::Constant(Object::Number(10)),
        Op::Push,
        Op::Constant(Object::Number(20)),
        Op::Push,
        Op::Display(2),
        Op::ReferFree(1),
        Op::Halt,
    ];
    assert_eq!(run(ops), Ok(Object::Number(10)));
}

#[test]
fn closure_holds_its_fields() {
    let mut vm = Vm::new();
    let ret = vm.run(vec![
        Op::Constant(Object::Number(10)),
        Op::Push,
        Op::Closure {
            size: 2,
            arg_len: 3,
            is_optional_arg: true,
            num_free_vars: 1,
        },
        Op::Nop,
        Op::Halt,
    ]);
    match ret {
        Ok(Object::Closure(r)) => match vm.gc.get(r) {
            Some(HeapObject::Closure(c)) => {
                assert_eq!(c.pc, 2);
                assert_eq!(c.arg_len, 3);
                assert!(c.is_optional_arg);
                assert_eq!(c.free_vars, vec![Object::Number(10)]);
                assert_eq!(c.prev, Object::Undef);
            }
            _ => panic!("no closure"),
        },
        _ => panic!("ac was {:?}", ret),
    }
}

#[test]
fn collection_in_mid_run_keeps_the_list_under_construction() {
    let count = 40000;
    let mut ops = vec![Op::Constant(Object::Undef)];
    for i in 0..count {
        ops.push(Op::Push);
        ops.push(Op::Constant(Object::Number(i)));
        ops.push(Op::Cons);
    }
    let mut vm = Vm::new();
    let ret = vm.run(ops);
    assert!(count as usize * std::mem::size_of::<Pair>() > 1024 * 1024);
    let mut at = ret.unwrap();
    let mut seen = 0;
    while let Object::Pair(r) = at {
        match vm.gc.get(r) {
            Some(HeapObject::Pair(p)) => {
                seen += 1;
                assert_eq!(p.second, Object::Number(count - seen));
                at = p.first;
            }
            _ => panic!("pair {} of the list is gone", seen),
        }
    }
    assert_eq!(at, Object::Undef);
    assert_eq!(seen, count);
}

#[test]
fn collection_in_mid_run_frees_what_the_run_has_dropped() {
    let count = 40000;
    let mut ops = vec![];
    for _ in 0..count {
        ops.push(Op::Constant(Object::Number(99)));
        ops.push(Op::Push);
        ops.push(Op::Constant(Object::Number(101)));
        ops.push(Op::Cons);
    }
    let mut vm = Vm::new();
    let _ = vm.run(ops);
    let all = count * std::mem::size_of::<Pair>();
    assert!(all > 1024 * 1024);
    assert!(vm.gc.bytes_allocated() < all);
    vm.collect();
    assert_eq!(
        vm.gc.bytes_allocated(),
        std::mem::size_of::<Pair>()
            + std::mem::size_of::<Closure>()
            + std::mem::size_of::<Procedure>()
    );
}

#[test]
fn constants_of_the_program_are_roots() {
    let mut vm = Vm::new();
    let quoted = vm
        .gc
        .allocate(HeapObject::Pair(Pair::new(Object::Number(1), Object::Number(2))));
    let _ = vm.run(vec![Op::Nop, Op::Halt, Op::Constant(Object::Pair(quoted))]);
    vm.collect();
    assert!(vm.gc.is_live(quoted));
    let _ = vm.run(vec![Op::Nop]);
    vm.collect();
    assert!(!vm.gc.is_live(quoted));
}

#[test]
fn add_on_a_value_that_is_no_number_is_a_type_error() {
    let ops = vec![
        Op::Constant(Object::True),
        Op::Push,
        Op::Constant(Object::Number(1)),
        Op::NumberAdd,
    ];
    assert_eq!(
        run(ops),
        Err(VmError::NumbersRequired {
            op: Op::NumberAdd,
            lhs: Object::True,
            rhs: Object::Number(1)
        })
    );
    assert_eq!(
        kind(vec![Op::Constant(Object::Undef), Op::Push, Op::NumberAdd]),
        ErrorKind::Type
    );
}

#[test]
fn add_pair_on_fields_that_are_no_numbers_is_a_type_error() {
    let ops = vec![
        Op::Constant(Object::False),
        Op::Push,
        Op::Constant(Object::Number(1)),
        Op::Cons,
        Op::AddPair,
    ];
    assert_eq!(
        run(ops),
        Err(VmError::NumbersRequired {
            op: Op::AddPair,
            lhs: Object::False,
            rhs: Object::Number(1)
        })
    );
}

#[test]
fn add_pair_on_a_value_that_is_no_pair_is_a_type_error() {
    let ops = vec![Op::Constant(Object::Number(1)), Op::AddPair];
    let err = run(ops).unwrap_err();
    assert_eq!(
        err,
        VmError::PairRequired {
            op: Op::AddPair,
            value: Object::Number(1)
        }
    );
    assert_eq!(err.kind(), ErrorKind::Type);
}

#[test]
fn add_pair_on_a_handle_that_refers_to_nothing_is_a_type_error() {
    let stale = Object::Pair(GcRef { index: 1000, generation: 0 });
    assert_eq!(
        run(vec![Op::Constant(stale), Op::AddPair]),
        Err(VmError::PairRequired {
            op: Op::AddPair,
            value: stale
        })
    );
}

#[test]
fn sum_that_is_no_isize_is_an_error() {
    let ops = vec![
        Op::Constant(Object::Number(isize::MAX)),
        Op::Push,
        Op::Constant(Object::Number(1)),
        Op::NumberAdd,
    ];
    let err = run(ops).unwrap_err();
    assert_eq!(
        err,
        VmError::NumberOverflow {
            op: Op::NumberAdd,
            lhs: Object::Number(isize::MAX),
            rhs: Object::Number(1)
        }
    );
    assert_eq!(err.kind(), ErrorKind::Capacity);
    let ops = vec![
        Op::Constant(Object::Number(isize::MIN)),
        Op::Push,
        Op::Constant(Object::Number(-1)),
        Op::Cons,
        Op::AddPair,
    ];
    assert_eq!(
        run(ops),
        Err(VmError::NumberOverflow {
            op: Op::AddPair,
            lhs: Object::Number(isize::MIN),
            rhs: Object::Number(-1)
        })
    );
}

#[test]
fn unbound_global_is_a_binding_error() {
    let mut vm = Vm::new();
    let a = vm.intern("a");
    let b = vm.intern("b");
    let err = vm
        .run(vec![
            Op::Constant(Object::Number(1)),
            Op::DefineGlobal(a),
            Op::ReferGlobal(b),
        ])
        .unwrap_err();
    assert_eq!(
        err,
        VmError::Unbound {
            op: Op::ReferGlobal(b),
            symbol: b
        }
    );
    assert_eq!(err.kind(), ErrorKind::Binding);
}

#[test]
fn call_with_the_wrong_number_of_arguments_is_an_arity_error() {
    let ops = vec![
        Op::Frame(5),
        Op::Closure {
            size: 3,
            arg_len: 2,
            is_optional_arg: false,
            num_free_vars: 0,
        },
        Op::Constant(Object::Number(3)),
        Op::Return(0),
        Op::Call(0),
        Op::Halt,
    ];
    let err = run(ops).unwrap_err();
    assert_eq!(
        err,
        VmError::WrongArguments {
            op: Op::Call(0),
            expected: 2,
            given: 0
        }
    );
    assert_eq!(err.kind(), ErrorKind::Arity);
}

#[test]
fn call_of_a_procedure_with_two_arguments_is_an_arity_error() {
    let ops = vec![
        Op::Frame(8),
        Op::Constant(Object::Number(3)),
        Op::Push,
        Op::Push,
        Op::ReferFree(0),
        Op::Call(2),
    ];
    assert_eq!(
        run(ops),
        Err(VmError::WrongArguments {
            op: Op::Call(2),
            expected: 1,
            given: 2
        })
    );
}

#[test]
fn call_of_a_closure_with_optional_arguments_is_an_arity_error() {
    let ops = vec![
        Op::Frame(5),
        Op::Closure {
            size: 3,
            arg_len: 0,
            is_optional_arg: true,
            num_free_vars: 0,
        },
        Op::Constant(Object::Number(3)),
        Op::Return(0),
        Op::Call(0),
        Op::Halt,
    ];
    let err = run(ops).unwrap_err();
    assert_eq!(err, VmError::OptionalArguments { op: Op::Call(0) });
    assert_eq!(err.kind(), ErrorKind::Arity);
}

#[test]
fn call_of_a_number_is_a_control_error() {
    let err = run(vec![Op::Constant(Object::Number(3)), Op::Call(0)]).unwrap_err();
    assert_eq!(
        err,
        VmError::NotCallable {
            op: Op::Call(0),
            value: Object::Number(3)
        }
    );
    assert_eq!(err.kind(), ErrorKind::Control);
}

#[test]
fn push_on_a_full_stack_is_a_capacity_error() {
    let mut ops = vec![];
    for _ in 0..256 {
        ops.push(Op::Push);
    }
    assert_eq!(run(ops.clone()), Ok(Object::Undef));
    ops.push(Op::Push);
    let err = run(ops).unwrap_err();
    assert_eq!(err, VmError::StackOverflow { op: Op::Push });
    assert_eq!(err.kind(), ErrorKind::Capacity);
}

#[test]
fn frame_that_does_not_fit_is_a_capacity_error() {
    let mut ops = vec![];
    for _ in 0..253 {
        ops.push(Op::Push);
    }
    ops.push(Op::Frame(1));
    assert_eq!(run(ops), Err(VmError::StackOverflow { op: Op::Frame(1) }));
    let mut ops = vec![];
    for _ in 0..255 {
        ops.push(Op::Push);
    }
    ops.push(Op::LetFrame(0));
    assert_eq!(run(ops), Err(VmError::StackOverflow { op: Op::LetFrame(0) }));
}

#[test]
fn reach_outside_the_stack_is_a_capacity_error() {
    for op in [
        Op::NumberAdd,
        Op::Cons,
        Op::ReferLocal(0),
        Op::ReferLocal(-1),
        Op::Enter(1),
        Op::Enter(-1),
        Op::Leave(0),
        Op::Leave(-1),
        Op::Display(1),
        Op::Display(-1),
        Op::Return(0),
        Op::Return(-4),
        Op::Closure {
            size: 1,
            arg_len: 0,
            is_optional_arg: false,
            num_free_vars: 1,
        },
    ] {
        let err = run(vec![op]).unwrap_err();
        assert_eq!(err, VmError::StackOutOfBounds { op });
        assert_eq!(err.kind(), ErrorKind::Capacity);
    }
}

#[test]
fn call_of_the_write_procedure_without_a_frame_is_a_capacity_error() {
    let ops = vec![Op::ReferFree(0), Op::Call(1)];
    assert_eq!(run(ops), Err(VmError::StackOutOfBounds { op: Op::Call(1) }));
}

#[test]
fn failed_call_of_the_write_procedure_writes_nothing() {
    let mut vm = Vm::new();
    let ret = vm.run(vec![
        Op::Push,
        Op::Push,
        Op::Push,
        Op::Push,
        Op::Push,
        Op::ReferFree(0),
        Op::Call(1),
    ]);
    assert_eq!(
        ret,
        Err(VmError::FramePointerRequired {
            op: Op::Call(1),
            value: Object::Undef
        })
    );
    assert_eq!(vm.output().len(), 0);
}

#[test]
fn leave_without_a_saved_frame_pointer_is_a_type_error() {
    let ops = vec![
        Op::Constant(Object::Number(1)),
        Op::Push,
        Op::Push,
        Op::Leave(0),
    ];
    let err = run(ops).unwrap_err();
    assert_eq!(
        err,
        VmError::FramePointerRequired {
            op: Op::Leave(0),
            value: Object::Number(1)
        }
    );
    assert_eq!(err.kind(), ErrorKind::Type);
}

#[test]
fn return_without_a_return_address_is_a_type_error() {
    let ops = vec![
        Op::Constant(Object::True),
        Op::Push,
        Op::Push,
        Op::LetFrame(0),
        Op::Return(0),
    ];
    let err = run(ops).unwrap_err();
    assert_eq!(
        err,
        VmError::ReturnAddressRequired {
            op: Op::Return(0),
            value: Object::True
        }
    );
    assert_eq!(err.kind(), ErrorKind::Type);
    let ops = vec![
        Op::Constant(Object::Number(-1)),
        Op::Push,
        Op::Push,
        Op::LetFrame(0),
        Op::Return(0),
    ];
    assert_eq!(
        run(ops),
        Err(VmError::ReturnAddressRequired {
            op: Op::Return(0),
            value: Object::Number(-1)
        })
    );
}

#[test]
fn refer_free_without_a_display_is_a_type_error() {
    let ops = vec![
        Op::Constant(Object::Number(1)),
        Op::Push,
        Op::Constant(Object::VMStackPointer(0)),
        Op::Push,
        Op::Leave(0),
        Op::ReferFree(0),
    ];
    let err = run(ops).unwrap_err();
    assert_eq!(
        err,
        VmError::DisplayRequired {
            op: Op::ReferFree(0),
            value: Object::Number(1)
        }
    );
    assert_eq!(err.kind(), ErrorKind::Type);
}

#[test]
fn refer_free_past_the_captured_variables_is_a_capacity_error() {
    let err = run(vec![Op::ReferFree(1)]).unwrap_err();
    assert_eq!(err, VmError::FreeVariableOutOfBounds { op: Op::ReferFree(1) });
    assert_eq!(err.kind(), ErrorKind::Capacity);
}

#[test]
fn frame_at_the_start_with_no_skip_is_a_capacity_error() {
    let err = run(vec![Op::Frame(0)]).unwrap_err();
    assert_eq!(err, VmError::ReturnAddressOutOfRange { op: Op::Frame(0) });
    assert_eq!(err.kind(), ErrorKind::Capacity);
    assert_eq!(
        run(vec![Op::Frame(usize::MAX)]),
        Err(VmError::ReturnAddressOutOfRange {
            op: Op::Frame(usize::MAX)
        })
    );
}

#[test]
fn frame_saves_the_address_before_the_one_it_returns_to() {
    let ops = vec![
        Op::Nop,
        Op::Frame(3),
        Op::ReferLocal(0),
        Op::Halt,
    ];
    assert_eq!(run(ops), Ok(Object::Number(3)));
}

#[test]
fn failed_instruction_leaves_the_state_as_it_was() {
    let mut vm = Vm::new();
    let ret = vm.run(vec![
        Op::Constant(Object::True),
        Op::Push,
        Op::Constant(Object::Number(1)),
        Op::NumberAdd,
    ]);
    assert!(ret.is_err());
    let before = vm.gc.bytes_allocated();
    vm.collect();
    assert_eq!(vm.gc.bytes_allocated(), before);
}

#[test]
fn heap_exhausted_and_step_limit_are_capacity_errors() {
    assert_eq!(VmError::HeapExhausted.kind(), ErrorKind::Capacity);
    assert_eq!(VmError::StepLimit.kind(), ErrorKind::Capacity);
}

#[test]
fn run_that_does_not_end_is_given_up_at_the_limit() {
    let mut vm = Vm::new();
    let err = vm.run_for(vec![Op::LocalJmp(0)], 1000).unwrap_err();
    assert_eq!(err, VmError::StepLimit);
    assert_eq!(err.kind(), ErrorKind::Capacity);
}

#[test]
fn run_ends_within_the_limit_it_needs() {
    let ops = vec![
        Op::Constant(Object::Number(99)),
        Op::Push,
        Op::Constant(Object::Number(1)),
        Op::NumberAdd,
        Op::Halt,
    ];
    assert_eq!(Vm::new().run_for(ops.clone(), 4), Err(VmError::StepLimit));
    assert_eq!(Vm::new().run_for(ops, 5), Ok(Object::Number(100)));
    assert_eq!(Vm::new().run_for(vec![], 0), Ok(Object::Undef));
}

#[test]
fn mark_and_sweep_does_nothing_while_no_collection_is_due() {
    let mut vm = Vm::new();
    let ret = vm.run(vec![
        Op::Constant(Object::Number(1)),
        Op::Push,
        Op::Constant(Object::Number(2)),
        Op::Cons,
        Op::Undef,
    ]);
    assert_eq!(ret, Ok(Object::Undef));
    let lost = GcRef { index: 2, generation: 0 };
    assert!(vm.is_live(lost));
    let bytes = vm.bytes_allocated();
    assert_eq!(vm.next_gc(), 1024 * 1024);
    assert!(!vm.should_gc());
    vm.mark_and_sweep();
    assert_eq!(vm.bytes_allocated(), bytes);
    assert_eq!(vm.next_gc(), 1024 * 1024);
    assert!(vm.is_live(lost));
    vm.collect();
    assert_eq!(vm.bytes_allocated(), bytes - std::mem::size_of::<Pair>());
    assert_eq!(vm.next_gc(), 2 * vm.bytes_allocated());
    assert!(!vm.is_live(lost));
}

#[test]
fn mark_and_sweep_collects_once_the_bytes_have_passed_the_threshold() {
    let mut vm = Vm::new();
    assert_eq!(vm.run(vec![]), Ok(Object::Undef));
    vm.collect();
    let threshold = vm.next_gc();
    assert_eq!(threshold, 2 * vm.bytes_allocated());
    // Loading doubles the bytes, and the pair takes them past the threshold.
    let ret = vm.run(vec![Op::Push, Op::Cons, Op::Undef]);
    assert_eq!(ret, Ok(Object::Undef));
    assert_eq!(vm.next_gc(), threshold);
    assert_eq!(vm.bytes_allocated(), threshold + std::mem::size_of::<Pair>());
    assert!(vm.should_gc());
    vm.mark_and_sweep();
    assert_eq!(vm.bytes_allocated(), threshold);
    assert_eq!(vm.next_gc(), 2 * threshold);
    assert!(!vm.should_gc());
}
