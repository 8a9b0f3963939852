use stackvm::vm::{Cmd, VmError, VM};

fn add_program() -> Vec<Cmd> {
    vec![
        Cmd::Entry(1),
        Cmd::Frame(0),
        Cmd::Const(1),
        Cmd::Const(2),
        Cmd::Call(7),
        Cmd::PopR(2),
        Cmd::Ret,
        Cmd::Frame(0),
        Cmd::ArgLoad(0),
        Cmd::ArgLoad(1),
        Cmd::Add,
        Cmd::Ret,
    ]
}

fn gcd_program() -> Vec<Cmd> {
    vec![
        Cmd::Entry(1),    // 0
        Cmd::Frame(0),    // 1
        Cmd::Const(182),  // 2
        Cmd::Const(1029), // 3
        Cmd::Call(7),     // 4
        Cmd::PopR(2),     // 5
        Cmd::Ret,         // 6
        Cmd::Frame(0),    // 7 gcd(a: arg 1, b: arg 0)
        Cmd::ArgLoad(0),  // 8
        Cmd::Const(0),    // 9
        Cmd::Eq,          // 10
        Cmd::JumpIf(13),  // 11
        Cmd::Jump(15),    // 12
        Cmd::ArgLoad(1),  // 13
        Cmd::Jump(21),    // 14
        Cmd::ArgLoad(0),  // 15
        Cmd::ArgLoad(0),  // 16
        Cmd::ArgLoad(1),  // 17
        Cmd::Mod,         // 18
        Cmd::Call(7),     // 19
        Cmd::PopR(2),     // 20
        Cmd::Ret,         // 21
    ]
}

/// A program whose entry function evaluates `body` and returns its top.
fn main_only(body: Vec<Cmd>) -> Vec<Cmd> {
    let mut p = vec![Cmd::Entry(1), Cmd::Frame(0)];
    p.extend(body);
    p.push(Cmd::Ret);
    p
}

#[test]
fn vm_test() {
    assert_eq!(VM::new(add_program()).run(), Ok(3));
    assert_eq!(VM::new(gcd_program()).run(), Ok(7));
}

#[test]
fn run_add_example_returns_three() {
    let mut vm = VM::new(add_program());
    assert_eq!(vm.run(), Ok(3));
    assert_eq!(vm.peak(), 3);
}

#[test]
fn halt_stops_at_address_zero() {
    // Entry, Frame, Const, Ret: four steps, then pc is 0 and nothing more runs.
    let prog = main_only(vec![Cmd::Const(5)]);
    assert_eq!(VM::new(prog.clone()).run_for(4), Ok(5));
    assert_eq!(VM::new(prog.clone()).run_for(3), Err(VmError::OutOfSteps));
    let mut vm = VM::new(prog);
    assert_eq!(vm.run_for(1000), Ok(5));
    // the halt sentinel's slot is below the result
    assert_eq!(vm.debug_state(), "pc:0 fp:0 stack:[0, 5]");
}

#[test]
fn squash_one_keeps_stack() {
    let mut vm = VM::new(main_only(vec![Cmd::Const(4), Cmd::Const(9), Cmd::PopR(1)]));
    for _ in 0..4 {
        assert_eq!(vm.step(), Ok(()));
    }
    assert_eq!(vm.debug_state(), "pc:4 fp:1 stack:[0, 0, 4, 9]");
    assert_eq!(vm.step(), Ok(()));
    assert_eq!(vm.debug_state(), "pc:5 fp:1 stack:[0, 0, 4, 9]");
}

#[test]
fn squash_drops_slots_below_top() {
    let prog = main_only(vec![Cmd::Const(1), Cmd::Const(2), Cmd::Const(3), Cmd::PopR(3)]);
    let mut vm = VM::new(prog);
    for _ in 0..6 {
        assert_eq!(vm.step(), Ok(()));
    }
    assert_eq!(vm.debug_state(), "pc:6 fp:1 stack:[0, 0, 3]");
}

#[test]
fn eq_pushes_one_or_zero() {
    assert_eq!(VM::new(main_only(vec![Cmd::Const(6), Cmd::Const(6), Cmd::Eq])).run(), Ok(1));
    assert_eq!(VM::new(main_only(vec![Cmd::Const(6), Cmd::Const(7), Cmd::Eq])).run(), Ok(0));
}

#[test]
fn add_and_mod_values() {
    assert_eq!(VM::new(main_only(vec![Cmd::Const(40), Cmd::Const(2), Cmd::Add])).run(), Ok(42));
    // the first value popped is taken modulo the second
    assert_eq!(VM::new(main_only(vec![Cmd::Const(3), Cmd::Const(10), Cmd::Mod])).run(), Ok(1));
}

#[test]
fn jump_if_branches_on_nonzero() {
    let prog = |c: usize| {
        main_only(vec![
            Cmd::Const(c),    // 2
            Cmd::JumpIf(6),   // 3
            Cmd::Const(100),  // 4
            Cmd::Jump(7),     // 5
            Cmd::Const(200),  // 6
        ])
    };
    assert_eq!(VM::new(prog(0)).run(), Ok(100));
    assert_eq!(VM::new(prog(1)).run(), Ok(200));
}

#[test]
fn call_frame_arguments_and_locals() {
    // f(x = arg 1, y = arg 0) with two locals: l0 = x, l1 = y, returns l1 + l0 + y.
    let prog = vec![
        Cmd::Entry(1),        // 0
        Cmd::Frame(0),        // 1
        Cmd::Const(10),       // 2
        Cmd::Const(32),       // 3
        Cmd::Call(7),         // 4
        Cmd::PopR(2),         // 5
        Cmd::Ret,             // 6
        Cmd::Frame(2),        // 7
        Cmd::ArgLoad(1),      // 8
        Cmd::LocalStore(0),   // 9
        Cmd::ArgLoad(0),      // 10
        Cmd::LocalStore(1),   // 11
        Cmd::Const(1000),     // 12 a temporary
        Cmd::LocalLoad(1),    // 13
        Cmd::LocalLoad(0),    // 14
        Cmd::Add,             // 15
        Cmd::ArgLoad(0),      // 16
        Cmd::Add,             // 17
        Cmd::Ret,             // 18
    ];
    assert_eq!(VM::new(prog.clone()).run(), Ok(74));
    let mut vm = VM::new(prog);
    for _ in 0..6 {
        assert_eq!(vm.step(), Ok(()));
    }
    // after Call and Frame(2): args, return address, saved fp, two locals
    assert_eq!(vm.debug_state(), "pc:8 fp:5 stack:[0, 0, 10, 32, 5, 1, 0, 0]");
}

#[test]
fn arg_store_overwrites_argument() {
    let prog = vec![
        Cmd::Entry(1),
        Cmd::Frame(0),
        Cmd::Const(5),
        Cmd::Call(6),
        Cmd::PopR(1),
        Cmd::Ret,
        Cmd::Frame(0),    // 6
        Cmd::Const(8),
        Cmd::ArgStore(0),
        Cmd::ArgLoad(0),
        Cmd::Ret,
    ];
    assert_eq!(VM::new(prog).run(), Ok(8));
}

#[test]
fn ret_hands_back_top() {
    let mut vm = VM::new(add_program());
    // Entry, Frame, Const, Const, Call, Frame, ArgLoad, ArgLoad, Add
    for _ in 0..9 {
        assert_eq!(vm.step(), Ok(()));
    }
    assert_eq!(vm.peak(), 3);
    assert_eq!(vm.step(), Ok(()));
    // the value lands in the callee's frame slot, above the return address
    assert_eq!(vm.debug_state(), "pc:5 fp:1 stack:[0, 0, 1, 2, 5, 3]");
    assert_eq!(vm.step(), Ok(()));
    assert_eq!(vm.debug_state(), "pc:6 fp:1 stack:[0, 0, 1, 2, 3]");
}

#[test]
fn push_pop_peak() {
    let mut vm = VM::new(vec![]);
    vm.push(11);
    vm.push(22);
    assert_eq!(vm.peak(), 22);
    assert_eq!(vm.pop(), 22);
    assert_eq!(vm.peak(), 11);
    assert_eq!(vm.debug_state(), "pc:0 fp:0 stack:[11]");
}

#[test]
fn new_machine_state() {
    let vm = VM::new(add_program());
    assert_eq!(vm.debug_state(), "pc:0 fp:0 stack:[]");
}

#[test]
fn error_bad_program_counter() {
    assert_eq!(VM::new(vec![]).run(), Err(VmError::BadProgramCounter));
    assert_eq!(VM::new(vec![Cmd::Jump(9)]).run(), Err(VmError::BadProgramCounter));
}

#[test]
fn error_stack_underflow() {
    assert_eq!(VM::new(vec![Cmd::Add]).run(), Err(VmError::StackUnderflow));
    assert_eq!(VM::new(main_only(vec![Cmd::Const(1), Cmd::PopR(9)])).run(), Err(VmError::StackUnderflow));
}

#[test]
fn error_stack_overflow() {
    // f calls itself forever
    let prog = vec![Cmd::Entry(1), Cmd::Frame(0), Cmd::Call(1)];
    assert_eq!(VM::new(prog).run(), Err(VmError::StackOverflow));
    assert_eq!(VM::new(vec![Cmd::Entry(1), Cmd::Frame(999)]).run(), Err(VmError::StackOverflow));
}

#[test]
fn error_bad_stack_address() {
    assert_eq!(VM::new(main_only(vec![Cmd::ArgLoad(5)])).run(), Err(VmError::BadStackAddress));
    assert_eq!(VM::new(main_only(vec![Cmd::LocalLoad(5000)])).run(), Err(VmError::BadStackAddress));
}

#[test]
fn error_arithmetic_overflow() {
    let prog = main_only(vec![Cmd::Const(usize::MAX), Cmd::Const(1), Cmd::Add]);
    assert_eq!(VM::new(prog).run(), Err(VmError::ArithmeticOverflow));
}

#[test]
fn error_division_by_zero() {
    let prog = main_only(vec![Cmd::Const(0), Cmd::Const(5), Cmd::Mod]);
    assert_eq!(VM::new(prog).run(), Err(VmError::DivisionByZero));
}

#[test]
fn error_out_of_steps() {
    let prog = vec![Cmd::Entry(1), Cmd::Frame(0), Cmd::Jump(2), Cmd::Ret];
    let mut vm = VM::new(prog);
    assert_eq!(vm.run_for(10_000), Err(VmError::OutOfSteps));
}

#[test]
fn failed_step_changes_nothing() {
    let mut vm = VM::new(vec![Cmd::Const(1), Cmd::Add]);
    assert_eq!(vm.step(), Ok(()));
    let before = vm.debug_state();
    assert_eq!(vm.step(), Err(VmError::StackUnderflow));
    assert_eq!(vm.debug_state(), before);
}
