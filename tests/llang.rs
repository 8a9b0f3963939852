use stackvm::llang::{CmdGen, FnIndex, Func, LLang, LLangCmd, LinkError, Op, RelativeFnIndex};
use stackvm::vm::{Cmd, VM};

fn gcd_llang() -> LLang {
    LLang {
        entry: 0,
        funcs: vec![
            Func {
                local_count: 0,
                ops: vec![Op::Const(182), Op::Const(1029), Op::Call(1), Op::PopR(2)],
            },
            Func {
                local_count: 0,
                ops: vec![
                    Op::ArgLoad(0),
                    Op::Const(0),
                    Op::Eq,
                    Op::JumpIf(5),
                    Op::Jump(7),
                    Op::ArgLoad(1),
                    Op::Jump(13),
                    Op::ArgLoad(0),
                    Op::ArgLoad(0),
                    Op::ArgLoad(1),
                    Op::Mod,
                    Op::Call(1),
                    Op::PopR(2),
                ],
            },
        ],
    }
}

#[test]
fn llang_test() {
    assert_eq!(VM::new(gcd_llang().convert().unwrap()).run(), Ok(7));
}

#[test]
fn link_gcd_layout() {
    let flat = gcd_llang().convert().unwrap();
    assert_eq!(
        flat,
        vec![
            Cmd::Entry(1),
            Cmd::Frame(0),
            Cmd::Const(182),
            Cmd::Const(1029),
            Cmd::Call(7),
            Cmd::PopR(2),
            Cmd::Ret,
            Cmd::Frame(0),
            Cmd::ArgLoad(0),
            Cmd::Const(0),
            Cmd::Eq,
            Cmd::JumpIf(13),
            Cmd::Jump(15),
            Cmd::ArgLoad(1),
            Cmd::Jump(21),
            Cmd::ArgLoad(0),
            Cmd::ArgLoad(0),
            Cmd::ArgLoad(1),
            Cmd::Mod,
            Cmd::Call(7),
            Cmd::PopR(2),
            Cmd::Ret,
        ]
    );
}

#[test]
fn link_entry_targets_entry_function() {
    let p = LLang {
        entry: 1,
        funcs: vec![
            Func { local_count: 0, ops: vec![Op::Const(1), Op::Const(2), Op::Add] },
            Func { local_count: 3, ops: vec![Op::Const(5), Op::Call(0), Op::PopR(1)] },
        ],
    };
    let flat = p.convert().unwrap();
    assert_eq!(flat[0], Cmd::Entry(6));
    assert_eq!(flat[6], Cmd::Frame(3));
    assert_eq!(flat[8], Cmd::Call(1));
    assert_eq!(flat.len(), 11);
    assert_eq!(VM::new(flat).run(), Ok(3));
}

#[test]
fn link_add_example() {
    let p = LLang {
        entry: 0,
        funcs: vec![
            Func { local_count: 0, ops: vec![Op::Const(1), Op::Const(2), Op::Call(1), Op::PopR(2)] },
            Func { local_count: 0, ops: vec![Op::ArgLoad(0), Op::ArgLoad(1), Op::Add] },
        ],
    };
    let flat = p.convert().unwrap();
    assert_eq!(flat[4], Cmd::Call(7));
    assert_eq!(VM::new(flat).run(), Ok(3));
}

#[test]
fn link_locals_round_trip() {
    let p = LLang {
        entry: 0,
        funcs: vec![Func {
            local_count: 1,
            ops: vec![Op::Const(9), Op::LocalStore(0), Op::LocalLoad(0), Op::LocalLoad(0), Op::Add],
        }],
    };
    assert_eq!(VM::new(p.convert().unwrap()).run(), Ok(18));
}

#[test]
fn link_jump_to_return_is_accepted() {
    let p = LLang {
        entry: 0,
        funcs: vec![Func { local_count: 0, ops: vec![Op::Const(4), Op::Jump(3), Op::Const(5)] }],
    };
    let flat = p.convert().unwrap();
    assert_eq!(flat[3], Cmd::Jump(5));
    assert_eq!(flat[5], Cmd::Ret);
    assert_eq!(VM::new(flat).run(), Ok(4));
}

#[test]
fn link_rejects_bad_entry() {
    let p = LLang { entry: 1, funcs: vec![Func { local_count: 0, ops: vec![Op::Const(1)] }] };
    assert_eq!(p.convert(), Err(LinkError::IndexOutOfRange));
    let empty = LLang { entry: 0, funcs: vec![] };
    assert_eq!(empty.convert(), Err(LinkError::IndexOutOfRange));
}

#[test]
fn link_rejects_bad_call() {
    let p = LLang { entry: 0, funcs: vec![Func { local_count: 0, ops: vec![Op::Call(1)] }] };
    assert_eq!(p.convert(), Err(LinkError::IndexOutOfRange));
}

#[test]
fn link_rejects_bad_jump() {
    let p = LLang {
        entry: 0,
        funcs: vec![Func { local_count: 0, ops: vec![Op::Const(1), Op::JumpIf(3)] }],
    };
    assert_eq!(p.convert(), Err(LinkError::IndexOutOfRange));
}

#[test]
fn cmd_gen_records_function_starts() {
    let mut gen = CmdGen::new();
    gen.push(LLangCmd::Entry(FnIndex(1)));
    gen.push(LLangCmd::Frame(0));
    gen.push(LLangCmd::Ret);
    gen.push(LLangCmd::Frame(2));
    gen.push(LLangCmd::Jump(RelativeFnIndex(FnIndex(1), 0)));
    gen.push(LLangCmd::Call(FnIndex(0)));
    gen.push(LLangCmd::Ret);
    assert_eq!(gen.funcs, vec![1, 3]);
    assert_eq!(
        gen.to_cmds(),
        vec![
            Cmd::Entry(3),
            Cmd::Frame(0),
            Cmd::Ret,
            Cmd::Frame(2),
            Cmd::Jump(4),
            Cmd::Call(1),
            Cmd::Ret,
        ]
    );
}

#[test]
fn func_and_op_convert_emit_in_order() {
    let mut gen = CmdGen::new();
    let f = Func { local_count: 1, ops: vec![Op::Jump(0), Op::Call(0)] };
    f.convert(0, &mut gen);
    assert_eq!(
        gen.cmds,
        vec![
            LLangCmd::Frame(1),
            LLangCmd::Jump(RelativeFnIndex(FnIndex(0), 0)),
            LLangCmd::Call(FnIndex(0)),
            LLangCmd::Ret,
        ]
    );
    Op::JumpIf(2).convert(4, &mut gen);
    assert_eq!(gen.cmds[4], LLangCmd::JumpIf(RelativeFnIndex(FnIndex(4), 2)));
    assert_eq!(gen.funcs, vec![0]);
}
