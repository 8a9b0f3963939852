use crate::vm::Cmd;
use vstd::prelude::*;

verus! {

/// A function named by its position in the program's function list.
#[derive(Clone, Copy, Debug, PartialEq, Eq, Structural)]
pub struct FnIndex(pub usize);

/// An operation of a function, named by that function and the operation's
/// position in the function's own list.
#[derive(Clone, Copy, Debug, PartialEq, Eq, Structural)]
pub struct RelativeFnIndex(pub FnIndex, pub usize);

/// An instruction whose targets are still symbolic.
#[derive(Clone, Copy, Debug, PartialEq, Eq, Structural)]
pub enum LLangCmd {
    Frame(usize),
    Ret,
    Call(FnIndex),
    LocalLoad(usize),
    LocalStore(usize),
    ArgLoad(usize),
    ArgStore(usize),
    PopR(usize),
    Const(usize),
    Add,
    Mod,
    Entry(FnIndex),
    Eq,
    JumpIf(RelativeFnIndex),
    Jump(RelativeFnIndex),
}

/// A structured program: the entry function and the function table.
#[derive(Clone, Debug, PartialEq)]
pub struct LLang {
    pub entry: usize,
    pub funcs: Vec<Func>,
}

/// A function: how many locals its frame reserves, and its operations.
#[derive(Clone, Debug, PartialEq)]
pub struct Func {
    pub local_count: usize,
    pub ops: Vec<Op>,
}

/// An operation of a function body. `Call` names a function of the program;
/// `Jump` and `JumpIf` name an operation of the same function, where the
/// position just past the last operation is the function's return.
#[derive(Clone, Copy, Debug, PartialEq, Eq, Structural)]
pub enum Op {
    Call(usize),
    LocalLoad(usize),
    LocalStore(usize),
    ArgLoad(usize),
    ArgStore(usize),
    Const(usize),
    Add,
    Mod,
    Eq,
    JumpIf(usize),
    Jump(usize),
    PopR(usize),
}

/// A program refers to a function or an operation that does not exist.
#[derive(Clone, Copy, Debug, PartialEq, Eq, Structural)]
pub enum LinkError {
    IndexOutOfRange,
}

/// The emitter: the unresolved instructions so far, and the address at which
/// each function emitted so far starts.
#[derive(Clone, Debug, PartialEq)]
pub struct CmdGen {
    pub cmds: Vec<LLangCmd>,
    pub funcs: Vec<usize>,
}

pub open spec fn op_ok(op: Op, ops_len: nat, n_funcs: nat) -> bool {
    match op {
        Op::Call(k) => k < n_funcs,
        Op::Jump(x) => x <= ops_len,
        Op::JumpIf(x) => x <= ops_len,
        _ => true,
    }
}

/// Every function and operation index of the program is in range.
pub open spec fn well_formed(p: LLang) -> bool {
    &&& p.entry < p.funcs@.len()
    &&& forall|j: int, x: int|
        0 <= j < p.funcs@.len() && 0 <= x < p.funcs@[j].ops@.len() ==> op_ok(
            #[trigger] p.funcs@[j].ops@[x],
            p.funcs@[j].ops@.len(),
            p.funcs@.len(),
        )
}

/// Flat length of a function: its frame, its operations and its return.
pub open spec fn func_len(f: Func) -> int {
    f.ops@.len() + 2int
}

/// Address of function `j`: the entry instruction, then every function
/// before `j`. With `j` the number of functions, the length of the program.
pub open spec fn start(funcs: Seq<Func>, j: int) -> int
    decreases j,
{
    if j <= 0 {
        1
    } else {
        start(funcs, j - 1) + func_len(funcs[j - 1])
    }
}

pub open spec fn linked_len(p: LLang) -> int {
    start(p.funcs@, p.funcs@.len() as int)
}

pub open spec fn op_cmd(op: Op, j: usize) -> LLangCmd {
    match op {
        Op::Call(k) => LLangCmd::Call(FnIndex(k)),
        Op::LocalLoad(x) => LLangCmd::LocalLoad(x),
        Op::LocalStore(x) => LLangCmd::LocalStore(x),
        Op::ArgLoad(x) => LLangCmd::ArgLoad(x),
        Op::ArgStore(x) => LLangCmd::ArgStore(x),
        Op::Const(x) => LLangCmd::Const(x),
        Op::Add => LLangCmd::Add,
        Op::Mod => LLangCmd::Mod,
        Op::Eq => LLangCmd::Eq,
        Op::JumpIf(x) => LLangCmd::JumpIf(RelativeFnIndex(FnIndex(j), x)),
        Op::Jump(x) => LLangCmd::Jump(RelativeFnIndex(FnIndex(j), x)),
        Op::PopR(x) => LLangCmd::PopR(x),
    }
}

/// Function `j` emitted: its frame, its operations, its return.
pub open spec fn func_cmds(f: Func, j: usize) -> Seq<LLangCmd> {
    seq![LLangCmd::Frame(f.local_count)] + f.ops@.map_values(|op: Op| op_cmd(op, j)) + seq![
        LLangCmd::Ret,
    ]
}

/// The first `m` functions emitted one after another.
pub open spec fn emitted(funcs: Seq<Func>, m: int) -> Seq<LLangCmd>
    decreases m,
{
    if m <= 0 {
        seq![]
    } else {
        emitted(funcs, m - 1) + func_cmds(funcs[m - 1], (m - 1) as usize)
    }
}

/// The whole program before resolution.
pub open spec fn unresolved(p: LLang) -> Seq<LLangCmd> {
    seq![LLangCmd::Entry(FnIndex(p.entry))] + emitted(p.funcs@, p.funcs@.len() as int)
}

/// The address of each function.
pub open spec fn start_table(funcs: Seq<Func>) -> Seq<usize> {
    Seq::new(funcs.len(), |j: int| start(funcs, j) as usize)
}

/// One instruction with its targets looked up in `table`.
pub open spec fn resolve(c: LLangCmd, table: Seq<usize>) -> Cmd {
    match c {
        LLangCmd::Frame(x) => Cmd::Frame(x),
        LLangCmd::Ret => Cmd::Ret,
        LLangCmd::Call(FnIndex(i)) => Cmd::Call(table[i as int]),
        LLangCmd::LocalLoad(x) => Cmd::LocalLoad(x),
        LLangCmd::LocalStore(x) => Cmd::LocalStore(x),
        LLangCmd::ArgLoad(x) => Cmd::ArgLoad(x),
        LLangCmd::ArgStore(x) => Cmd::ArgStore(x),
        LLangCmd::PopR(x) => Cmd::PopR(x),
        LLangCmd::Const(x) => Cmd::Const(x),
        LLangCmd::Add => Cmd::Add,
        LLangCmd::Mod => Cmd::Mod,
        LLangCmd::Entry(FnIndex(i)) => Cmd::Entry(table[i as int]),
        LLangCmd::Eq => Cmd::Eq,
        LLangCmd::JumpIf(RelativeFnIndex(FnIndex(i), x)) => Cmd::JumpIf(
            (table[i as int] + x + 1) as usize,
        ),
        LLangCmd::Jump(RelativeFnIndex(FnIndex(i), x)) => Cmd::Jump(
            (table[i as int] + x + 1) as usize,
        ),
    }
}

/// Every target of `c` can be looked up in `table`, and every jump address
/// fits in a machine word.
pub open spec fn resolvable(c: LLangCmd, table: Seq<usize>) -> bool {
    match c {
        LLangCmd::Call(FnIndex(i)) => i < table.len(),
        LLangCmd::Entry(FnIndex(i)) => i < table.len(),
        LLangCmd::JumpIf(RelativeFnIndex(FnIndex(i), x)) => i < table.len() && table[i as int] + x
            + 1 <= usize::MAX,
        LLangCmd::Jump(RelativeFnIndex(FnIndex(i), x)) => i < table.len() && table[i as int] + x + 1
            <= usize::MAX,
        _ => true,
    }
}

pub open spec fn resolve_all(cmds: Seq<LLangCmd>, table: Seq<usize>) -> Seq<Cmd> {
    cmds.map_values(|c: LLangCmd| resolve(c, table))
}

/// The flat program: the unresolved stream with every target replaced by
/// its absolute address.
pub open spec fn linked(p: LLang) -> Seq<Cmd> {
    resolve_all(unresolved(p), start_table(p.funcs@))
}

pub proof fn lemma_start_monotone(funcs: Seq<Func>, i: int, j: int)
    requires
        0 <= i <= j,
    ensures
        start(funcs, i) <= start(funcs, j),
    decreases j,
{
    if i < j {
        lemma_start_monotone(funcs, i, j - 1);
    }
}

pub proof fn lemma_start_lower(funcs: Seq<Func>, j: int)
    requires
        0 <= j,
    ensures
        start(funcs, j) >= 1 + 2 * j,
    decreases j,
{
    if j > 0 {
        lemma_start_lower(funcs, j - 1);
    }
}

pub proof fn lemma_emitted_len(funcs: Seq<Func>, m: int)
    requires
        0 <= m,
    ensures
        emitted(funcs, m).len() + 1 == start(funcs, m),
    decreases m,
{
    if m > 0 {
        lemma_emitted_len(funcs, m - 1);
    }
}

/// Instruction `k` of function `j` stands at `start(j) + k` of the program.
pub proof fn lemma_emitted_at(funcs: Seq<Func>, m: int, j: int, k: int)
    requires
        0 <= j < m <= funcs.len(),
        0 <= k < func_len(funcs[j]),
    ensures
        emitted(funcs, m)[start(funcs, j) - 1 + k] == func_cmds(funcs[j], j as usize)[k],
    decreases m,
{
    lemma_emitted_len(funcs, m - 1);
    lemma_emitted_len(funcs, j);
    if j < m - 1 {
        lemma_emitted_at(funcs, m - 1, j, k);
        lemma_start_monotone(funcs, j + 1, m - 1);
    }
}

/// In a well-formed program that fits in a machine word, every instruction
/// of the first `m` functions can be resolved through the start table.
pub proof fn lemma_emitted_resolvable(p: LLang, m: int)
    requires
        well_formed(p),
        linked_len(p) <= usize::MAX,
        0 <= m <= p.funcs@.len(),
    ensures
        forall|k: int|
            0 <= k < emitted(p.funcs@, m).len() ==> resolvable(
                #[trigger] emitted(p.funcs@, m)[k],
                start_table(p.funcs@),
            ),
    decreases m,
{
    let funcs = p.funcs@;
    let n = funcs.len() as int;
    if m > 0 {
        lemma_emitted_resolvable(p, m - 1);
        lemma_emitted_len(funcs, m - 1);
        lemma_start_monotone(funcs, m, n);
        lemma_start_lower(funcs, n);
        let j = m - 1;
        let f = funcs[j];
        let prev = emitted(funcs, m - 1);
        let table = start_table(funcs);
        assert(table[j] == start(funcs, j) as usize);
        assert forall|k: int| 0 <= k < emitted(funcs, m).len() implies resolvable(
            #[trigger] emitted(funcs, m)[k],
            start_table(funcs),
        ) by {
            if k >= prev.len() {
                let r = k - prev.len();
                assert(emitted(funcs, m)[k] == func_cmds(f, j as usize)[r]);
                if 1 <= r < 1 + f.ops@.len() {
                    let x = r - 1;
                    assert(op_ok(f.ops@[x], f.ops@.len(), funcs.len()));
                    assert(func_cmds(f, j as usize)[r] == op_cmd(f.ops@[x], j as usize));
                }
            } else {
                assert(emitted(funcs, m)[k] == prev[k]);
            }
        }
    }
}

/// Linking a well-formed program lays every function out at its start
/// address, between its `Frame` and its `Ret`, and resolves every reference
/// into the function it names: the entry instruction and every call point at
/// the callee's `Frame`, and every jump lands on an operation, or the return,
/// of the function that holds it.
pub proof fn lemma_link_targets(p: LLang)
    requires
        well_formed(p),
        linked_len(p) <= usize::MAX,
    ensures
        linked(p).len() == linked_len(p),
        linked(p)[0] == Cmd::Entry(start(p.funcs@, p.entry as int) as usize),
        forall|j: int|
            0 <= j < p.funcs@.len() ==> {
                &&& linked(p)[start(p.funcs@, j)] == Cmd::Frame(#[trigger] p.funcs@[j].local_count)
                &&& linked(p)[start(p.funcs@, j + 1) - 1] == Cmd::Ret
            },
        forall|j: int, x: int|
            0 <= j < p.funcs@.len() && 0 <= x < p.funcs@[j].ops@.len() ==> match #[trigger] p.funcs@[j].ops@[x] {
                Op::Call(k) => {
                    &&& linked(p)[start(p.funcs@, j) + 1 + x] == Cmd::Call(start(p.funcs@, k as int) as usize)
                    &&& linked(p)[start(p.funcs@, k as int)] == Cmd::Frame(p.funcs@[k as int].local_count)
                },
                Op::Jump(t) => {
                    &&& linked(p)[start(p.funcs@, j) + 1 + x] == Cmd::Jump((start(p.funcs@, j) + 1 + t) as usize)
                    &&& start(p.funcs@, j) < start(p.funcs@, j) + 1 + t < start(p.funcs@, j + 1)
                },
                Op::JumpIf(t) => {
                    &&& linked(p)[start(p.funcs@, j) + 1 + x] == Cmd::JumpIf((start(p.funcs@, j) + 1 + t) as usize)
                    &&& start(p.funcs@, j) < start(p.funcs@, j) + 1 + t < start(p.funcs@, j + 1)
                },
                _ => linked(p)[start(p.funcs@, j) + 1 + x] == resolve(op_cmd(p.funcs@[j].ops@[x], j as usize), start_table(p.funcs@)),
            },
{
    let funcs = p.funcs@;
    let n = funcs.len() as int;
    let table = start_table(funcs);
    let u = unresolved(p);
    lemma_emitted_len(funcs, n);
    lemma_start_lower(funcs, n);
    assert(linked(p)[0] == resolve(u[0], table));
    assert forall|j: int|
        0 <= j < n implies {
            &&& linked(p)[start(funcs, j)] == Cmd::Frame(#[trigger] funcs[j].local_count)
            &&& linked(p)[start(funcs, j + 1) - 1] == Cmd::Ret
        } by {
        let f = funcs[j];
        lemma_start_monotone(funcs, j + 1, n);
        lemma_start_lower(funcs, j);
        assert(start(funcs, j + 1) == start(funcs, j) + func_len(f));
        lemma_emitted_at(funcs, n, j, 0);
        lemma_emitted_at(funcs, n, j, func_len(f) - 1);
        assert(u[start(funcs, j)] == emitted(funcs, n)[start(funcs, j) - 1]);
        assert(u[start(funcs, j + 1) - 1] == emitted(funcs, n)[start(funcs, j + 1) - 2]);
    }
    assert forall|j: int, x: int|
        0 <= j < n && 0 <= x < funcs[j].ops@.len() implies match #[trigger] funcs[j].ops@[x] {
            Op::Call(k) => {
                &&& linked(p)[start(funcs, j) + 1 + x] == Cmd::Call(start(funcs, k as int) as usize)
                &&& linked(p)[start(funcs, k as int)] == Cmd::Frame(funcs[k as int].local_count)
            },
            Op::Jump(t) => {
                &&& linked(p)[start(funcs, j) + 1 + x] == Cmd::Jump((start(funcs, j) + 1 + t) as usize)
                &&& start(funcs, j) < start(funcs, j) + 1 + t < start(funcs, j + 1)
            },
            Op::JumpIf(t) => {
                &&& linked(p)[start(funcs, j) + 1 + x] == Cmd::JumpIf((start(funcs, j) + 1 + t) as usize)
                &&& start(funcs, j) < start(funcs, j) + 1 + t < start(funcs, j + 1)
            },
            _ => linked(p)[start(funcs, j) + 1 + x] == resolve(op_cmd(funcs[j].ops@[x], j as usize), table),
        } by {
        let f = funcs[j];
        let op = f.ops@[x];
        assert(op_ok(op, f.ops@.len(), funcs.len()));
        lemma_start_monotone(funcs, j + 1, n);
        lemma_start_lower(funcs, j);
        assert(start(funcs, j + 1) == start(funcs, j) + func_len(f));
        lemma_emitted_at(funcs, n, j, 1 + x);
        assert(func_cmds(f, j as usize)[1 + x] == op_cmd(op, j as usize));
        assert(u[start(funcs, j) + 1 + x] == emitted(funcs, n)[start(funcs, j) + x]);
        if let Op::Call(k) = op {
            let kk = k as int;
            lemma_start_monotone(funcs, kk + 1, n);
            lemma_start_lower(funcs, kk);
            assert(start(funcs, kk + 1) == start(funcs, kk) + func_len(funcs[kk]));
            lemma_emitted_at(funcs, n, kk, 0);
            assert(u[start(funcs, kk)] == emitted(funcs, n)[start(funcs, kk) - 1]);
        }
    }
}

impl CmdGen {
    pub fn new() -> (r: CmdGen)
        ensures
            r.cmds@ == Seq::<LLangCmd>::empty(),
            r.funcs@ == Seq::<usize>::empty(),
    {
        CmdGen { cmds: Vec::new(), funcs: Vec::new() }
    }

    /// Appends `cmd`; a `Frame` opens a function, whose address is recorded.
    pub fn push(&mut self, cmd: LLangCmd)
        ensures
            final(self).cmds@ == old(self).cmds@.push(cmd),
            final(self).funcs@ == (if cmd is Frame {
                old(self).funcs@.push(old(self).cmds@.len() as usize)
            } else {
                old(self).funcs@
            }),
    {
        if let LLangCmd::Frame(_) = cmd {
            let at = self.cmds.len();
            self.funcs.push(at);
        }
        self.cmds.push(cmd);
    }

    /// Resolves every instruction through the recorded start addresses.
    pub fn to_cmds(self) -> (r: Vec<Cmd>)
        requires
            forall|k: int|
                0 <= k < self.cmds@.len() ==> resolvable(#[trigger] self.cmds@[k], self.funcs@),
        ensures
            r@ == resolve_all(self.cmds@, self.funcs@),
    {
        let cmds = self.cmds;
        let funcs = self.funcs;
        let mut out: Vec<Cmd> = Vec::with_capacity(cmds.len());
        let mut k: usize = 0;
        while k < cmds.len()
            invariant
                k <= cmds@.len(),
                forall|q: int| 0 <= q < cmds@.len() ==> resolvable(#[trigger] cmds@[q], funcs@),
                out@ =~= resolve_all(cmds@.take(k as int), funcs@),
            decreases cmds@.len() - k,
        {
            let c = match cmds[k] {
                LLangCmd::Frame(x) => Cmd::Frame(x),
                LLangCmd::Ret => Cmd::Ret,
                LLangCmd::Call(FnIndex(i)) => Cmd::Call(funcs[i]),
                LLangCmd::LocalLoad(x) => Cmd::LocalLoad(x),
                LLangCmd::LocalStore(x) => Cmd::LocalStore(x),
                LLangCmd::ArgLoad(x) => Cmd::ArgLoad(x),
                LLangCmd::ArgStore(x) => Cmd::ArgStore(x),
                LLangCmd::PopR(x) => Cmd::PopR(x),
                LLangCmd::Const(x) => Cmd::Const(x),
                LLangCmd::Add => Cmd::Add,
                LLangCmd::Mod => Cmd::Mod,
                LLangCmd::Entry(FnIndex(i)) => Cmd::Entry(funcs[i]),
                LLangCmd::Eq => Cmd::Eq,
                LLangCmd::JumpIf(RelativeFnIndex(FnIndex(i), x)) => Cmd::JumpIf(funcs[i] + x + 1),
                LLangCmd::Jump(RelativeFnIndex(FnIndex(i), x)) => Cmd::Jump(funcs[i] + x + 1),
            };
            out.push(c);
            proof {
                assert(cmds@.take(k as int + 1) =~= cmds@.take(k as int).push(cmds@[k as int]));
            }
            k = k + 1;
        }
        assert(cmds@.take(cmds@.len() as int) =~= cmds@);
        out
    }
}

impl Op {
    /// Emits this operation of function `fn_index`.
    pub fn convert(&self, fn_index: usize, gen: &mut CmdGen)
        ensures
            final(gen).cmds@ == old(gen).cmds@.push(op_cmd(*self, fn_index)),
            final(gen).funcs@ == old(gen).funcs@,
    {
        gen.push(
            match self {
                Op::Call(x) => LLangCmd::Call(FnIndex(*x)),
                Op::LocalLoad(x) => LLangCmd::LocalLoad(*x),
                Op::LocalStore(x) => LLangCmd::LocalStore(*x),
                Op::ArgLoad(x) => LLangCmd::ArgLoad(*x),
                Op::ArgStore(x) => LLangCmd::ArgStore(*x),
                Op::Const(x) => LLangCmd::Const(*x),
                Op::Add => LLangCmd::Add,
                Op::Mod => LLangCmd::Mod,
                Op::Eq => LLangCmd::Eq,
                Op::JumpIf(x) => LLangCmd::JumpIf(RelativeFnIndex(FnIndex(fn_index), *x)),
                Op::Jump(x) => LLangCmd::Jump(RelativeFnIndex(FnIndex(fn_index), *x)),
                Op::PopR(x) => LLangCmd::PopR(*x),
            },
        );
    }
}

impl Func {
    /// Emits this function as function `fn_index`: frame, operations, return.
    pub fn convert(&self, fn_index: usize, gen: &mut CmdGen)
        ensures
            final(gen).cmds@ == old(gen).cmds@ + func_cmds(*self, fn_index),
            final(gen).funcs@ == old(gen).funcs@.push(old(gen).cmds@.len() as usize),
    {
        let ghost before = gen.cmds@;
        gen.push(LLangCmd::Frame(self.local_count));
        let mut x: usize = 0;
        while x < self.ops.len()
            invariant
                x <= self.ops@.len(),
                gen.cmds@ =~= before + seq![LLangCmd::Frame(self.local_count)] + self.ops@.take(
                    x as int,
                ).map_values(|op: Op| op_cmd(op, fn_index)),
                gen.funcs@ == old(gen).funcs@.push(before.len() as usize),
            decreases self.ops@.len() - x,
        {
            self.ops[x].convert(fn_index, gen);
            proof {
                assert(self.ops@.take(x as int + 1) =~= self.ops@.take(x as int).push(
                    self.ops@[x as int],
                ));
            }
            x = x + 1;
        }
        assert(self.ops@.take(self.ops@.len() as int) =~= self.ops@);
        gen.push(LLangCmd::Ret);
        assert(gen.cmds@ =~= before + func_cmds(*self, fn_index));
    }
}

impl LLang {
    /// Whether every function and operation index is in range.
    fn indices_in_range(&self) -> (r: bool)
        ensures
            r == well_formed(*self),
    {
        let n = self.funcs.len();
        if self.entry >= n {
            return false;
        }
        let mut j: usize = 0;
        while j < n
            invariant
                n == self.funcs@.len(),
                j <= n,
                forall|jj: int, x: int|
                    0 <= jj < j && 0 <= x < self.funcs@[jj].ops@.len() ==> op_ok(
                        #[trigger] self.funcs@[jj].ops@[x],
                        self.funcs@[jj].ops@.len(),
                        n as nat,
                    ),
            decreases n - j,
        {
            let ops = &self.funcs[j].ops;
            let len = ops.len();
            let mut x: usize = 0;
            while x < len
                invariant
                    n == self.funcs@.len(),
                    j < n,
                    *ops == self.funcs@[j as int].ops,
                    len == ops@.len(),
                    x <= len,
                    forall|jj: int, y: int|
                        0 <= jj < j && 0 <= y < self.funcs@[jj].ops@.len() ==> op_ok(
                            #[trigger] self.funcs@[jj].ops@[y],
                            self.funcs@[jj].ops@.len(),
                            n as nat,
                        ),
                    forall|y: int| 0 <= y < x ==> op_ok(#[trigger] ops@[y], len as nat, n as nat),
                decreases len - x,
            {
                let ok = match ops[x] {
                    Op::Call(k) => k < n,
                    Op::Jump(t) => t <= len,
                    Op::JumpIf(t) => t <= len,
                    _ => true,
                };
                if !ok {
                    return false;
                }
                x = x + 1;
            }
            j = j + 1;
        }
        true
    }

    /// Links the program: an `Entry` to the entry function, then each
    /// function in order, with every call and jump target resolved to an
    /// absolute address. Fails when an index is out of range.
    pub fn convert(&self) -> (r: Result<Vec<Cmd>, LinkError>)
        requires
            linked_len(*self) <= usize::MAX,
        ensures
            match r {
                Ok(v) => well_formed(*self) && v@ == linked(*self),
                Err(e) => !well_formed(*self) && e == LinkError::IndexOutOfRange,
            },
    {
        if !self.indices_in_range() {
            return Err(LinkError::IndexOutOfRange);
        }
        let ghost funcs = self.funcs@;
        let n = self.funcs.len();
        let mut gen = CmdGen::new();
        gen.push(LLangCmd::Entry(FnIndex(self.entry)));
        let mut i: usize = 0;
        while i < n
            invariant
                n == funcs.len(),
                funcs == self.funcs@,
                well_formed(*self),
                linked_len(*self) <= usize::MAX,
                i <= n,
                gen.cmds@ == seq![LLangCmd::Entry(FnIndex(self.entry))] + emitted(funcs, i as int),
                gen.funcs@ =~= start_table(funcs).take(i as int),
            decreases n - i,
        {
            proof {
                lemma_emitted_len(funcs, i as int);
                lemma_start_monotone(funcs, i as int, n as int);
            }
            self.funcs[i].convert(i, &mut gen);
            proof {
                assert(emitted(funcs, i as int + 1) == emitted(funcs, i as int) + func_cmds(
                    funcs[i as int],
                    i as usize,
                ));
                assert(gen.cmds@ =~= seq![LLangCmd::Entry(FnIndex(self.entry))] + emitted(
                    funcs,
                    i as int + 1,
                ));
            }
            i = i + 1;
        }
        proof {
            lemma_emitted_resolvable(*self, n as int);
            assert(gen.funcs@ =~= start_table(funcs));
            assert forall|k: int| 0 <= k < gen.cmds@.len() implies resolvable(
                #[trigger] gen.cmds@[k],
                gen.funcs@,
            ) by {
                if k > 0 {
                    assert(gen.cmds@[k] == emitted(funcs, n as int)[k - 1]);
                }
            }
        }
        Ok(gen.to_cmds())
    }
}

} // verus!
