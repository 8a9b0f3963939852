use vstd::prelude::*;

verus! {

/// Number of stack slots owned by a machine made with `VM::new`.
pub const STACK_SIZE: usize = 1000;

/// One instruction of a flat program. Every address is an absolute index
/// into the program.
#[derive(Clone, Copy, Debug, PartialEq, Eq, Structural)]
pub enum Cmd {
    /// Saves the caller's frame pointer and reserves this many local slots.
    Frame(usize),
    /// Returns the top value to the caller and unwinds the frame.
    Ret,
    /// Pushes the return address and jumps to the callee.
    Call(usize),
    LocalLoad(usize),
    LocalStore(usize),
    ArgLoad(usize),
    ArgStore(usize),
    /// Keeps the top value and drops the given number of slots minus one
    /// beneath it.
    PopR(usize),
    Const(usize),
    Add,
    /// The first value popped, modulo the second.
    Mod,
    /// Pushes the halt return address and jumps to the entry function.
    Entry(usize),
    Eq,
    JumpIf(usize),
    Jump(usize),
}

/// Why the machine could not take a step.
#[derive(Clone, Copy, Debug, PartialEq, Eq, Structural)]
pub enum VmError {
    /// The program counter lies outside the program.
    BadProgramCounter,
    /// An argument, local or frame slot lies outside the stack.
    BadStackAddress,
    /// A push or a frame would pass the stack's capacity.
    StackOverflow,
    /// A pop, or a move of the stack pointer, would go below the bottom.
    StackUnderflow,
    /// The sum of `Add` does not fit in a machine word.
    ArithmeticOverflow,
    /// `Mod` with a zero divisor.
    DivisionByZero,
    /// The step budget ran out before the program halted.
    OutOfSteps,
}

/// The machine as a mathematical value: its registers, its stack and the
/// program it runs.
pub struct VmState {
    pub fp: usize,
    pub sp: usize,
    pub pc: usize,
    pub stack: Seq<usize>,
    pub program: Seq<Cmd>,
}

/// The stack pointer stays within the stack, which is indexable by machine
/// words.
pub open spec fn wf(s: VmState) -> bool {
    &&& s.sp <= s.stack.len()
    &&& s.stack.len() <= usize::MAX
}

pub open spec fn top(s: VmState) -> usize {
    s.stack[s.sp - 1]
}

/// The value one below the top.
pub open spec fn second(s: VmState) -> usize {
    s.stack[s.sp - 2]
}

pub open spec fn has_room(s: VmState) -> bool {
    s.sp < s.stack.len()
}

pub open spec fn pushed(s: VmState, x: usize) -> VmState {
    VmState { stack: s.stack.update(s.sp as int, x), sp: (s.sp + 1) as usize, ..s }
}

pub open spec fn popped(s: VmState, k: nat) -> VmState {
    VmState { sp: (s.sp - k) as usize, ..s }
}

pub open spec fn advanced(s: VmState) -> VmState {
    VmState { pc: (s.pc + 1) as usize, ..s }
}

/// Slot of local `i` in the active frame.
pub open spec fn local_addr(s: VmState, i: usize) -> int {
    s.fp + i + 1
}

/// Slot of argument `i` of the active frame.
pub open spec fn arg_addr(s: VmState, i: usize) -> int {
    s.fp - i - 2
}

pub open spec fn in_stack(s: VmState, a: int) -> bool {
    0 <= a < s.stack.len()
}

/// Pops two values and pushes `v` in their place, then falls through.
pub open spec fn binop(s: VmState, v: usize) -> VmState {
    advanced(pushed(popped(s, 2), v))
}

/// What executing the instruction at `pc` does: the next state, or the
/// error that stops the machine.
pub open spec fn next_state(s: VmState) -> Result<VmState, VmError> {
    if s.pc >= s.program.len() {
        Err(VmError::BadProgramCounter)
    } else {
        match s.program[s.pc as int] {
            Cmd::Entry(a) => if !has_room(s) {
                Err(VmError::StackOverflow)
            } else {
                Ok(VmState { pc: a, ..pushed(s, 0) })
            },
            Cmd::Frame(n) => if s.sp + 1 + n > s.stack.len() {
                Err(VmError::StackOverflow)
            } else {
                let t = pushed(s, s.fp);
                Ok(VmState { fp: s.sp, sp: (t.sp + n) as usize, pc: (s.pc + 1) as usize, ..t })
            },
            Cmd::Ret => if s.sp < 1 {
                Err(VmError::StackUnderflow)
            } else if s.fp < 1 || s.fp >= s.stack.len() {
                Err(VmError::BadStackAddress)
            } else {
                let t = VmState {
                    sp: s.fp,
                    pc: s.stack[s.fp - 1],
                    fp: s.stack[s.fp as int],
                    ..s
                };
                Ok(pushed(t, top(s)))
            },
            Cmd::Call(a) => if !has_room(s) {
                Err(VmError::StackOverflow)
            } else {
                Ok(VmState { pc: a, ..pushed(s, (s.pc + 1) as usize) })
            },
            Cmd::LocalLoad(i) => if !in_stack(s, local_addr(s, i)) {
                Err(VmError::BadStackAddress)
            } else if !has_room(s) {
                Err(VmError::StackOverflow)
            } else {
                Ok(advanced(pushed(s, s.stack[local_addr(s, i)])))
            },
            Cmd::LocalStore(i) => if s.sp < 1 {
                Err(VmError::StackUnderflow)
            } else if !in_stack(s, local_addr(s, i)) {
                Err(VmError::BadStackAddress)
            } else {
                let t = popped(s, 1);
                Ok(advanced(VmState { stack: t.stack.update(local_addr(s, i), top(s)), ..t }))
            },
            Cmd::ArgLoad(i) => if !in_stack(s, arg_addr(s, i)) {
                Err(VmError::BadStackAddress)
            } else if !has_room(s) {
                Err(VmError::StackOverflow)
            } else {
                Ok(advanced(pushed(s, s.stack[arg_addr(s, i)])))
            },
            Cmd::ArgStore(i) => if s.sp < 1 {
                Err(VmError::StackUnderflow)
            } else if !in_stack(s, arg_addr(s, i)) {
                Err(VmError::BadStackAddress)
            } else {
                let t = popped(s, 1);
                Ok(advanced(VmState { stack: t.stack.update(arg_addr(s, i), top(s)), ..t }))
            },
            Cmd::PopR(n) => if s.sp < 1 || s.sp < n {
                Err(VmError::StackUnderflow)
            } else if s.sp - n >= s.stack.len() {
                Err(VmError::StackOverflow)
            } else {
                Ok(advanced(pushed(popped(s, n as nat), top(s))))
            },
            Cmd::Const(v) => if !has_room(s) {
                Err(VmError::StackOverflow)
            } else {
                Ok(advanced(pushed(s, v)))
            },
            Cmd::Add => if s.sp < 2 {
                Err(VmError::StackUnderflow)
            } else if top(s) + second(s) > usize::MAX {
                Err(VmError::ArithmeticOverflow)
            } else {
                Ok(binop(s, (top(s) + second(s)) as usize))
            },
            Cmd::Mod => if s.sp < 2 {
                Err(VmError::StackUnderflow)
            } else if second(s) == 0 {
                Err(VmError::DivisionByZero)
            } else {
                Ok(binop(s, top(s) % second(s)))
            },
            Cmd::Eq => if s.sp < 2 {
                Err(VmError::StackUnderflow)
            } else {
                Ok(binop(s, if top(s) == second(s) { 1 } else { 0 }))
            },
            Cmd::JumpIf(a) => if s.sp < 1 {
                Err(VmError::StackUnderflow)
            } else if top(s) != 0 {
                Ok(VmState { pc: a, ..popped(s, 1) })
            } else {
                Ok(advanced(popped(s, 1)))
            },
            Cmd::Jump(a) => Ok(VmState { pc: a, ..s }),
        }
    }
}

/// The program's result once it has halted: the value on top of the stack.
pub open spec fn halt_result(s: VmState) -> Result<usize, VmError> {
    if s.sp < 1 {
        Err(VmError::StackUnderflow)
    } else {
        Ok(top(s))
    }
}

/// Running on from a state that has taken at least one step, with at most
/// `fuel` more steps: stops as soon as `pc` is 0, on the first error, or
/// when the fuel is spent. Gives the state where it stopped and the outcome.
pub open spec fn resume(s: VmState, fuel: nat) -> (VmState, Result<usize, VmError>)
    decreases fuel,
{
    if s.pc == 0 {
        (s, halt_result(s))
    } else if fuel == 0 {
        (s, Err(VmError::OutOfSteps))
    } else {
        match next_state(s) {
            Ok(t) => resume(t, (fuel - 1) as nat),
            Err(e) => (s, Err(e)),
        }
    }
}

/// A whole run with at most `fuel` steps: the first step is taken whatever
/// `pc` holds, since a fresh machine starts at address 0.
pub open spec fn run_outcome(s: VmState, fuel: nat) -> (VmState, Result<usize, VmError>) {
    if fuel == 0 {
        (s, Err(VmError::OutOfSteps))
    } else {
        match next_state(s) {
            Ok(t) => resume(t, (fuel - 1) as nat),
            Err(e) => (s, Err(e)),
        }
    }
}

/// Once `pc` is 0 the machine has halted: running on executes nothing, not
/// even the instruction at address 0, whatever the budget, and the outcome
/// is the value on top of the stack.
pub proof fn lemma_halt_is_final(s: VmState, fuel: nat)
    requires
        s.pc == 0,
    ensures
        resume(s, fuel) == (s, halt_result(s)),
{
}

/// A run that succeeds stops at `pc == 0`, with the value then on top of
/// the stack as its result.
pub proof fn lemma_success_at_halt(s: VmState, fuel: nat)
    ensures
        resume(s, fuel).1 is Ok ==> resume(s, fuel).0.pc == 0 && resume(s, fuel).1 == halt_result(
            resume(s, fuel).0,
        ),
    decreases fuel,
{
    if s.pc != 0 && fuel > 0 {
        if let Ok(t) = next_state(s) {
            lemma_success_at_halt(t, (fuel - 1) as nat);
        }
    }
}

/// `PopR(1)` keeps the top and discards nothing: the stack and its pointer
/// stay as they are, and control falls through.
pub proof fn lemma_squash_one_is_noop(s: VmState)
    requires
        wf(s),
        s.pc < s.program.len(),
        s.program[s.pc as int] == Cmd::PopR(1),
        s.sp >= 1,
    ensures
        next_state(s) == Ok::<VmState, VmError>(advanced(s)),
{
    assert(s.stack.update(s.sp - 1, top(s)) =~= s.stack);
}

/// `Eq` replaces the two top values by 1 where they are equal and by 0
/// where they are not.
pub proof fn lemma_eq_pushes_flag(s: VmState)
    requires
        wf(s),
        s.program.len() <= usize::MAX,
        s.pc < s.program.len(),
        s.program[s.pc as int] == Cmd::Eq,
        s.sp >= 2,
    ensures
        next_state(s) is Ok,
        top(next_state(s)->Ok_0) == (if top(s) == second(s) {
            1usize
        } else {
            0usize
        }),
        next_state(s)->Ok_0.sp == s.sp - 1,
        next_state(s)->Ok_0.pc == s.pc + 1,
{
}

/// Calling convention: after a `Call` and the callee's `Frame(n)`, the frame
/// slot holds the caller's frame pointer, the slot below it the return
/// address, `n` local slots lie above it, and argument `i` of the callee is
/// the value that stood `i` slots below the caller's top before the call.
pub proof fn lemma_call_frame_layout(s: VmState, a: usize, n: usize)
    requires
        wf(s),
        s.program.len() <= usize::MAX,
        s.pc < s.program.len(),
        s.program[s.pc as int] == Cmd::Call(a),
        a < s.program.len(),
        s.program[a as int] == Cmd::Frame(n),
        s.sp + 2 + n <= s.stack.len(),
    ensures
        next_state(s) is Ok,
        next_state(next_state(s)->Ok_0) is Ok,
        ({
            let u = next_state(next_state(s)->Ok_0)->Ok_0;
            &&& wf(u)
            &&& u.pc == a + 1
            &&& u.fp == s.sp + 1
            &&& u.sp == s.sp + 2 + n
            &&& u.stack[u.fp - 1] == s.pc + 1
            &&& u.stack[u.fp as int] == s.fp
            &&& forall|i: usize|
                i < s.sp ==> in_stack(u, #[trigger] arg_addr(u, i)) && u.stack[arg_addr(u, i)]
                    == s.stack[s.sp - 1 - i]
        }),
{
    let t = next_state(s)->Ok_0;
    assert(t == VmState { pc: a, ..pushed(s, (s.pc + 1) as usize) });
    let u = next_state(t)->Ok_0;
    assert(u.stack == t.stack.update(t.sp as int, s.fp));
    assert forall|i: usize| i < s.sp implies in_stack(u, #[trigger] arg_addr(u, i))
        && u.stack[arg_addr(u, i)] == s.stack[s.sp - 1 - i] by {
        assert(arg_addr(u, i) == s.sp - 1 - i);
    }
}

/// `LocalStore(i)` followed by `LocalLoad(i)` reads back the stored value:
/// the top of the stack is as before, and control has moved past both.
pub proof fn lemma_store_then_load_local(s: VmState, i: usize)
    requires
        wf(s),
        s.program.len() <= usize::MAX,
        s.pc + 1 < s.program.len(),
        s.program[s.pc as int] == Cmd::LocalStore(i),
        s.program[s.pc + 1] == Cmd::LocalLoad(i),
        s.sp >= 1,
        in_stack(s, local_addr(s, i)),
    ensures
        next_state(s) is Ok,
        next_state(next_state(s)->Ok_0) is Ok,
        ({
            let u = next_state(next_state(s)->Ok_0)->Ok_0;
            &&& u.sp == s.sp
            &&& u.fp == s.fp
            &&& u.pc == s.pc + 2
            &&& top(u) == top(s)
            &&& u.stack[local_addr(s, i)] == top(s)
        }),
{
    let t = next_state(s)->Ok_0;
    assert(t.stack == s.stack.update(local_addr(s, i), top(s)));
    assert(t.sp == s.sp - 1 && t.fp == s.fp && t.pc == s.pc + 1);
    assert(local_addr(t, i) == local_addr(s, i));
    assert(has_room(t));
}

/// Work on temporaries (pushes, arithmetic, `PopR` of at least one slot,
/// jumps) keeps the frame pointer and every slot below the new top, so the
/// arguments and locals of the active frame stay as they were.
pub proof fn lemma_temporaries_keep_frame(s: VmState)
    requires
        wf(s),
        s.pc < s.program.len(),
        next_state(s) is Ok,
        match s.program[s.pc as int] {
            Cmd::Const(_) | Cmd::LocalLoad(_) | Cmd::ArgLoad(_) | Cmd::Add | Cmd::Mod | Cmd::Eq
            | Cmd::JumpIf(_) | Cmd::Jump(_) => true,
            Cmd::PopR(n) => n >= 1,
            _ => false,
        },
    ensures
        ({
            let t = next_state(s)->Ok_0;
            &&& t.fp == s.fp
            &&& forall|k: int| 0 <= k < t.sp - 1 ==> #[trigger] t.stack[k] == s.stack[k]
        }),
{
}

/// Return-value propagation: `Ret` puts the callee's top on top of the
/// caller's stack, in the slot where the callee's frame began, and goes back
/// to the return address; the `PopR(n)` that the caller runs there, which
/// drops the `n - 1` slots beneath the top, keeps that value on top.
pub proof fn lemma_return_value_propagates(s: VmState, n: usize)
    requires
        wf(s),
        s.program.len() <= usize::MAX,
        s.pc < s.program.len(),
        s.program[s.pc as int] == Cmd::Ret,
        s.sp >= 1,
        1 <= s.fp < s.stack.len(),
        s.stack[s.fp - 1] < s.program.len(),
        s.program[s.stack[s.fp - 1] as int] == Cmd::PopR(n),
        1 <= n <= s.fp + 1,
    ensures
        next_state(s) is Ok,
        top(next_state(s)->Ok_0) == top(s),
        next_state(s)->Ok_0.sp == s.fp + 1,
        next_state(s)->Ok_0.pc == s.stack[s.fp - 1],
        next_state(s)->Ok_0.fp == s.stack[s.fp as int],
        next_state(next_state(s)->Ok_0) is Ok,
        ({
            let u = next_state(next_state(s)->Ok_0)->Ok_0;
            &&& top(u) == top(s)
            &&& u.sp == s.fp + 2 - n
            &&& u.pc == s.stack[s.fp - 1] + 1
            &&& u.fp == s.stack[s.fp as int]
        }),
{
    let t = next_state(s)->Ok_0;
    assert(t.sp == s.fp + 1 && top(t) == top(s));
    assert(t.pc < t.program.len() && t.program[t.pc as int] == Cmd::PopR(n));
}

/// The text that `format!` makes of a program counter, a frame pointer and
/// the live part of the stack.
pub uninterp spec fn state_text(pc: usize, fp: usize, live: Seq<usize>) -> Seq<char>;

/// Relies on `format!`, with `{}` for the registers and `{:?}` for the
/// slots: the text depends on those values alone.
#[verifier::external_body]
fn render_state(pc: usize, fp: usize, live: &Vec<usize>) -> (r: String)
    ensures
        r@ == state_text(pc, fp, live@),
{
    format!("pc:{} fp:{} stack:{:?}", pc, fp, live)
}

/// The machine: frame pointer, stack pointer, program counter, a stack of
/// fixed capacity, and the flat program.
#[derive(Clone, Debug, PartialEq)]
pub struct VM {
    fp: usize,
    sp: usize,
    pc: usize,
    stack: Vec<usize>,
    program: Vec<Cmd>,
}

impl View for VM {
    type V = VmState;

    closed spec fn view(&self) -> VmState {
        VmState {
            fp: self.fp,
            sp: self.sp,
            pc: self.pc,
            stack: self.stack@,
            program: self.program@,
        }
    }
}

impl VM {
    /// A machine at address 0 with all registers zero and `STACK_SIZE`
    /// zeroed stack slots.
    pub fn new(program: Vec<Cmd>) -> (r: VM)
        ensures
            r@ == (VmState {
                fp: 0,
                sp: 0,
                pc: 0,
                stack: Seq::new(STACK_SIZE as nat, |k: int| 0usize),
                program: program@,
            }),
            wf(r@),
    {
        let mut stack: Vec<usize> = Vec::with_capacity(STACK_SIZE);
        let mut k: usize = 0;
        while k < STACK_SIZE
            invariant
                k <= STACK_SIZE,
                stack@ =~= Seq::new(k as nat, |j: int| 0usize),
            decreases STACK_SIZE - k,
        {
            stack.push(0);
            k = k + 1;
        }
        let r = VM { fp: 0, stack, sp: 0, program, pc: 0 };
        assert(r@.stack =~= Seq::new(STACK_SIZE as nat, |j: int| 0usize));
        r
    }

    /// Runs the program until `pc` comes back to 0, and returns the value then
    /// on top of the stack. The step budget is `u64::MAX`.
    pub fn run(&mut self) -> (r: Result<usize, VmError>)
        requires
            wf(old(self)@),
        ensures
            wf(final(self)@),
            (final(self)@, r) == run_outcome(old(self)@, u64::MAX as nat),
            r is Ok ==> final(self)@.pc == 0,
    {
        self.run_for(u64::MAX)
    }

    /// Runs at most `max_steps` instructions: the first whatever `pc` holds,
    /// then on until `pc` is 0, which is never executed.
    pub fn run_for(&mut self, max_steps: u64) -> (r: Result<usize, VmError>)
        requires
            wf(old(self)@),
        ensures
            wf(final(self)@),
            (final(self)@, r) == run_outcome(old(self)@, max_steps as nat),
            r is Ok ==> final(self)@.pc == 0,
    {
        if max_steps == 0 {
            return Err(VmError::OutOfSteps);
        }
        match self.step() {
            Ok(()) => {},
            Err(e) => {
                return Err(e);
            },
        }
        let mut left: u64 = max_steps - 1;
        while self.pc != 0
            invariant
                wf(self@),
                resume(self@, left as nat) == run_outcome(old(self)@, max_steps as nat),
            decreases left,
        {
            if left == 0 {
                return Err(VmError::OutOfSteps);
            }
            match self.step() {
                Ok(()) => {},
                Err(e) => {
                    return Err(e);
                },
            }
            left = left - 1;
        }
        if self.sp == 0 {
            Err(VmError::StackUnderflow)
        } else {
            Ok(self.peak())
        }
    }

    pub fn push(&mut self, x: usize)
        requires
            wf(old(self)@),
            has_room(old(self)@),
        ensures
            final(self)@ == pushed(old(self)@, x),
    {
        self.stack.set(self.sp, x);
        self.sp = self.sp + 1;
    }

    pub fn peak(&self) -> (r: usize)
        requires
            wf(self@),
            self@.sp >= 1,
        ensures
            r == top(self@),
    {
        self.stack[self.sp - 1]
    }

    pub fn pop(&mut self) -> (r: usize)
        requires
            wf(old(self)@),
            old(self)@.sp >= 1,
        ensures
            r == top(old(self)@),
            final(self)@ == popped(old(self)@, 1),
    {
        let x = self.peak();
        self.sp = self.sp - 1;
        x
    }

    /// The live slots: those below the stack pointer.
    fn live_stack(&self) -> (r: Vec<usize>)
        requires
            wf(self@),
        ensures
            r@ == self@.stack.take(self@.sp as int),
    {
        let mut out: Vec<usize> = Vec::with_capacity(self.sp);
        let mut k: usize = 0;
        while k < self.sp
            invariant
                wf(self@),
                k <= self@.sp,
                out@ =~= self@.stack.take(k as int),
            decreases self@.sp - k,
        {
            out.push(self.stack[k]);
            k = k + 1;
        }
        out
    }

    /// A one-line trace of the registers and the live stack.
    pub fn debug_state(&self) -> (r: String)
        requires
            wf(self@),
        ensures
            r@ == state_text(self@.pc, self@.fp, self@.stack.take(self@.sp as int)),
    {
        let live = self.live_stack();
        render_state(self.pc, self.fp, &live)
    }

    /// The slot of local `i`, where it lies within the stack.
    fn local_slot(&self, i: usize) -> (r: Option<usize>)
        requires
            wf(self@),
        ensures
            r == (if in_stack(self@, local_addr(self@, i)) {
                Some(local_addr(self@, i) as usize)
            } else {
                None
            }),
    {
        let len = self.stack.len();
        if i >= len || self.fp >= len - i - 1 {
            None
        } else {
            Some(self.fp + i + 1)
        }
    }

    /// The slot of argument `i`, where it lies within the stack.
    fn arg_slot(&self, i: usize) -> (r: Option<usize>)
        requires
            wf(self@),
        ensures
            r == (if in_stack(self@, arg_addr(self@, i)) {
                Some(arg_addr(self@, i) as usize)
            } else {
                None
            }),
    {
        if self.fp < 2 || i > self.fp - 2 {
            None
        } else if self.fp - 2 - i >= self.stack.len() {
            None
        } else {
            Some(self.fp - 2 - i)
        }
    }

    /// Executes the instruction at `pc`. On an error nothing changes.
    pub fn step(&mut self) -> (r: Result<(), VmError>)
        requires
            wf(old(self)@),
        ensures
            wf(final(self)@),
            match next_state(old(self)@) {
                Ok(t) => r == Ok::<(), VmError>(()) && final(self)@ == t,
                Err(e) => r == Err::<(), VmError>(e) && final(self)@ == old(self)@,
            },
    {
        if self.pc >= self.program.len() {
            return Err(VmError::BadProgramCounter);
        }
        let len = self.stack.len();
        let cmd = self.program[self.pc];
        match cmd {
            Cmd::Entry(a) => {
                if self.sp >= len {
                    return Err(VmError::StackOverflow);
                }
                self.push(0);
                self.pc = a;
            },
            Cmd::Frame(n) => {
                if n >= len || self.sp >= len - n {
                    return Err(VmError::StackOverflow);
                }
                let saved = self.fp;
                self.push(saved);
                self.fp = self.sp - 1;
                self.sp = self.sp + n;
                self.pc = self.pc + 1;
            },
            Cmd::Ret => {
                if self.sp == 0 {
                    return Err(VmError::StackUnderflow);
                }
                if self.fp == 0 || self.fp >= len {
                    return Err(VmError::BadStackAddress);
                }
                let res = self.peak();
                let f = self.fp;
                self.sp = f;
                self.pc = self.stack[f - 1];
                self.fp = self.stack[f];
                self.push(res);
            },
            Cmd::Call(a) => {
                if self.sp >= len {
                    return Err(VmError::StackOverflow);
                }
                let ret = self.pc + 1;
                self.push(ret);
                self.pc = a;
            },
            Cmd::LocalLoad(i) => {
                match self.local_slot(i) {
                    None => {
                        return Err(VmError::BadStackAddress);
                    },
                    Some(k) => {
                        if self.sp >= len {
                            return Err(VmError::StackOverflow);
                        }
                        let x = self.stack[k];
                        self.push(x);
                        self.pc = self.pc + 1;
                    },
                }
            },
            Cmd::LocalStore(i) => {
                if self.sp == 0 {
                    return Err(VmError::StackUnderflow);
                }
                match self.local_slot(i) {
                    None => {
                        return Err(VmError::BadStackAddress);
                    },
                    Some(k) => {
                        let x = self.pop();
                        self.stack.set(k, x);
                        self.pc = self.pc + 1;
                    },
                }
            },
            Cmd::ArgLoad(i) => {
                match self.arg_slot(i) {
                    None => {
                        return Err(VmError::BadStackAddress);
                    },
                    Some(k) => {
                        if self.sp >= len {
                            return Err(VmError::StackOverflow);
                        }
                        let x = self.stack[k];
                        self.push(x);
                        self.pc = self.pc + 1;
                    },
                }
            },
            Cmd::ArgStore(i) => {
                if self.sp == 0 {
                    return Err(VmError::StackUnderflow);
                }
                match self.arg_slot(i) {
                    None => {
                        return Err(VmError::BadStackAddress);
                    },
                    Some(k) => {
                        let x = self.pop();
                        self.stack.set(k, x);
                        self.pc = self.pc + 1;
                    },
                }
            },
            Cmd::PopR(n) => {
                if self.sp == 0 || self.sp < n {
                    return Err(VmError::StackUnderflow);
                }
                if self.sp - n >= len {
                    return Err(VmError::StackOverflow);
                }
                let res = self.peak();
                self.sp = self.sp - n;
                self.push(res);
                self.pc = self.pc + 1;
            },
            Cmd::Const(v) => {
                if self.sp >= len {
                    return Err(VmError::StackOverflow);
                }
                self.push(v);
                self.pc = self.pc + 1;
            },
            Cmd::Add => {
                if self.sp < 2 {
                    return Err(VmError::StackUnderflow);
                }
                if self.stack[self.sp - 1] > usize::MAX - self.stack[self.sp - 2] {
                    return Err(VmError::ArithmeticOverflow);
                }
                let x = self.pop();
                let y = self.pop();
                self.push(x + y);
                self.pc = self.pc + 1;
            },
            Cmd::Mod => {
                if self.sp < 2 {
                    return Err(VmError::StackUnderflow);
                }
                if self.stack[self.sp - 2] == 0 {
                    return Err(VmError::DivisionByZero);
                }
                let x = self.pop();
                let y = self.pop();
                self.push(x % y);
                self.pc = self.pc + 1;
            },
            Cmd::Eq => {
                if self.sp < 2 {
                    return Err(VmError::StackUnderflow);
                }
                let x = self.pop();
                let y = self.pop();
                self.push(if x == y { 1 } else { 0 });
                self.pc = self.pc + 1;
            },
            Cmd::JumpIf(a) => {
                if self.sp == 0 {
                    return Err(VmError::StackUnderflow);
                }
                let x = self.pop();
                if x != 0 {
                    self.pc = a;
                } else {
                    self.pc = self.pc + 1;
                }
            },
            Cmd::Jump(a) => {
                self.pc = a;
            },
        }
        Ok(())
    }
}

} // verus!
