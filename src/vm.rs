//! The virtual machine: register file, call frames, globals and the
//! fetch-decode-execute step.
//!
//! One call of [`VM::step`] retires one instruction. Floating-point arithmetic
//! is left to the host: the step that meets `Add`, `Sub`, `Mult` or `Div` on two
//! numbers reports the operands, and the host writes the result back with
//! [`VM::set_number`] before stepping again. Printing is left to the host in the
//! same way.
use vstd::prelude::*;

use crate::number::{num_lt, number_lt};
use crate::opcode::{opcode_of, ArithOp, OpCode};
use crate::value::{
    assoc_put, entries_view, find_key, items_view, keys_unique, lemma_assoc_put_unique,
    lemma_entries_view, lemma_items_view, lookup, truthy, val_equal, Val, VMValue,
};

verus! {

/// The number of slots in the register file.
pub const REGISTER_COUNT: usize = 4096;

/// What a call saves: where to resume, the caller's base, and the absolute
/// register that receives the return value.
#[derive(Debug, Clone, Copy, PartialEq, Eq, Structural)]
pub struct CallFrame {
    pub ip: usize,
    pub base_reg: usize,
    pub return_reg: usize,
}

/// A fatal condition; `at` is the offset of the instruction's opcode byte.
#[derive(Debug, Clone, Copy, PartialEq, Eq, Structural)]
pub enum Fault {
    UnknownOpcode { at: usize, opcode: u8 },
    Truncated { at: usize },
    RegisterOutOfRange { at: usize },
    ConstantOutOfRange { at: usize },
    NotAFunction { at: usize, reg: usize },
    ArityMismatch { at: usize, expected: u8, got: u8 },
}

/// Why a run stopped.
#[derive(Debug, Clone, Copy, PartialEq, Eq, Structural)]
pub enum Exit {
    /// A `Halt` instruction.
    Halted,
    /// A `Return` with no frame to return to; the value is in register `reg`.
    Returned { reg: usize },
    /// The instruction pointer reached the end of the code.
    EndOfStream,
    Fault(Fault),
}

/// The outcome of one step.
#[derive(Debug, Clone, Copy, PartialEq, Eq, Structural)]
pub enum Step {
    /// The instruction retired; nothing is asked of the host.
    Continue,
    /// The instruction retired; the host renders the value in register `reg`.
    Print { reg: usize },
    /// The instruction retired; the host computes `lhs op rhs` in binary64 and
    /// stores the result in register `dest`.
    Arith { op: ArithOp, dest: usize, lhs: u64, rhs: u64 },
    /// The run is over. Stepping again gives the same outcome.
    Done(Exit),
}

/// The mathematical state of a machine.
pub struct VmState {
    pub regs: Seq<Val>,
    pub globals: Seq<(Seq<char>, Val)>,
    pub consts: Seq<Val>,
    pub frames: Seq<CallFrame>,
    pub ip: int,
    pub base: int,
}

/// The state's invariant: a full register file, a base inside it, frames
/// whose return registers lie inside it, and a global table that binds each
/// name once.
pub open spec fn state_ok(s: VmState) -> bool {
    &&& s.regs.len() == REGISTER_COUNT
    &&& keys_unique(s.globals)
    &&& 0 <= s.base <= REGISTER_COUNT
    &&& 0 <= s.ip <= usize::MAX
    &&& forall|i: int|
        0 <= i < s.frames.len() ==> #[trigger] s.frames[i].return_reg < REGISTER_COUNT
            && s.frames[i].base_reg <= REGISTER_COUNT
}

/// Operand byte `k` of the instruction at `s.ip`.
pub open spec fn operand(s: VmState, code: Seq<u8>, k: int) -> int {
    code[s.ip + 1 + k] as int
}

/// The absolute register that operand `k` names.
pub open spec fn reg(s: VmState, code: Seq<u8>, k: int) -> int {
    s.base + operand(s, code, k)
}

pub open spec fn registers_in_range(s: VmState, code: Seq<u8>, op: OpCode) -> bool {
    forall|k: int| op.is_register_operand(k) ==> reg(s, code, k) < REGISTER_COUNT
}

pub open spec fn constant_in_range(s: VmState, code: Seq<u8>, op: OpCode) -> bool {
    match op.constant_operand() {
        Some(k) => operand(s, code, k as int) < s.consts.len(),
        None => true,
    }
}

/// The state with the instruction pointer past the current instruction.
pub open spec fn advanced(s: VmState, op: OpCode) -> VmState {
    VmState { ip: s.ip + 1 + op.operand_len(), ..s }
}

pub open spec fn with_reg(s: VmState, r: int, v: Val) -> VmState {
    VmState { regs: s.regs.update(r, v), ..s }
}

pub open spec fn arith_of(op: OpCode) -> ArithOp {
    match op {
        OpCode::Sub => ArithOp::Sub,
        OpCode::Mult => ArithOp::Mult,
        OpCode::Div => ArithOp::Div,
        _ => ArithOp::Add,
    }
}

/// What `GetProp` reads: the property's value, or nil when the key is absent
/// or the value is not an object.
pub open spec fn prop_of(obj: Val, k: Seq<char>) -> Val {
    match obj {
        Val::Object(e) => match lookup(e, k) {
            Some(v) => v,
            None => Val::Nil,
        },
        _ => Val::Nil,
    }
}

/// The value bound to `k` in an association list, or nil.
pub open spec fn bound_or_nil(e: Seq<(Seq<char>, Val)>, k: Seq<char>) -> Val {
    match lookup(e, k) {
        Some(v) => v,
        None => Val::Nil,
    }
}

/// The effect of a decoded instruction whose operands are all present and in range.
pub open spec fn execute(s: VmState, code: Seq<u8>, op: OpCode) -> (VmState, Step) {
    let n = advanced(s, op);
    let at = s.ip as usize;
    let r0 = reg(s, code, 0);
    let r1 = reg(s, code, 1);
    let r2 = reg(s, code, 2);
    match op {
        OpCode::LoadConst => (with_reg(n, r0, s.consts[operand(s, code, 1)]), Step::Continue),
        OpCode::Add | OpCode::Sub | OpCode::Mult | OpCode::Div => match (s.regs[r1], s.regs[r2]) {
            (Val::Number(x), Val::Number(y)) => (
                n,
                Step::Arith { op: arith_of(op), dest: r0 as usize, lhs: x, rhs: y },
            ),
            _ => (n, Step::Continue),
        },
        OpCode::Print => (n, Step::Print { reg: r0 as usize }),
        OpCode::Jump => (VmState { ip: operand(s, code, 0), ..s }, Step::Continue),
        OpCode::JumpIfFalse => if truthy(s.regs[r0]) {
            (n, Step::Continue)
        } else {
            (VmState { ip: operand(s, code, 1), ..s }, Step::Continue)
        },
        OpCode::Equal => (
            with_reg(n, r0, Val::Bool(val_equal(s.regs[r1], s.regs[r2]))),
            Step::Continue,
        ),
        OpCode::Greater => match (s.regs[r1], s.regs[r2]) {
            (Val::Number(x), Val::Number(y)) => (
                with_reg(n, r0, Val::Bool(num_lt(y, x))),
                Step::Continue,
            ),
            _ => (n, Step::Continue),
        },
        OpCode::Less => match (s.regs[r1], s.regs[r2]) {
            (Val::Number(x), Val::Number(y)) => (
                with_reg(n, r0, Val::Bool(num_lt(x, y))),
                Step::Continue,
            ),
            _ => (n, Step::Continue),
        },
        OpCode::Move => (with_reg(n, r0, s.regs[r1]), Step::Continue),
        OpCode::CreateObj => (with_reg(n, r0, Val::Object(Seq::empty())), Step::Continue),
        OpCode::SetProp => match (s.consts[operand(s, code, 1)], s.regs[r0]) {
            (Val::Str(k), Val::Object(e)) => (
                with_reg(n, r0, Val::Object(assoc_put(e, k, s.regs[r2]))),
                Step::Continue,
            ),
            _ => (n, Step::Continue),
        },
        OpCode::GetProp => match s.consts[operand(s, code, 2)] {
            Val::Str(k) => (with_reg(n, r0, prop_of(s.regs[r1], k)), Step::Continue),
            _ => (n, Step::Continue),
        },
        OpCode::CreateArr => (with_reg(n, r0, Val::Array(Seq::empty())), Step::Continue),
        OpCode::PushArr => match s.regs[r0] {
            Val::Array(x) => (with_reg(n, r0, Val::Array(x.push(s.regs[r1]))), Step::Continue),
            _ => (n, Step::Continue),
        },
        OpCode::Call => match s.regs[r1] {
            Val::Function { entry, arity } => if arity as int != operand(s, code, 2) {
                (
                    s,
                    Step::Done(
                        Exit::Fault(
                            Fault::ArityMismatch {
                                at,
                                expected: arity,
                                got: operand(s, code, 2) as u8,
                            },
                        ),
                    ),
                )
            } else {
                (
                    VmState {
                        frames: s.frames.push(
                            CallFrame {
                                ip: (s.ip + 4) as usize,
                                base_reg: s.base as usize,
                                return_reg: r0 as usize,
                            },
                        ),
                        base: r1 + 1,
                        ip: entry as int,
                        ..s
                    },
                    Step::Continue,
                )
            },
            _ => (s, Step::Done(Exit::Fault(Fault::NotAFunction { at, reg: r1 as usize }))),
        },
        OpCode::Return => if s.frames.len() == 0 {
            (s, Step::Done(Exit::Returned { reg: r0 as usize }))
        } else {
            let f = s.frames.last();
            (
                VmState {
                    regs: s.regs.update(f.return_reg as int, s.regs[r0]),
                    frames: s.frames.drop_last(),
                    ip: f.ip as int,
                    base: f.base_reg as int,
                    ..s
                },
                Step::Continue,
            )
        },
        OpCode::LoadGlobal => match s.consts[operand(s, code, 1)] {
            Val::Str(k) => (with_reg(n, r0, bound_or_nil(s.globals, k)), Step::Continue),
            _ => (n, Step::Continue),
        },
        OpCode::StoreGlobal => match s.consts[operand(s, code, 0)] {
            Val::Str(k) => (
                VmState { globals: assoc_put(s.globals, k, s.regs[r1]), ..n },
                Step::Continue,
            ),
            _ => (n, Step::Continue),
        },
        OpCode::Halt => (s, Step::Done(Exit::Halted)),
    }
}

/// One step of the machine: the next state and what the host is told.
pub open spec fn next(s: VmState, code: Seq<u8>) -> (VmState, Step) {
    let at = s.ip as usize;
    if s.ip >= code.len() {
        (s, Step::Done(Exit::EndOfStream))
    } else {
        match opcode_of(code[s.ip]) {
            None => (s, Step::Done(Exit::Fault(Fault::UnknownOpcode { at, opcode: code[s.ip] }))),
            Some(op) => if s.ip + 1 + op.operand_len() > code.len() {
                (s, Step::Done(Exit::Fault(Fault::Truncated { at })))
            } else if !registers_in_range(s, code, op) {
                (s, Step::Done(Exit::Fault(Fault::RegisterOutOfRange { at })))
            } else if !constant_in_range(s, code, op) {
                (s, Step::Done(Exit::Fault(Fault::ConstantOutOfRange { at })))
            } else {
                execute(s, code, op)
            },
        }
    }
}

/// Up to `fuel` steps, stopping at the first that is not `Continue`.
pub open spec fn run_steps(s: VmState, code: Seq<u8>, fuel: nat) -> (VmState, Step)
    decreases fuel,
{
    if fuel == 0 {
        (s, Step::Continue)
    } else {
        let (t, r) = next(s, code);
        if r == Step::Continue {
            run_steps(t, code, (fuel - 1) as nat)
        } else {
            (t, r)
        }
    }
}

/// A machine: its register file, global table, constant pool and call stack.
pub struct VM {
    registers: Vec<VMValue>,
    globals: Vec<(String, VMValue)>,
    constants: Vec<VMValue>,
    frames: Vec<CallFrame>,
    ip: usize,
    base_reg: usize,
}

impl View for VM {
    type V = VmState;

    closed spec fn view(&self) -> VmState {
        VmState {
            regs: self.registers@.map_values(|v: VMValue| v@),
            globals: entries_view(self.globals@),
            consts: self.constants@.map_values(|v: VMValue| v@),
            frames: self.frames@,
            ip: self.ip as int,
            base: self.base_reg as int,
        }
    }
}

proof fn lemma_entries_update(e: Seq<(String, VMValue)>, i: int, kv: (String, VMValue))
    requires
        0 <= i < e.len(),
    ensures
        entries_view(e.update(i, kv)) == entries_view(e).update(i, (kv.0@, kv.1@)),
{
    lemma_entries_view(e);
    lemma_entries_view(e.update(i, kv));
    assert(entries_view(e.update(i, kv)) =~= entries_view(e).update(i, (kv.0@, kv.1@)));
}

proof fn lemma_entries_push(e: Seq<(String, VMValue)>, kv: (String, VMValue))
    ensures
        entries_view(e.push(kv)) == entries_view(e).push((kv.0@, kv.1@)),
{
    assert(e.push(kv).subrange(0, e.len() as int) =~= e);
}

proof fn lemma_items_push(x: Seq<VMValue>, v: VMValue)
    ensures
        items_view(x.push(v)) == items_view(x).push(v@),
{
    assert(x.push(v).subrange(0, x.len() as int) =~= x);
}

/// The instruction at `s.ip` decodes to `op` and passes every check.
spec fn ready(s: VmState, code: Seq<u8>, op: OpCode) -> bool {
    &&& state_ok(s)
    &&& 0 <= s.ip < code.len()
    &&& opcode_of(code[s.ip]) == Some(op)
    &&& s.ip + 1 + op.operand_len() <= code.len()
    &&& registers_in_range(s, code, op)
    &&& constant_in_range(s, code, op)
}

proof fn lemma_ready(s: VmState, code: Seq<u8>, op: OpCode)
    requires
        ready(s, code, op),
    ensures
        op.is_register_operand(0) ==> reg(s, code, 0) < REGISTER_COUNT,
        op.is_register_operand(1) ==> reg(s, code, 1) < REGISTER_COUNT,
        op.is_register_operand(2) ==> reg(s, code, 2) < REGISTER_COUNT,
        next(s, code) == execute(s, code, op),
{
}

impl VM {
    /// The machine's invariant.
    pub open spec fn inv(&self) -> bool {
        state_ok(self@)
    }

    /// A machine with every register nil, no constants, no globals and no frames.
    pub fn new() -> (r: VM)
        ensures
            r.inv(),
            r@.regs == Seq::new(REGISTER_COUNT as nat, |i: int| Val::Nil),
            r@.globals.len() == 0,
            r@.consts.len() == 0,
            r@.frames.len() == 0,
            r@.ip == 0,
            r@.base == 0,
    {
        let mut registers: Vec<VMValue> = Vec::new();
        let mut i: usize = 0;
        while i < REGISTER_COUNT
            invariant
                i <= REGISTER_COUNT,
                registers@.len() == i,
                forall|j: int| 0 <= j < i ==> registers@[j] == VMValue::Nil,
            decreases REGISTER_COUNT - i,
        {
            registers.push(VMValue::Nil);
            i += 1;
        }
        let r = VM {
            registers,
            globals: Vec::new(),
            constants: Vec::new(),
            frames: Vec::new(),
            ip: 0,
            base_reg: 0,
        };
        proof {
            lemma_entries_view(r.globals@);
            assert(r@.regs =~= Seq::new(REGISTER_COUNT as nat, |i: int| Val::Nil));
        }
        r
    }

    /// Installs a constant pool and puts the instruction pointer and the base
    /// register back to zero. Registers, globals and frames are kept.
    pub fn load(&mut self, constants: Vec<VMValue>)
        requires
            old(self).inv(),
        ensures
            final(self).inv(),
            final(self)@ == (VmState {
                consts: constants@.map_values(|v: VMValue| v@),
                ip: 0,
                base: 0,
                ..old(self)@
            }),
    {
        self.constants = constants;
        self.ip = 0;
        self.base_reg = 0;
    }

    fn put(&mut self, r: usize, v: VMValue)
        requires
            old(self).inv(),
            r < REGISTER_COUNT,
        ensures
            final(self).inv(),
            final(self)@ == with_reg(old(self)@, r as int, v@),
    {
        let ghost v_view = v@;
        self.registers.set(r, v);
        assert(self@.regs =~= old(self)@.regs.update(r as int, v_view));
        assert(self@.frames == old(self)@.frames);
        assert(self@ == with_reg(old(self)@, r as int, v_view));
    }

    /// Stores a number (a binary64 bit pattern) in register `dest`: how the
    /// host hands back the result of an arithmetic step.
    pub fn set_number(&mut self, dest: usize, bits: u64)
        requires
            old(self).inv(),
            dest < REGISTER_COUNT,
        ensures
            final(self).inv(),
            final(self)@ == with_reg(old(self)@, dest as int, Val::Number(bits)),
    {
        self.put(dest, VMValue::Number(bits));
    }

    fn registers_ok(&self, code: &[u8], op: OpCode) -> (r: bool)
        requires
            self.inv(),
            self@.ip + 1 + op.operand_len() <= code@.len(),
        ensures
            r == registers_in_range(self@, code@, op),
    {
        let _len = code.len();
        let n = op.operand_count();
        let mut k: usize = 0;
        while k < n
            invariant
                self.inv(),
                _len == code@.len(),
                n == op.operand_len(),
                k <= n,
                self@.ip + 1 + n <= code@.len(),
                forall|j: int| 0 <= j < k && op.is_register_operand(j) ==> reg(self@, code@, j) < REGISTER_COUNT,
            decreases n - k,
        {
            if op.register_operand(k) && self.base_reg + code[self.ip + 1 + k] as usize >= REGISTER_COUNT {
                return false;
            }
            k += 1;
        }
        true
    }

    fn constant_ok(&self, code: &[u8], op: OpCode) -> (r: bool)
        requires
            self.inv(),
            self@.ip + 1 + op.operand_len() <= code@.len(),
        ensures
            r == constant_in_range(self@, code@, op),
    {
        let _len = code.len();
        match op.constant_index_operand() {
            Some(k) => (code[self.ip + 1 + k] as usize) < self.constants.len(),
            None => true,
        }
    }

    /// Executes the instruction at the instruction pointer.
    pub fn step(&mut self, code: &[u8]) -> (r: Step)
        requires
            old(self).inv(),
        ensures
            final(self).inv(),
            (final(self)@, r) == next(old(self)@, code@),
    {
        let ghost s = self@;
        let ip = self.ip;
        if ip >= code.len() {
            return Step::Done(Exit::EndOfStream);
        }
        let byte = code[ip];
        let op = match OpCode::from_byte(byte) {
            Some(op) => op,
            None => {
                return Step::Done(Exit::Fault(Fault::UnknownOpcode { at: ip, opcode: byte }));
            },
        };
        if op.operand_count() >= code.len() - ip {
            return Step::Done(Exit::Fault(Fault::Truncated { at: ip }));
        }
        if !self.registers_ok(code, op) {
            return Step::Done(Exit::Fault(Fault::RegisterOutOfRange { at: ip }));
        }
        if !self.constant_ok(code, op) {
            return Step::Done(Exit::Fault(Fault::ConstantOutOfRange { at: ip }));
        }
        match op {
            OpCode::LoadConst => self.exec_load_const(code, op),
            OpCode::Add | OpCode::Sub | OpCode::Mult | OpCode::Div => self.exec_arith(code, op),
            OpCode::Print => self.exec_print(code, op),
            OpCode::Jump => self.exec_jump(code, op),
            OpCode::JumpIfFalse => self.exec_jump_if_false(code, op),
            OpCode::Equal => self.exec_equal(code, op),
            OpCode::Greater | OpCode::Less => self.exec_compare(code, op),
            OpCode::Move => self.exec_move_value(code, op),
            OpCode::CreateObj => self.exec_create_obj(code, op),
            OpCode::CreateArr => self.exec_create_arr(code, op),
            OpCode::SetProp => self.exec_set_prop(code, op),
            OpCode::GetProp => self.exec_get_prop(code, op),
            OpCode::PushArr => self.exec_push_arr(code, op),
            OpCode::Call => self.exec_call(code, op),
            OpCode::Return => self.exec_ret(code, op),
            OpCode::LoadGlobal => self.exec_load_global(code, op),
            OpCode::StoreGlobal => self.exec_store_global(code, op),
            OpCode::Halt => Step::Done(Exit::Halted),
        }
    }

    /// Steps until a step asks something of the host or ends the run, or
    /// until `fuel` instructions have retired (then the result is `Continue`).
    pub fn run(&mut self, code: &[u8], fuel: u64) -> (r: Step)
        requires
            old(self).inv(),
        ensures
            final(self).inv(),
            (final(self)@, r) == run_steps(old(self)@, code@, fuel as nat),
    {
        let ghost s0 = self@;
        let mut left = fuel;
        while left > 0
            invariant
                self.inv(),
                s0 == old(self)@,
                run_steps(self@, code@, left as nat) == run_steps(s0, code@, fuel as nat),
            decreases left,
        {
            let ghost before = self@;
            let r = self.step(code);
            if r != Step::Continue {
                assert(run_steps(before, code@, left as nat) == (self@, r));
                return r;
            }
            left -= 1;
        }
        Step::Continue
    }

    fn exec_load_const(&mut self, code: &[u8], op: OpCode) -> (r: Step)
        requires
            ready(old(self)@, code@, op),
            op == OpCode::LoadConst,
        ensures
            final(self).inv(),
            (final(self)@, r) == execute(old(self)@, code@, op),
    {
        let ghost s = self@;
        proof {
            lemma_ready(s, code@, op);
        }
        let _len = code.len();
        let ip = self.ip;
        let base = self.base_reg;
        let next_ip = ip + 1 + op.operand_count();
        let r0 = base + code[ip + 1] as usize;
        let v = self.constants[code[ip + 2] as usize].deep_clone();
        self.put(r0, v);
        self.ip = next_ip;
        Step::Continue
    }

    fn exec_arith(&mut self, code: &[u8], op: OpCode) -> (r: Step)
        requires
            ready(old(self)@, code@, op),
            op == OpCode::Add || op == OpCode::Sub || op == OpCode::Mult || op == OpCode::Div,
        ensures
            final(self).inv(),
            (final(self)@, r) == execute(old(self)@, code@, op),
    {
        let ghost s = self@;
        proof {
            lemma_ready(s, code@, op);
        }
        let _len = code.len();
        let ip = self.ip;
        let base = self.base_reg;
        let next_ip = ip + 1 + op.operand_count();
        let r0 = base + code[ip + 1] as usize;
        let r1 = base + code[ip + 2] as usize;
        let r2 = base + code[ip + 3] as usize;
        self.ip = next_ip;
        match (&self.registers[r1], &self.registers[r2]) {
            (VMValue::Number(x), VMValue::Number(y)) => {
                let aop = match op {
                    OpCode::Sub => ArithOp::Sub,
                    OpCode::Mult => ArithOp::Mult,
                    OpCode::Div => ArithOp::Div,
                    _ => ArithOp::Add,
                };
                Step::Arith { op: aop, dest: r0, lhs: *x, rhs: *y }
            },
            _ => Step::Continue,
        }
    }

    fn exec_print(&mut self, code: &[u8], op: OpCode) -> (r: Step)
        requires
            ready(old(self)@, code@, op),
            op == OpCode::Print,
        ensures
            final(self).inv(),
            (final(self)@, r) == execute(old(self)@, code@, op),
    {
        let ghost s = self@;
        proof {
            lemma_ready(s, code@, op);
        }
        let _len = code.len();
        let ip = self.ip;
        let base = self.base_reg;
        let next_ip = ip + 1 + op.operand_count();
        let r0 = base + code[ip + 1] as usize;
        self.ip = next_ip;
        Step::Print { reg: r0 }
    }

    fn exec_jump(&mut self, code: &[u8], op: OpCode) -> (r: Step)
        requires
            ready(old(self)@, code@, op),
            op == OpCode::Jump,
        ensures
            final(self).inv(),
            (final(self)@, r) == execute(old(self)@, code@, op),
    {
        let ghost s = self@;
        proof {
            lemma_ready(s, code@, op);
        }
        let _len = code.len();
        let ip = self.ip;
        let base = self.base_reg;
        let next_ip = ip + 1 + op.operand_count();
        self.ip = code[ip + 1] as usize;
        Step::Continue
    }

    fn exec_jump_if_false(&mut self, code: &[u8], op: OpCode) -> (r: Step)
        requires
            ready(old(self)@, code@, op),
            op == OpCode::JumpIfFalse,
        ensures
            final(self).inv(),
            (final(self)@, r) == execute(old(self)@, code@, op),
    {
        let ghost s = self@;
        proof {
            lemma_ready(s, code@, op);
        }
        let _len = code.len();
        let ip = self.ip;
        let base = self.base_reg;
        let next_ip = ip + 1 + op.operand_count();
        let r0 = base + code[ip + 1] as usize;
        if self.registers[r0].is_truthy() {
            self.ip = next_ip;
        } else {
            self.ip = code[ip + 2] as usize;
        }
        Step::Continue
    }

    fn exec_equal(&mut self, code: &[u8], op: OpCode) -> (r: Step)
        requires
            ready(old(self)@, code@, op),
            op == OpCode::Equal,
        ensures
            final(self).inv(),
            (final(self)@, r) == execute(old(self)@, code@, op),
    {
        let ghost s = self@;
        proof {
            lemma_ready(s, code@, op);
        }
        let _len = code.len();
        let ip = self.ip;
        let base = self.base_reg;
        let next_ip = ip + 1 + op.operand_count();
        let r0 = base + code[ip + 1] as usize;
        let r1 = base + code[ip + 2] as usize;
        let r2 = base + code[ip + 3] as usize;
        let eq = self.registers[r1].equals(&self.registers[r2]);
        self.put(r0, VMValue::Bool(eq));
        self.ip = next_ip;
        Step::Continue
    }

    fn exec_compare(&mut self, code: &[u8], op: OpCode) -> (r: Step)
        requires
            ready(old(self)@, code@, op),
            op == OpCode::Greater || op == OpCode::Less,
        ensures
            final(self).inv(),
            (final(self)@, r) == execute(old(self)@, code@, op),
    {
        let ghost s = self@;
        proof {
            lemma_ready(s, code@, op);
        }
        let _len = code.len();
        let ip = self.ip;
        let base = self.base_reg;
        let next_ip = ip + 1 + op.operand_count();
        let r0 = base + code[ip + 1] as usize;
        let r1 = base + code[ip + 2] as usize;
        let r2 = base + code[ip + 3] as usize;
        let cmp = match (&self.registers[r1], &self.registers[r2]) {
            (VMValue::Number(x), VMValue::Number(y)) => {
                if op == OpCode::Greater {
                    Some(number_lt(*y, *x))
                } else {
                    Some(number_lt(*x, *y))
                }
            },
            _ => None,
        };
        if let Some(b) = cmp {
            self.put(r0, VMValue::Bool(b));
        }
        self.ip = next_ip;
        Step::Continue
    }

    fn exec_move_value(&mut self, code: &[u8], op: OpCode) -> (r: Step)
        requires
            ready(old(self)@, code@, op),
            op == OpCode::Move,
        ensures
            final(self).inv(),
            (final(self)@, r) == execute(old(self)@, code@, op),
    {
        let ghost s = self@;
        proof {
            lemma_ready(s, code@, op);
        }
        let _len = code.len();
        let ip = self.ip;
        let base = self.base_reg;
        let next_ip = ip + 1 + op.operand_count();
        let r0 = base + code[ip + 1] as usize;
        let r1 = base + code[ip + 2] as usize;
        let v = self.registers[r1].deep_clone();
        self.put(r0, v);
        self.ip = next_ip;
        Step::Continue
    }

    fn exec_create_obj(&mut self, code: &[u8], op: OpCode) -> (r: Step)
        requires
            ready(old(self)@, code@, op),
            op == OpCode::CreateObj,
        ensures
            final(self).inv(),
            (final(self)@, r) == execute(old(self)@, code@, op),
    {
        let ghost s = self@;
        proof {
            lemma_ready(s, code@, op);
        }
        let _len = code.len();
        let ip = self.ip;
        let base = self.base_reg;
        let next_ip = ip + 1 + op.operand_count();
        let r0 = base + code[ip + 1] as usize;
        proof {
            lemma_entries_view(Seq::<(String, VMValue)>::empty());
        }
        self.put(r0, VMValue::Object(Vec::new()));
        self.ip = next_ip;
        Step::Continue
    }

    fn exec_create_arr(&mut self, code: &[u8], op: OpCode) -> (r: Step)
        requires
            ready(old(self)@, code@, op),
            op == OpCode::CreateArr,
        ensures
            final(self).inv(),
            (final(self)@, r) == execute(old(self)@, code@, op),
    {
        let ghost s = self@;
        proof {
            lemma_ready(s, code@, op);
        }
        let _len = code.len();
        let ip = self.ip;
        let base = self.base_reg;
        let next_ip = ip + 1 + op.operand_count();
        let r0 = base + code[ip + 1] as usize;
        proof {
            lemma_items_view(Seq::<VMValue>::empty());
        }
        self.put(r0, VMValue::Array(Vec::new()));
        self.ip = next_ip;
        Step::Continue
    }

    fn exec_set_prop(&mut self, code: &[u8], op: OpCode) -> (r: Step)
        requires
            ready(old(self)@, code@, op),
            op == OpCode::SetProp,
        ensures
            final(self).inv(),
            (final(self)@, r) == execute(old(self)@, code@, op),
    {
        let ghost s = self@;
        proof {
            lemma_ready(s, code@, op);
        }
        let _len = code.len();
        let ip = self.ip;
        let base = self.base_reg;
        let next_ip = ip + 1 + op.operand_count();
        let r0 = base + code[ip + 1] as usize;
        let r2 = base + code[ip + 3] as usize;
        let ki = code[ip + 2] as usize;
        assert(s.consts[ki as int] == self.constants@[ki as int]@);
        let key = match &self.constants[ki] {
            VMValue::String(k) => Some(k.clone()),
            _ => None,
        };
        if let Some(key) = key {
            assert(s.consts[ki as int] == Val::Str(key@));
            assert(s.regs[r2 as int] == self.registers@[r2 as int]@);
            assert(s.regs[r0 as int] == self.registers@[r0 as int]@);
            let val = self.registers[r2].deep_clone();
            let mut cur = VMValue::Nil;
            self.registers.set_and_swap(r0, &mut cur);
            assert(s.regs[r0 as int] == cur@);
            match cur {
                VMValue::Object(mut e) => {
                    assert(s.regs[r0 as int] == Val::Object(entries_view(e@)));
                    let ghost ev = entries_view(e@);
                    let ghost kv = key@;
                    let ghost vv = val@;
                    match find_key(&e, &key) {
                        Some(i) => {
                            proof {
                                lemma_entries_view(e@);
                                lemma_entries_update(e@, i as int, (key, val));
                            }
                            e.set(i, (key, val));
                        },
                        None => {
                            proof {
                                lemma_entries_push(e@, (key, val));
                            }
                            e.push((key, val));
                        },
                    }
                    assert(entries_view(e@) == assoc_put(ev, kv, vv));
                    let ghost obj = VMValue::Object(e);
                    assert(obj@ == Val::Object(assoc_put(ev, kv, vv)));
                    self.registers.set(r0, VMValue::Object(e));
                    assert(self@.regs =~= s.regs.update(r0 as int, Val::Object(assoc_put(ev, kv, vv))));
                },
                other => {
                    assert(!(s.regs[r0 as int] is Object));
                    self.registers.set(r0, other);
                    assert(self@.regs =~= s.regs);
                },
            }
        } else {
            assert(!(s.consts[ki as int] is Str));
        }
        self.ip = next_ip;
        Step::Continue
    }

    fn exec_get_prop(&mut self, code: &[u8], op: OpCode) -> (r: Step)
        requires
            ready(old(self)@, code@, op),
            op == OpCode::GetProp,
        ensures
            final(self).inv(),
            (final(self)@, r) == execute(old(self)@, code@, op),
    {
        let ghost s = self@;
        proof {
            lemma_ready(s, code@, op);
        }
        let _len = code.len();
        let ip = self.ip;
        let base = self.base_reg;
        let next_ip = ip + 1 + op.operand_count();
        let r0 = base + code[ip + 1] as usize;
        let r1 = base + code[ip + 2] as usize;
        let got = match &self.constants[code[ip + 3] as usize] {
            VMValue::String(key) => {
                let v = match &self.registers[r1] {
                    VMValue::Object(e) => {
                        proof {
                            lemma_entries_view(e@);
                        }
                        match find_key(e, key) {
                            Some(i) => e[i].1.deep_clone(),
                            None => VMValue::Nil,
                        }
                    },
                    _ => VMValue::Nil,
                };
                Some(v)
            },
            _ => None,
        };
        if let Some(v) = got {
            self.put(r0, v);
        }
        self.ip = next_ip;
        Step::Continue
    }

    fn exec_push_arr(&mut self, code: &[u8], op: OpCode) -> (r: Step)
        requires
            ready(old(self)@, code@, op),
            op == OpCode::PushArr,
        ensures
            final(self).inv(),
            (final(self)@, r) == execute(old(self)@, code@, op),
    {
        let ghost s = self@;
        proof {
            lemma_ready(s, code@, op);
        }
        let _len = code.len();
        let ip = self.ip;
        let base = self.base_reg;
        let next_ip = ip + 1 + op.operand_count();
        let r0 = base + code[ip + 1] as usize;
        let r1 = base + code[ip + 2] as usize;
        assert(s.regs[r1 as int] == self.registers@[r1 as int]@);
        assert(s.regs[r0 as int] == self.registers@[r0 as int]@);
        let val = self.registers[r1].deep_clone();
        let mut cur = VMValue::Nil;
        self.registers.set_and_swap(r0, &mut cur);
        assert(s.regs[r0 as int] == cur@);
        match cur {
            VMValue::Array(mut x) => {
                assert(s.regs[r0 as int] == Val::Array(items_view(x@)));
                let ghost pushed = items_view(x@).push(val@);
                proof {
                    lemma_items_push(x@, val);
                }
                x.push(val);
                let ghost arr = VMValue::Array(x);
                assert(arr@ == Val::Array(pushed));
                self.registers.set(r0, VMValue::Array(x));
                assert(self@.regs =~= s.regs.update(r0 as int, Val::Array(pushed)));
            },
            other => {
                assert(!(s.regs[r0 as int] is Array));
                self.registers.set(r0, other);
                assert(self@.regs =~= s.regs);
            },
        }
        self.ip = next_ip;
        Step::Continue
    }

    fn exec_call(&mut self, code: &[u8], op: OpCode) -> (r: Step)
        requires
            ready(old(self)@, code@, op),
            op == OpCode::Call,
        ensures
            final(self).inv(),
            (final(self)@, r) == execute(old(self)@, code@, op),
    {
        let ghost s = self@;
        proof {
            lemma_ready(s, code@, op);
        }
        let _len = code.len();
        let ip = self.ip;
        let base = self.base_reg;
        let next_ip = ip + 1 + op.operand_count();
        let r0 = base + code[ip + 1] as usize;
        let r1 = base + code[ip + 2] as usize;
        let argc = code[ip + 3];
        match &self.registers[r1] {
            VMValue::Function { bytecode_idx, arity } => {
                if *arity != argc {
                    return Step::Done(
                        Exit::Fault(
                            Fault::ArityMismatch { at: ip, expected: *arity, got: argc },
                        ),
                    );
                }
                let entry = *bytecode_idx;
                self.frames.push(CallFrame { ip: next_ip, base_reg: base, return_reg: r0 });
                self.base_reg = r1 + 1;
                self.ip = entry;
                Step::Continue
            },
            _ => Step::Done(Exit::Fault(Fault::NotAFunction { at: ip, reg: r1 })),
        }
    }

    fn exec_ret(&mut self, code: &[u8], op: OpCode) -> (r: Step)
        requires
            ready(old(self)@, code@, op),
            op == OpCode::Return,
        ensures
            final(self).inv(),
            (final(self)@, r) == execute(old(self)@, code@, op),
    {
        let ghost s = self@;
        proof {
            lemma_ready(s, code@, op);
        }
        let _len = code.len();
        let ip = self.ip;
        let base = self.base_reg;
        let next_ip = ip + 1 + op.operand_count();
        let r0 = base + code[ip + 1] as usize;
        if self.frames.len() == 0 {
            return Step::Done(Exit::Returned { reg: r0 });
        }
        let val = self.registers[r0].deep_clone();
        let f = self.frames.pop().unwrap();
        self.put(f.return_reg, val);
        self.ip = f.ip;
        self.base_reg = f.base_reg;
        Step::Continue
    }

    fn exec_load_global(&mut self, code: &[u8], op: OpCode) -> (r: Step)
        requires
            ready(old(self)@, code@, op),
            op == OpCode::LoadGlobal,
        ensures
            final(self).inv(),
            (final(self)@, r) == execute(old(self)@, code@, op),
    {
        let ghost s = self@;
        proof {
            lemma_ready(s, code@, op);
        }
        let _len = code.len();
        let ip = self.ip;
        let base = self.base_reg;
        let next_ip = ip + 1 + op.operand_count();
        let r0 = base + code[ip + 1] as usize;
        let got = match &self.constants[code[ip + 2] as usize] {
            VMValue::String(name) => {
                proof {
                    lemma_entries_view(self.globals@);
                }
                match find_key(&self.globals, name) {
                    Some(i) => Some(self.globals[i].1.deep_clone()),
                    None => Some(VMValue::Nil),
                }
            },
            _ => None,
        };
        if let Some(v) = got {
            self.put(r0, v);
        }
        self.ip = next_ip;
        Step::Continue
    }

    fn exec_store_global(&mut self, code: &[u8], op: OpCode) -> (r: Step)
        requires
            ready(old(self)@, code@, op),
            op == OpCode::StoreGlobal,
        ensures
            final(self).inv(),
            (final(self)@, r) == execute(old(self)@, code@, op),
    {
        let ghost s = self@;
        proof {
            lemma_ready(s, code@, op);
        }
        let _len = code.len();
        let ip = self.ip;
        let base = self.base_reg;
        let next_ip = ip + 1 + op.operand_count();
        let r1 = base + code[ip + 2] as usize;
        let name = match &self.constants[code[ip + 1] as usize] {
            VMValue::String(k) => Some(k.clone()),
            _ => None,
        };
        if let Some(name) = name {
            let val = self.registers[r1].deep_clone();
            let ghost kv = name@;
            let ghost vv = val@;
            match find_key(&self.globals, &name) {
                Some(i) => {
                    proof {
                        lemma_entries_view(self.globals@);
                        lemma_entries_update(self.globals@, i as int, (name, val));
                    }
                    self.globals.set(i, (name, val));
                },
                None => {
                    proof {
                        lemma_entries_push(self.globals@, (name, val));
                    }
                    self.globals.push((name, val));
                },
            }
            assert(self@.globals == assoc_put(s.globals, kv, vv));
            proof {
                lemma_assoc_put_unique(s.globals, kv, vv);
            }
        }
        self.ip = next_ip;
        Step::Continue
    }

    /// The value in absolute register `i`.
    pub fn register(&self, i: usize) -> (r: &VMValue)
        requires
            self.inv(),
            i < REGISTER_COUNT,
        ensures
            r@ == self@.regs[i as int],
    {
        &self.registers[i]
    }

    /// A copy of the value bound to global `name`, if any.
    pub fn global(&self, name: &String) -> (r: Option<VMValue>)
        ensures
            match r {
                Some(v) => lookup(self@.globals, name@) == Some(v@),
                None => lookup(self@.globals, name@) is None,
            },
    {
        proof {
            lemma_entries_view(self.globals@);
        }
        match find_key(&self.globals, name) {
            Some(i) => Some(self.globals[i].1.deep_clone()),
            None => None,
        }
    }

    /// The current instruction pointer.
    pub fn instruction_pointer(&self) -> (r: usize)
        ensures
            r == self@.ip,
    {
        self.ip
    }

    /// The current base register.
    pub fn base_register(&self) -> (r: usize)
        ensures
            r == self@.base,
    {
        self.base_reg
    }

    /// The number of live call frames.
    pub fn depth(&self) -> (r: usize)
        ensures
            r == self@.frames.len(),
    {
        self.frames.len()
    }
}

} // verus!
