//! Properties of the machine that relate several values, instructions or steps.
use vstd::prelude::*;

use crate::number::is_zero;
use crate::opcode::{opcode_of, OpCode};
use crate::value::{
    assoc_put, is_first_key, key_index, keys_within, lemma_assoc_put_unique, lemma_first_key,
    lemma_key_found, lookup,
    val_equal, Val,
};
use crate::vm::{
    constant_in_range, execute, next, operand, prop_of, reg, registers_in_range, run_steps, state_ok, Exit, Fault, Step, VmState, REGISTER_COUNT,
};

verus! {

/// A nonnegative `key_index` is the key's first occurrence.
pub proof fn lemma_key_index_first(e: Seq<(Seq<char>, Val)>, k: Seq<char>)
    requires
        key_index(e, k) >= 0,
    ensures
        is_first_key(e, k, key_index(e, k)),
{
}

/// `Equal` is reflexive: every value equals itself.
pub proof fn law_equal_reflexive(v: Val)
    ensures
        val_equal(v, v),
    decreases v,
{
    match v {
        Val::Array(x) => {
            assert forall|i: int| 0 <= i < x.len() implies val_equal(x[i], x[i]) by {
                law_equal_reflexive(x[i]);
            }
        },
        Val::Object(e) => {
            assert forall|i: int| 0 <= i < e.len() && is_first_key(e, e[i].0, i) implies key_index(
                e,
                e[i].0,
            ) >= 0 && val_equal(e[i].1, e[key_index(e, e[i].0)].1) by {
                lemma_first_key(e, e[i].0, i);
                law_equal_reflexive(e[i].1);
            }
            assert forall|j: int| 0 <= j < e.len() implies key_index(e, e[j].0) >= 0 by {
                lemma_key_found(e, e[j].0, j);
            }
            assert(keys_within(e, e));
        },
        _ => {},
    }
}

/// `Equal` is symmetric.
pub proof fn law_equal_symmetric(a: Val, b: Val)
    requires
        val_equal(a, b),
    ensures
        val_equal(b, a),
    decreases a,
{
    match a {
        Val::Array(x) => {
            let y = b->Array_0;
            assert forall|i: int| 0 <= i < y.len() implies val_equal(y[i], x[i]) by {
                law_equal_symmetric(x[i], y[i]);
            }
        },
        Val::Object(x) => {
            let y = b->Object_0;
            assert(keys_within(y, x));
            assert forall|j: int| 0 <= j < y.len() && is_first_key(y, y[j].0, j) implies key_index(
                x,
                y[j].0,
            ) >= 0 && val_equal(y[j].1, x[key_index(x, y[j].0)].1) by {
                let i = key_index(x, y[j].0);
                lemma_key_index_first(x, y[j].0);
                lemma_first_key(y, y[j].0, j);
                assert(x[i].0 == y[j].0);
                law_equal_symmetric(x[i].1, y[j].1);
            }
            assert forall|i: int| 0 <= i < x.len() implies key_index(y, x[i].0) >= 0 by {
                lemma_key_found(x, x[i].0, i);
                let f = key_index(x, x[i].0);
                assert(x[f].0 == x[i].0);
            }
            assert(keys_within(x, y));
        },
        _ => {},
    }
}

/// `Equal d, r, r` stores `true`, whatever register `r` holds.
pub proof fn law_equal_instruction_reflexive(s: VmState, code: Seq<u8>)
    requires
        state_ok(s),
        s.ip + 3 < code.len(),
        opcode_of(code[s.ip]) == Some(OpCode::Equal),
        reg(s, code, 0) < REGISTER_COUNT,
        reg(s, code, 1) < REGISTER_COUNT,
        reg(s, code, 1) == reg(s, code, 2),
    ensures
        next(s, code).0.regs[reg(s, code, 0)] == Val::Bool(true),
{
    law_equal_reflexive(s.regs[reg(s, code, 1)]);
}

/// `Equal d, a, b` and `Equal d, b, a` store the same result.
pub proof fn law_equal_instruction_symmetric(s: VmState, code: Seq<u8>, swapped: Seq<u8>)
    requires
        state_ok(s),
        s.ip + 3 < code.len(),
        opcode_of(code[s.ip]) == Some(OpCode::Equal),
        reg(s, code, 0) < REGISTER_COUNT,
        reg(s, code, 1) < REGISTER_COUNT,
        reg(s, code, 2) < REGISTER_COUNT,
        swapped == code.update(s.ip + 2, code[s.ip + 3]).update(s.ip + 3, code[s.ip + 2]),
    ensures
        next(s, code) == next(s, swapped),
{
    let a = s.regs[reg(s, code, 1)];
    let b = s.regs[reg(s, code, 2)];
    if val_equal(a, b) {
        law_equal_symmetric(a, b);
    }
    if val_equal(b, a) {
        law_equal_symmetric(b, a);
    }
    assert(reg(s, swapped, 1) == reg(s, code, 2));
    assert(reg(s, swapped, 2) == reg(s, code, 1));
    assert(reg(s, swapped, 0) == reg(s, code, 0));
}

/// After a property (or a global) is set, reading it gives the value that was
/// set; reading a key that is absent gives nil.
pub proof fn law_set_then_get(e: Seq<(Seq<char>, Val)>, k: Seq<char>, v: Val)
    ensures
        lookup(assoc_put(e, k, v), k) == Some(v),
        prop_of(Val::Object(assoc_put(e, k, v)), k) == v,
        lookup(e, k) is None ==> prop_of(Val::Object(e), k) == Val::Nil,
{
    let p = assoc_put(e, k, v);
    if key_index(e, k) >= 0 {
        let i = key_index(e, k);
        assert(is_first_key(e, k, i));
        assert(is_first_key(p, k, i));
    } else {
        assert forall|j: int| 0 <= j < e.len() implies e[j].0 != k by {
            if e[j].0 == k {
                lemma_key_found(e, k, j);
            }
        }
        assert(is_first_key(p, k, e.len() as int));
    }
    assert(is_first_key(p, k, key_index(p, k)));
}

/// A call whose argument count differs from the callee's arity ends the run
/// at once: the state is left as it was, so no instruction of the callee runs.
/// The fault is the arity mismatch whenever the destination register is in
/// range (otherwise it is the register fault, at the same instruction).
pub proof fn law_arity_mismatch_halts(
    s: VmState,
    code: Seq<u8>,
    entry: usize,
    arity: u8,
    fuel: nat,
)
    requires
        state_ok(s),
        s.ip + 3 < code.len(),
        opcode_of(code[s.ip]) == Some(OpCode::Call),
        reg(s, code, 1) < REGISTER_COUNT,
        s.regs[reg(s, code, 1)] == (Val::Function { entry, arity }),
        arity as int != operand(s, code, 2),
        fuel > 0,
    ensures
        run_steps(s, code, fuel).0 == s,
        run_steps(s, code, fuel).1 is Done,
        reg(s, code, 0) < REGISTER_COUNT ==> run_steps(s, code, fuel).1 == Step::Done(
            Exit::Fault(
                Fault::ArityMismatch {
                    at: s.ip as usize,
                    expected: arity,
                    got: operand(s, code, 2) as u8,
                },
            ),
        ),
{
    assert(next(s, code).1 != Step::Continue);
}

/// A call followed, at any later point with the same frame stack, by a return
/// resumes the caller: just past the call, at the caller's base, with the
/// returned value in the call's destination register. The callee's frame
/// starts right after the function's register.
pub proof fn law_call_then_return(
    s: VmState,
    code: Seq<u8>,
    entry: usize,
    arity: u8,
    u: VmState,
)
    requires
        code.len() <= usize::MAX,
        state_ok(s),
        s.ip + 3 < code.len(),
        opcode_of(code[s.ip]) == Some(OpCode::Call),
        reg(s, code, 0) < REGISTER_COUNT,
        reg(s, code, 1) < REGISTER_COUNT,
        s.regs[reg(s, code, 1)] == (Val::Function { entry, arity }),
        arity as int == operand(s, code, 2),
        state_ok(u),
        u.frames == next(s, code).0.frames,
        u.ip + 1 < code.len(),
        opcode_of(code[u.ip]) == Some(OpCode::Return),
        reg(u, code, 0) < REGISTER_COUNT,
    ensures
        next(s, code).1 == Step::Continue,
        next(s, code).0.ip == entry,
        next(s, code).0.base == reg(s, code, 1) + 1,
        next(s, code).0.regs == s.regs,
        next(u, code) == (
            VmState {
                regs: u.regs.update(reg(s, code, 0), u.regs[reg(u, code, 0)]),
                frames: s.frames,
                ip: s.ip + 4,
                base: s.base,
                ..u
            },
            Step::Continue,
        ),
{
    assert(u.frames.drop_last() =~= s.frames);
    assert(u.frames.last().ip == s.ip + 4);
    assert(u.frames.last().return_reg == reg(s, code, 0));
}

/// One step changes the frame stack only by pushing one frame (a call) or
/// popping the top one (a return); a step that is not `Continue` leaves it.
pub proof fn lemma_next_frames(s: VmState, code: Seq<u8>)
    ensures
        ({
            let f = next(s, code).0.frames;
            ||| f == s.frames
            ||| (next(s, code).1 == Step::Continue && f.len() == s.frames.len() + 1 && f.subrange(
                0,
                s.frames.len() as int,
            ) == s.frames)
            ||| (next(s, code).1 == Step::Continue && s.frames.len() > 0 && f
                == s.frames.drop_last())
        }),
        next(s, code).1 != Step::Continue ==> next(s, code).0.frames == s.frames,
{
    if s.ip < code.len() {
        if let Some(op) = opcode_of(code[s.ip]) {
            if s.ip + 1 + op.operand_len() <= code.len() && registers_in_range(s, code, op)
                && constant_in_range(s, code, op) {
                match op {
                    OpCode::Call => {
                        let f = next(s, code).0.frames;
                        if f != s.frames {
                            assert(f.subrange(0, s.frames.len() as int) =~= s.frames);
                        }
                    },
                    OpCode::Return => {},
                    OpCode::Halt => {},
                    _ => {},
                }
            }
        }
    }
}

/// Every state of the first `fuel` steps of the run (up to the first step
/// that is not `Continue`) has at least `d` frames.
pub open spec fn run_keeps_depth(s: VmState, code: Seq<u8>, fuel: nat, d: nat) -> bool
    decreases fuel,
{
    &&& s.frames.len() >= d
    &&& (fuel > 0 && next(s, code).1 == Step::Continue) ==> run_keeps_depth(
        next(s, code).0,
        code,
        (fuel - 1) as nat,
        d,
    )
}

/// The call stack is a stack: a run that never returns below depth `d`
/// leaves the bottom `d` frames exactly as they were. With the return law
/// above, every return, at any depth of recursion, resumes the caller whose
/// call pushed its frame.
pub proof fn law_frames_below_kept(s: VmState, code: Seq<u8>, fuel: nat, d: nat)
    requires
        run_keeps_depth(s, code, fuel, d),
    ensures
        run_steps(s, code, fuel).0.frames.len() >= d,
        run_steps(s, code, fuel).0.frames.subrange(0, d as int) == s.frames.subrange(0, d as int),
    decreases fuel,
{
    if fuel > 0 {
        lemma_next_frames(s, code);
        let t = next(s, code).0;
        if next(s, code).1 == Step::Continue {
            assert(run_keeps_depth(t, code, (fuel - 1) as nat, d));
            assert(t.frames.len() >= d);
            law_frames_below_kept(t, code, (fuel - 1) as nat, d);
            if t.frames.len() == s.frames.len() + 1 {
                assert forall|i: int| 0 <= i < d implies t.frames[i] == s.frames[i] by {
                    assert(t.frames.subrange(0, s.frames.len() as int)[i] == t.frames[i]);
                }
            }
            assert(t.frames.subrange(0, d as int) =~= s.frames.subrange(0, d as int));
        }
    }
}

/// Arithmetic where either operand is not a number changes no register: it
/// only moves past the instruction.
pub proof fn law_arith_on_non_numbers_is_noop(s: VmState, code: Seq<u8>)
    requires
        state_ok(s),
        s.ip + 3 < code.len(),
        1 <= code[s.ip] <= 4,
        reg(s, code, 0) < REGISTER_COUNT,
        reg(s, code, 1) < REGISTER_COUNT,
        reg(s, code, 2) < REGISTER_COUNT,
        !(s.regs[reg(s, code, 1)] is Number) || !(s.regs[reg(s, code, 2)] is Number),
    ensures
        next(s, code) == (VmState { ip: s.ip + 4, ..s }, Step::Continue),
{
}

/// A conditional jump jumps on nil and on either zero, and falls through on
/// any string.
pub proof fn law_jump_if_false(s: VmState, code: Seq<u8>)
    requires
        state_ok(s),
        s.ip + 2 < code.len(),
        opcode_of(code[s.ip]) == Some(OpCode::JumpIfFalse),
        reg(s, code, 0) < REGISTER_COUNT,
    ensures
        next(s, code).1 == Step::Continue,
        next(s, code).0 == (VmState { ip: next(s, code).0.ip, ..s }),
        s.regs[reg(s, code, 0)] is Nil ==> next(s, code).0.ip == operand(s, code, 1),
        (s.regs[reg(s, code, 0)] is Number && is_zero(s.regs[reg(s, code, 0)]->Number_0))
            ==> next(s, code).0.ip == operand(s, code, 1),
        s.regs[reg(s, code, 0)] is Str ==> next(s, code).0.ip == s.ip + 3,
{
}

/// Only `StoreGlobal` writes the global table: calls, returns and every
/// other instruction leave it as it was.
pub proof fn law_globals_kept(s: VmState, code: Seq<u8>)
    requires
        state_ok(s),
        s.ip < code.len() ==> opcode_of(code[s.ip]) != Some(OpCode::StoreGlobal),
    ensures
        next(s, code).0.globals == s.globals,
{
}

/// The instruction at `s.ip` is a `StoreGlobal` to `name` whose constant
/// index is in range.
pub open spec fn stores_now(s: VmState, code: Seq<u8>, name: Seq<char>) -> bool {
    &&& s.ip + 2 < code.len()
    &&& opcode_of(code[s.ip]) == Some(OpCode::StoreGlobal)
    &&& operand(s, code, 0) < s.consts.len()
    &&& s.consts[operand(s, code, 0)] == Val::Str(name)
}

/// Some step among the first `fuel` steps of the run stores to global `name`.
pub open spec fn run_stores(s: VmState, code: Seq<u8>, fuel: nat, name: Seq<char>) -> bool
    decreases fuel,
{
    if fuel == 0 {
        false
    } else {
        stores_now(s, code, name) || (next(s, code).1 == Step::Continue && run_stores(
            next(s, code).0,
            code,
            (fuel - 1) as nat,
            name,
        ))
    }
}

/// Setting one key leaves the binding of every other key as it was.
pub proof fn lemma_put_other(g: Seq<(Seq<char>, Val)>, k: Seq<char>, v: Val, name: Seq<char>)
    requires
        k != name,
    ensures
        lookup(assoc_put(g, k, v), name) == lookup(g, name),
{
    let p = assoc_put(g, k, v);
    if key_index(g, k) >= 0 {
        lemma_key_index_first(g, k);
    }
    assert(forall|m: int| 0 <= m < p.len() && p[m].0 == name ==> m < g.len() && g[m] == p[m]);
    assert(forall|m: int| 0 <= m < g.len() && g[m].0 == name ==> p[m] == g[m]);
    if key_index(g, name) >= 0 {
        let m = key_index(g, name);
        lemma_key_index_first(g, name);
        assert(is_first_key(p, name, m));
        lemma_first_key(p, name, m);
    } else if key_index(p, name) >= 0 {
        let m = key_index(p, name);
        lemma_key_index_first(p, name);
        assert(is_first_key(g, name, m));
        lemma_first_key(g, name, m);
    }
}

/// A step that does not store to `name` leaves its binding as it was.
pub proof fn lemma_step_keeps_global(s: VmState, code: Seq<u8>, name: Seq<char>)
    requires
        !stores_now(s, code, name),
    ensures
        lookup(next(s, code).0.globals, name) == lookup(s.globals, name),
{
    if s.ip < code.len() && opcode_of(code[s.ip]) == Some(OpCode::StoreGlobal) && s.ip + 2
        < code.len() && operand(s, code, 0) < s.consts.len() {
        match s.consts[operand(s, code, 0)] {
            Val::Str(k) => {
                lemma_put_other(s.globals, k, s.regs[reg(s, code, 1)], name);
            },
            _ => {},
        }
    }
}

/// A run that never stores to `name` ends with `name` bound as it started:
/// calls, returns and every other instruction leave the binding alone.
pub proof fn law_run_keeps_global(s: VmState, code: Seq<u8>, fuel: nat, name: Seq<char>)
    requires
        !run_stores(s, code, fuel, name),
    ensures
        lookup(run_steps(s, code, fuel).0.globals, name) == lookup(s.globals, name),
    decreases fuel,
{
    if fuel > 0 {
        lemma_step_keeps_global(s, code, name);
        if next(s, code).1 == Step::Continue {
            law_run_keeps_global(next(s, code).0, code, (fuel - 1) as nat, name);
        }
    }
}

/// One step keeps the state's invariant.
pub proof fn lemma_next_keeps_state_ok(s: VmState, code: Seq<u8>)
    requires
        state_ok(s),
        code.len() <= usize::MAX,
    ensures
        state_ok(next(s, code).0),
{
    if s.ip < code.len() {
        if let Some(op) = opcode_of(code[s.ip]) {
            if s.ip + 1 + op.operand_len() <= code.len() && registers_in_range(s, code, op)
                && constant_in_range(s, code, op) {
                assert(op.is_register_operand(0) ==> reg(s, code, 0) < REGISTER_COUNT);
                assert(op.is_register_operand(1) ==> reg(s, code, 1) < REGISTER_COUNT);
                assert(op.is_register_operand(2) ==> reg(s, code, 2) < REGISTER_COUNT);
                let t = next(s, code).0;
                match op {
                    OpCode::StoreGlobal => {
                        match s.consts[operand(s, code, 0)] {
                            Val::Str(k) => {
                                lemma_assoc_put_unique(s.globals, k, s.regs[reg(s, code, 1)]);
                            },
                            _ => {},
                        }
                    },
                    OpCode::Call => {
                        assert(forall|i: int|
                            0 <= i < t.frames.len() ==> #[trigger] t.frames[i].return_reg
                                < REGISTER_COUNT && t.frames[i].base_reg <= REGISTER_COUNT);
                    },
                    OpCode::Return => {
                        if s.frames.len() > 0 {
                            let f = s.frames.last();
                            assert(f.return_reg < REGISTER_COUNT);
                            assert(forall|i: int|
                                0 <= i < t.frames.len() ==> #[trigger] t.frames[i]
                                    == s.frames[i]);
                        }
                    },
                    _ => {},
                }
            }
        }
    }
}

/// Every run keeps the state's invariant.
pub proof fn lemma_run_keeps_state_ok(s: VmState, code: Seq<u8>, fuel: nat)
    requires
        state_ok(s),
        code.len() <= usize::MAX,
    ensures
        state_ok(run_steps(s, code, fuel).0),
    decreases fuel,
{
    if fuel > 0 {
        lemma_next_keeps_state_ok(s, code);
        if next(s, code).1 == Step::Continue {
            lemma_run_keeps_state_ok(next(s, code).0, code, (fuel - 1) as nat);
        }
    }
}

/// A global stored once and not stored again reads back as the stored value,
/// however many instructions (calls and returns included) run in between: a
/// `LoadGlobal` of the name then puts that value in its destination register.
pub proof fn law_global_survives_run(s: VmState, code: Seq<u8>, name: Seq<char>, fuel: nat)
    requires
        code.len() <= usize::MAX,
        state_ok(s),
        stores_now(s, code, name),
        reg(s, code, 1) < REGISTER_COUNT,
        !run_stores(next(s, code).0, code, fuel, name),
    ensures
        lookup(run_steps(next(s, code).0, code, fuel).0.globals, name) == Some(
            s.regs[reg(s, code, 1)],
        ),
        ({
            let u = run_steps(next(s, code).0, code, fuel).0;
            (0 <= u.ip && u.ip + 2 < code.len() && opcode_of(code[u.ip]) == Some(
                OpCode::LoadGlobal,
            ) && reg(u, code, 0) < REGISTER_COUNT && operand(u, code, 1) < u.consts.len()
                && u.consts[operand(u, code, 1)] == Val::Str(name)) ==> next(u, code).0.regs[reg(
                u,
                code,
                0,
            )] == s.regs[reg(s, code, 1)]
        }),
{
    law_set_then_get(s.globals, name, s.regs[reg(s, code, 1)]);
    law_run_keeps_global(next(s, code).0, code, fuel, name);
    let u = run_steps(next(s, code).0, code, fuel).0;
    lemma_next_keeps_state_ok(s, code);
    lemma_run_keeps_state_ok(next(s, code).0, code, fuel);
    if 0 <= u.ip && u.ip + 2 < code.len() && opcode_of(code[u.ip]) == Some(OpCode::LoadGlobal)
        && reg(u, code, 0) < REGISTER_COUNT && operand(u, code, 1) < u.consts.len() {
        assert(registers_in_range(u, code, OpCode::LoadGlobal));
        assert(next(u, code) == execute(u, code, OpCode::LoadGlobal));
    }
}

} // verus!
