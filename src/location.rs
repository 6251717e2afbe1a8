//! Location expressions: a small stack machine that computes where a variable
//! lives. Evaluation is a pure function of the expression and its inputs (the
//! frame's registers, the frame base, and memory words already read); where it
//! needs an input it was not given, it says which, and the caller evaluates
//! again once it has that input.

use vstd::prelude::*;
use crate::values::le_value;

verus! {

pub const OP_ADDR: u8 = 0x03;
pub const OP_DEREF: u8 = 0x06;
pub const OP_CONST1U: u8 = 0x08;
pub const OP_CONST2U: u8 = 0x0a;
pub const OP_CONST4U: u8 = 0x0c;
pub const OP_CONST8U: u8 = 0x0e;
pub const OP_CONSTU: u8 = 0x10;
pub const OP_CONSTS: u8 = 0x11;
pub const OP_DUP: u8 = 0x12;
pub const OP_DROP: u8 = 0x13;
pub const OP_MINUS: u8 = 0x1c;
pub const OP_PLUS: u8 = 0x22;
pub const OP_PLUS_UCONST: u8 = 0x23;
pub const OP_LIT0: u8 = 0x30;
pub const OP_LIT31: u8 = 0x4f;
pub const OP_REG0: u8 = 0x50;
pub const OP_REG31: u8 = 0x6f;
pub const OP_BREG0: u8 = 0x70;
pub const OP_BREG31: u8 = 0x8f;
pub const OP_REGX: u8 = 0x90;
pub const OP_FBREG: u8 = 0x91;
pub const OP_PIECE: u8 = 0x93;
pub const OP_STACK_VALUE: u8 = 0x9f;

/// Where a variable lives.
#[derive(Clone, Copy, Debug, PartialEq, Eq, Structural)]
pub enum Location {
    Memory(u64),
    Register(u64),
    Value(u64),
}

/// An input the evaluation needs and was not given.
#[derive(Clone, Copy, Debug, PartialEq, Eq, Structural)]
pub enum Need {
    FrameBase,
    Register(u64),
    /// The eight bytes at this address.
    Memory(u64),
}

/// Why an expression has no single location.
#[derive(Clone, Copy, Debug, PartialEq, Eq, Structural)]
pub enum EvalError {
    /// An operation this evaluator does not carry out.
    Unsupported(u8),
    /// A location made of several pieces.
    Pieces,
    /// An operand runs past the end, or a number does not fit in 64 bits.
    Malformed,
    /// An operation found too few values on the stack.
    StackUnderflow,
    /// The expression computes nothing.
    Empty,
}

#[derive(Clone, Copy, Debug, PartialEq, Eq, Structural)]
pub enum Outcome {
    Done(Location),
    Needs(Need),
    Failed(EvalError),
}

/// A memory word read for an evaluation.
#[derive(Clone, Copy, Debug, PartialEq, Eq, Structural)]
pub struct MemoryWord {
    pub address: u64,
    pub value: u64,
}

/// What the evaluation may use: register values by number, the frame base,
/// and memory words read so far.
#[derive(Debug)]
pub struct EvalInputs {
    pub registers: Vec<Option<u64>>,
    pub frame_base: Option<u64>,
    pub memory: Vec<MemoryWord>,
}

/// The unsigned LEB128 number at `p`, and the position after it; the position
/// is negative where the number is not terminated.
pub open spec fn uleb(b: Seq<u8>, p: int) -> (int, int)
    decreases b.len() - p,
{
    if p < 0 || p >= b.len() {
        (0, -1)
    } else if b[p] < 128 {
        (b[p] as int, p + 1)
    } else {
        let (v, q) = uleb(b, p + 1);
        ((b[p] - 128) + 128 * v, q)
    }
}

/// The signed LEB128 number at `p`, and the position after it.
pub open spec fn sleb(b: Seq<u8>, p: int) -> (int, int)
    decreases b.len() - p,
{
    if p < 0 || p >= b.len() {
        (0, -1)
    } else if b[p] < 128 {
        (if b[p] >= 64 { b[p] - 128 } else { b[p] as int }, p + 1)
    } else {
        let (v, q) = sleb(b, p + 1);
        ((b[p] - 128) + 128 * v, q)
    }
}

proof fn lemma_uleb_nonneg(b: Seq<u8>, p: int)
    ensures
        uleb(b, p).0 >= 0,
        uleb(b, p).1 < 0 || p < uleb(b, p).1 <= b.len(),
    decreases b.len() - p,
{
    if 0 <= p < b.len() && b[p] >= 128 {
        lemma_uleb_nonneg(b, p + 1);
    }
}

proof fn lemma_sleb_pos(b: Seq<u8>, p: int)
    ensures
        sleb(b, p).1 < 0 || p < sleb(b, p).1 <= b.len(),
    decreases b.len() - p,
{
    if 0 <= p < b.len() && b[p] >= 128 {
        lemma_sleb_pos(b, p + 1);
    }
}

pub open spec fn uleb_read(b: Seq<u8>, p: int) -> Option<(u64, usize)> {
    let (v, q) = uleb(b, p);
    if q < 0 || v > u64::MAX {
        None
    } else {
        Some((v as u64, q as usize))
    }
}

pub open spec fn sleb_read(b: Seq<u8>, p: int) -> Option<(i64, usize)> {
    let (v, q) = sleb(b, p);
    if q < 0 || v < i64::MIN || v > i64::MAX {
        None
    } else {
        Some((v as i64, q as usize))
    }
}

/// Reads an unsigned LEB128 number that fits in 64 bits.
pub fn read_uleb(b: &Vec<u8>, p: usize) -> (r: Option<(u64, usize)>)
    ensures
        r == uleb_read(b@, p as int),
    decreases b@.len() - p,
{
    proof {
        lemma_uleb_nonneg(b@, p as int);
    }
    if p >= b.len() {
        return None;
    }
    let byte = b[p];
    if byte < 128 {
        return Some((byte as u64, p + 1));
    }
    proof {
        lemma_uleb_nonneg(b@, p + 1);
    }
    match read_uleb(b, p + 1) {
        None => None,
        Some((v, q)) => {
            let low = (byte - 128) as u64;
            if v > (u64::MAX - low) / 128 {
                assert(low + 128 * v > u64::MAX) by (nonlinear_arith)
                    requires v > (u64::MAX - low) / 128, low < 128;
                None
            } else {
                assert(low + 128 * v <= u64::MAX) by (nonlinear_arith)
                    requires v <= (u64::MAX - low) / 128, low < 128;
                Some((low + 128 * v, q))
            }
        },
    }
}

/// Reads a signed LEB128 number that fits in 64 bits.
pub fn read_sleb(b: &Vec<u8>, p: usize) -> (r: Option<(i64, usize)>)
    ensures
        r == sleb_read(b@, p as int),
    decreases b@.len() - p,
{
    proof {
        lemma_sleb_pos(b@, p as int);
    }
    if p >= b.len() {
        return None;
    }
    let byte = b[p];
    if byte < 128 {
        let v: i64 = if byte >= 64 { byte as i64 - 128 } else { byte as i64 };
        return Some((v, p + 1));
    }
    proof {
        lemma_sleb_pos(b@, p + 1);
    }
    let ghost (sv, sq) = sleb(b@, p + 1);
    match read_sleb(b, p + 1) {
        None => {
            proof {
                if sq >= 0 {
                    let low = byte - 128;
                    assert(low + 128 * sv < i64::MIN || low + 128 * sv > i64::MAX) by (nonlinear_arith)
                        requires sv < i64::MIN || sv > i64::MAX, 0 <= low < 128;
                }
            }
            None
        },
        Some((v, q)) => {
            let wide: i128 = (byte - 128) as i128 + 128 * (v as i128);
            if wide < i64::MIN as i128 || wide > i64::MAX as i128 {
                None
            } else {
                Some((wide as i64, q))
            }
        },
    }
}

/// The value last recorded for `address`.
pub open spec fn memory_at(m: Seq<MemoryWord>, address: u64) -> Option<u64>
    decreases m.len(),
{
    if m.len() == 0 {
        None
    } else if m.last().address == address {
        Some(m.last().value)
    } else {
        memory_at(m.drop_last(), address)
    }
}

pub open spec fn register_at(regs: Seq<Option<u64>>, n: u64) -> Option<u64> {
    if n < regs.len() {
        regs[n as int]
    } else {
        None
    }
}

/// The result of one operation: the next position and stack, or the end.
pub enum Step {
    Continue(usize, Seq<u64>),
    Finish(Outcome),
}

pub open spec fn push_or_fail(pc: Option<usize>, stack: Seq<u64>, v: u64) -> Step {
    match pc {
        Some(q) => Step::Continue(q, stack.push(v)),
        None => Step::Finish(Outcome::Failed(EvalError::Malformed)),
    }
}

/// `n` operand bytes after the operation at `pc`, read as a little-endian number.
pub open spec fn fixed_operand(e: Seq<u8>, pc: int, n: int) -> Option<(u64, usize)> {
    if pc + 1 + n <= e.len() {
        Some((le_value(e.subrange(pc + 1, pc + 1 + n)) as u64, (pc + 1 + n) as usize))
    } else {
        None
    }
}

/// `base + off`, wrapped to 64 bits.
pub open spec fn offset_by(base: u64, off: i64) -> u64 {
    let s = base as int + off as int;
    if s < 0 {
        (s + 0x1_0000_0000_0000_0000) as u64
    } else if s >= 0x1_0000_0000_0000_0000 {
        (s - 0x1_0000_0000_0000_0000) as u64
    } else {
        s as u64
    }
}

/// One operation of the machine.
pub open spec fn step(e: Seq<u8>, pc: int, stack: Seq<u64>, regs: Seq<Option<u64>>, fb: Option<u64>, mem: Seq<MemoryWord>) -> Step {
    let op = e[pc];
    let n = stack.len();
    if op == OP_ADDR || op == OP_CONST1U || op == OP_CONST2U || op == OP_CONST4U || op == OP_CONST8U {
        let width = if op == OP_CONST1U { 1int } else if op == OP_CONST2U { 2int } else if op == OP_CONST4U { 4int } else { 8int };
        match fixed_operand(e, pc, width) {
            Some((v, q)) => Step::Continue(q, stack.push(v)),
            None => Step::Finish(Outcome::Failed(EvalError::Malformed)),
        }
    } else if op == OP_CONSTU {
        match uleb_read(e, pc + 1) {
            Some((v, q)) => Step::Continue(q, stack.push(v)),
            None => Step::Finish(Outcome::Failed(EvalError::Malformed)),
        }
    } else if op == OP_CONSTS {
        match sleb_read(e, pc + 1) {
            Some((v, q)) => Step::Continue(q, stack.push(v as u64)),
            None => Step::Finish(Outcome::Failed(EvalError::Malformed)),
        }
    } else if OP_LIT0 <= op <= OP_LIT31 {
        Step::Continue((pc + 1) as usize, stack.push((op - OP_LIT0) as u64))
    } else if op == OP_DUP || op == OP_DROP || op == OP_DEREF || op == OP_STACK_VALUE || op == OP_PLUS_UCONST {
        if n == 0 {
            Step::Finish(Outcome::Failed(EvalError::StackUnderflow))
        } else if op == OP_DUP {
            Step::Continue((pc + 1) as usize, stack.push(stack.last()))
        } else if op == OP_DROP {
            Step::Continue((pc + 1) as usize, stack.drop_last())
        } else if op == OP_DEREF {
            match memory_at(mem, stack.last()) {
                Some(v) => Step::Continue((pc + 1) as usize, stack.drop_last().push(v)),
                None => Step::Finish(Outcome::Needs(Need::Memory(stack.last()))),
            }
        } else if op == OP_STACK_VALUE {
            if pc + 1 == e.len() {
                Step::Finish(Outcome::Done(Location::Value(stack.last())))
            } else {
                Step::Finish(Outcome::Failed(EvalError::Pieces))
            }
        } else {
            match uleb_read(e, pc + 1) {
                Some((v, q)) => Step::Continue(q, stack.drop_last().push(((stack.last() + v) % 0x1_0000_0000_0000_0000) as u64)),
                None => Step::Finish(Outcome::Failed(EvalError::Malformed)),
            }
        }
    } else if op == OP_PLUS || op == OP_MINUS {
        if n < 2 {
            Step::Finish(Outcome::Failed(EvalError::StackUnderflow))
        } else {
            let a = stack[n - 2];
            let b = stack[n - 1];
            let v = if op == OP_PLUS { ((a + b) % 0x1_0000_0000_0000_0000) as u64 } else { ((a + 0x1_0000_0000_0000_0000 - b) % 0x1_0000_0000_0000_0000) as u64 };
            Step::Continue((pc + 1) as usize, stack.drop_last().drop_last().push(v))
        }
    } else if OP_REG0 <= op <= OP_REG31 || op == OP_REGX {
        let reg = if op == OP_REGX { uleb_read(e, pc + 1) } else { Some(((op - OP_REG0) as u64, (pc + 1) as usize)) };
        match reg {
            Some((r, q)) => if q == e.len() {
                Step::Finish(Outcome::Done(Location::Register(r)))
            } else {
                Step::Finish(Outcome::Failed(EvalError::Pieces))
            },
            None => Step::Finish(Outcome::Failed(EvalError::Malformed)),
        }
    } else if OP_BREG0 <= op <= OP_BREG31 {
        let r = (op - OP_BREG0) as u64;
        match sleb_read(e, pc + 1) {
            Some((off, q)) => match register_at(regs, r) {
                Some(v) => Step::Continue(q, stack.push(offset_by(v, off))),
                None => Step::Finish(Outcome::Needs(Need::Register(r))),
            },
            None => Step::Finish(Outcome::Failed(EvalError::Malformed)),
        }
    } else if op == OP_FBREG {
        match sleb_read(e, pc + 1) {
            Some((off, q)) => match fb {
                Some(v) => Step::Continue(q, stack.push(offset_by(v, off))),
                None => Step::Finish(Outcome::Needs(Need::FrameBase)),
            },
            None => Step::Finish(Outcome::Failed(EvalError::Malformed)),
        }
    } else if op == OP_PIECE {
        Step::Finish(Outcome::Failed(EvalError::Pieces))
    } else {
        Step::Finish(Outcome::Failed(EvalError::Unsupported(op)))
    }
}

/// The outcome of running the expression from `pc` with `stack`.
pub open spec fn run(e: Seq<u8>, pc: int, stack: Seq<u64>, regs: Seq<Option<u64>>, fb: Option<u64>, mem: Seq<MemoryWord>) -> Outcome
    decreases e.len() - pc,
{
    if pc < 0 || pc >= e.len() {
        if stack.len() == 0 {
            Outcome::Failed(EvalError::Empty)
        } else {
            Outcome::Done(Location::Memory(stack.last()))
        }
    } else {
        match step(e, pc, stack, regs, fb, mem) {
            Step::Continue(q, s) => if pc < q <= e.len() {
                run(e, q as int, s, regs, fb, mem)
            } else {
                Outcome::Failed(EvalError::Malformed)
            },
            Step::Finish(o) => o,
        }
    }
}

/// What `evaluate` gives for an expression and inputs.
pub open spec fn evaluation(e: Seq<u8>, inputs: EvalInputs) -> Outcome {
    run(e, 0, Seq::empty(), inputs.registers@, inputs.frame_base, inputs.memory@)
}

fn memory_lookup(mem: &Vec<MemoryWord>, address: u64) -> (r: Option<u64>)
    ensures
        r == memory_at(mem@, address),
{
    let mut k: usize = mem.len();
    assert(mem@.subrange(0, k as int) =~= mem@);
    while k > 0
        invariant
            0 <= k <= mem@.len(),
            memory_at(mem@, address) == memory_at(mem@.subrange(0, k as int), address),
        decreases k,
    {
        let w = mem[k - 1];
        let ghost pre = mem@.subrange(0, k as int);
        assert(pre.drop_last() =~= mem@.subrange(0, k - 1));
        if w.address == address {
            return Some(w.value);
        }
        k = k - 1;
    }
    None
}

fn read_fixed(e: &Vec<u8>, pc: usize, n: usize) -> (r: Option<(u64, usize)>)
    requires
        n <= 8,
        pc < e@.len(),
    ensures
        r == fixed_operand(e@, pc as int, n as int),
{
    if n > e.len() - pc - 1 {
        return None;
    }
    let len = e.len();
    let mut bytes: Vec<u8> = Vec::new();
    let mut k: usize = 0;
    while k < n
        invariant
            len == e@.len(),
            n <= 8,
            pc + 1 + n <= e@.len(),
            0 <= k <= n,
            bytes@ == e@.subrange(pc + 1, pc + 1 + k),
        decreases n - k,
    {
        bytes.push(e[pc + 1 + k]);
        k = k + 1;
        assert(bytes@ =~= e@.subrange(pc + 1, pc + 1 + k));
    }
    let v = crate::values::read_unsigned(bytes.as_slice(), true);
    Some((v, pc + 1 + n))
}

fn add_offset(base: u64, off: i64) -> (r: u64)
    ensures
        r == offset_by(base, off),
{
    let wide: i128 = base as i128 + off as i128;
    let m: i128 = 0x1_0000_0000_0000_0000;
    let w = if wide < 0 { wide + m } else if wide >= m { wide - m } else { wide };
    w as u64
}

/// Runs a location expression: the location it computes, the first input it
/// needs and was not given, or why it has no single location.
pub fn evaluate(expr: &Vec<u8>, inputs: &EvalInputs) -> (r: Outcome)
    ensures
        r == evaluation(expr@, *inputs),
{
    let ghost regs = inputs.registers@;
    let ghost fb = inputs.frame_base;
    let ghost mem = inputs.memory@;
    let len = expr.len();
    let mut pc: usize = 0;
    let mut stack: Vec<u64> = Vec::new();
    while pc < len
        invariant
            len == expr@.len(),
            pc <= len,
            regs == inputs.registers@,
            fb == inputs.frame_base,
            mem == inputs.memory@,
            run(expr@, pc as int, stack@, regs, fb, mem) == evaluation(expr@, *inputs),
        decreases len - pc,
    {
        let op = expr[pc];
        let n = stack.len();
        let ghost e = expr@;
        let ghost old_stack = stack@;
        let ghost old_pc = pc as int;
        proof {
            lemma_uleb_nonneg(e, pc + 1);
            lemma_sleb_pos(e, pc + 1);
        }
        if op == OP_ADDR || op == OP_CONST1U || op == OP_CONST2U || op == OP_CONST4U || op == OP_CONST8U {
            let width: usize = if op == OP_CONST1U { 1 } else if op == OP_CONST2U { 2 } else if op == OP_CONST4U { 4 } else { 8 };
            match read_fixed(expr, pc, width) {
                Some((v, q)) => {
                    stack.push(v);
                    pc = q;
                },
                None => return Outcome::Failed(EvalError::Malformed),
            }
        } else if op == OP_CONSTU {
            match read_uleb(expr, pc + 1) {
                Some((v, q)) => {
                    stack.push(v);
                    pc = q;
                },
                None => return Outcome::Failed(EvalError::Malformed),
            }
        } else if op == OP_CONSTS {
            match read_sleb(expr, pc + 1) {
                Some((v, q)) => {
                    stack.push(v as u64);
                    pc = q;
                },
                None => return Outcome::Failed(EvalError::Malformed),
            }
        } else if OP_LIT0 <= op && op <= OP_LIT31 {
            stack.push((op - OP_LIT0) as u64);
            pc = pc + 1;
        } else if op == OP_DUP || op == OP_DROP || op == OP_DEREF || op == OP_STACK_VALUE || op == OP_PLUS_UCONST {
            if n == 0 {
                return Outcome::Failed(EvalError::StackUnderflow);
            }
            let top = stack[n - 1];
            if op == OP_DUP {
                stack.push(top);
                pc = pc + 1;
            } else if op == OP_DROP {
                stack.pop();
                pc = pc + 1;
            } else if op == OP_DEREF {
                match memory_lookup(&inputs.memory, top) {
                    Some(v) => {
                        stack.pop();
                        stack.push(v);
                        pc = pc + 1;
                    },
                    None => return Outcome::Needs(Need::Memory(top)),
                }
            } else if op == OP_STACK_VALUE {
                if pc + 1 == len {
                    return Outcome::Done(Location::Value(top));
                } else {
                    return Outcome::Failed(EvalError::Pieces);
                }
            } else {
                match read_uleb(expr, pc + 1) {
                    Some((v, q)) => {
                        let sum = ((top as u128 + v as u128) % 0x1_0000_0000_0000_0000) as u64;
                        stack.pop();
                        stack.push(sum);
                        pc = q;
                    },
                    None => return Outcome::Failed(EvalError::Malformed),
                }
            }
        } else if op == OP_PLUS || op == OP_MINUS {
            if n < 2 {
                return Outcome::Failed(EvalError::StackUnderflow);
            }
            let a = stack[n - 2];
            let b = stack[n - 1];
            let v = if op == OP_PLUS {
                ((a as u128 + b as u128) % 0x1_0000_0000_0000_0000) as u64
            } else {
                ((a as u128 + 0x1_0000_0000_0000_0000 - b as u128) % 0x1_0000_0000_0000_0000) as u64
            };
            stack.pop();
            stack.pop();
            stack.push(v);
            pc = pc + 1;
        } else if (OP_REG0 <= op && op <= OP_REG31) || op == OP_REGX {
            let reg = if op == OP_REGX { read_uleb(expr, pc + 1) } else { Some(((op - OP_REG0) as u64, pc + 1)) };
            match reg {
                Some((r, q)) => {
                    if q == len {
                        return Outcome::Done(Location::Register(r));
                    } else {
                        return Outcome::Failed(EvalError::Pieces);
                    }
                },
                None => return Outcome::Failed(EvalError::Malformed),
            }
        } else if OP_BREG0 <= op && op <= OP_BREG31 {
            let r = (op - OP_BREG0) as u64;
            match read_sleb(expr, pc + 1) {
                Some((off, q)) => {
                    let value = if r < inputs.registers.len() as u64 { inputs.registers[r as usize] } else { None };
                    match value {
                        Some(v) => {
                            stack.push(add_offset(v, off));
                            pc = q;
                        },
                        None => return Outcome::Needs(Need::Register(r)),
                    }
                },
                None => return Outcome::Failed(EvalError::Malformed),
            }
        } else if op == OP_FBREG {
            match read_sleb(expr, pc + 1) {
                Some((off, q)) => match inputs.frame_base {
                    Some(v) => {
                        stack.push(add_offset(v, off));
                        pc = q;
                    },
                    None => return Outcome::Needs(Need::FrameBase),
                },
                None => return Outcome::Failed(EvalError::Malformed),
            }
        } else if op == OP_PIECE {
            return Outcome::Failed(EvalError::Pieces);
        } else {
            return Outcome::Failed(EvalError::Unsupported(op));
        }
        assert(step(e, old_pc, old_stack, regs, fb, mem) == Step::Continue(pc, stack@));
        assert(pc > old_pc && pc <= len);
    }
    if stack.len() == 0 {
        Outcome::Failed(EvalError::Empty)
    } else {
        Outcome::Done(Location::Memory(stack[stack.len() - 1]))
    }
}

/// The frame base that a subprogram's frame-base expression gives: the value
/// held by the register it names, or the address or value it computes.
pub fn frame_base_value(expr: &Vec<u8>, inputs: &EvalInputs) -> (r: Result<u64, Outcome>)
    ensures
        match evaluation(expr@, *inputs) {
            Outcome::Done(Location::Register(n)) => match register_at(inputs.registers@, n) {
                Some(v) => r == Ok::<u64, Outcome>(v),
                None => r == Err::<u64, Outcome>(Outcome::Needs(Need::Register(n))),
            },
            Outcome::Done(Location::Memory(a)) => r == Ok::<u64, Outcome>(a),
            Outcome::Done(Location::Value(a)) => r == Ok::<u64, Outcome>(a),
            o => r == Err::<u64, Outcome>(o),
        },
{
    match evaluate(expr, inputs) {
        Outcome::Done(Location::Register(n)) => {
            let value = if n < inputs.registers.len() as u64 { inputs.registers[n as usize] } else { None };
            match value {
                Some(v) => Ok(v),
                None => Err(Outcome::Needs(Need::Register(n))),
            }
        },
        Outcome::Done(Location::Memory(a)) => Ok(a),
        Outcome::Done(Location::Value(a)) => Ok(a),
        o => Err(o),
    }
}

} // verus!
