//! Execution engine: owns the tape, pointer, and networking state, and
//! walks an instruction tree giving every opcode its bit-exact semantics.
//!
//! The engine's socket operations go through the [`NetIo`] trait; the
//! engine states nothing about their outcomes, so everything proved here
//! holds for every implementation.  Recoverable networking faults are
//! signalled purely by writing the sentinel value `-1` into the current
//! tape cell; parse-time faults abort before any execution.

use vstd::prelude::*;
use std::io::Write;
use crate::parser::{parse, Instruction, OpCode, ParseError, balanced, depth_ok, tokens_of};

verus! {

/// A fatal run-time fault: these abort the walk with no recovery path.
#[derive(Debug, Clone, Copy, PartialEq, Eq, Structural)]
pub enum RuntimeFault {
    /// The pointer was moved outside the tape.
    PointerOutOfBounds,
    /// A `Query` opcode ran with no interactive input source attached.
    NoInputSource,
    /// The caller-supplied budget of loop passes ran out.
    StepLimit,
}

/// Everything `evaluate` can fail with: a parse-time fault, surfaced
/// before any execution, or a fatal run-time fault.
#[derive(Debug, Clone, Copy, PartialEq, Eq, Structural)]
pub enum EvalError {
    Parse(ParseError),
    Fault(RuntimeFault),
}

/// Performs the socket operations behind the networking opcodes.  None of
/// its methods carries a contract: the engine's own contracts hold for
/// every outcome an implementation returns.  The process-level
/// implementation backs this trait with real TCP sockets.
pub trait NetIo {
    /// Attempts a TCP connection to IPv4 address `a.b.c.d` on `port`, with
    /// `timeout_ms` applied to reads and writes (`None`: block forever);
    /// reports whether a connection was opened and appended to the table.
    fn connect(&mut self, a: u8, b: u8, c: u8, d: u8, port: u16, timeout_ms: Option<u64>) -> bool;

    /// Attempts to shut down both directions of connection `handle`.
    fn shutdown(&mut self, handle: usize) -> bool;

    /// Writes `data` in full to connection `handle` and flushes it.
    fn send(&mut self, handle: usize, data: &Vec<u8>) -> bool;

    /// Blocking-reads exactly `amount` bytes from connection `handle`.
    fn receive(&mut self, handle: usize, amount: usize) -> Option<Vec<u8>>;
}

/// A network on which every operation fails: connections are refused,
/// nothing is sent and nothing arrives.
pub struct NoNet;

impl NetIo for NoNet {
    fn connect(&mut self, a: u8, b: u8, c: u8, d: u8, port: u16, timeout_ms: Option<u64>) -> bool {
        false
    }

    fn shutdown(&mut self, handle: usize) -> bool {
        false
    }

    fn send(&mut self, handle: usize, data: &Vec<u8>) -> bool {
        false
    }

    fn receive(&mut self, handle: usize, amount: usize) -> Option<Vec<u8>> {
        None
    }
}

/// The execution engine's state: the tape of wraparound 32-bit cells, the
/// pointer, the connection table (whose entries live with the caller's
/// [`NetIo`]; the engine keeps its length), and the transient networking
/// configuration.
pub struct Environment {
    pub tape: Vec<i32>,
    pub connections: usize,
    pub socket_handle_counter: u16,
    pub write_buffer: Vec<u8>,
    pub handle: Option<usize>,
    pub timeout_ms: Option<u64>,
    pub port: Option<u16>,
    pub ptr: usize,
}

/// The signed 32-bit value whose two's-complement bits are `n mod 2^32`.
pub open spec fn trunc32(n: int) -> i32 {
    let m = n % 0x1_0000_0000;
    if m > i32::MAX {
        (m - 0x1_0000_0000) as i32
    } else {
        m as i32
    }
}

/// 32-bit wraparound addition.
pub open spec fn wrap_add(x: i32, y: i32) -> i32 {
    if x + y > i32::MAX {
        (x + y - 0x1_0000_0000) as i32
    } else if x + y < i32::MIN {
        (x + y + 0x1_0000_0000) as i32
    } else {
        (x + y) as i32
    }
}

/// 32-bit wraparound subtraction.
pub open spec fn wrap_sub(x: i32, y: i32) -> i32 {
    if x - y > i32::MAX {
        (x - y - 0x1_0000_0000) as i32
    } else if x - y < i32::MIN {
        (x - y + 0x1_0000_0000) as i32
    } else {
        (x - y) as i32
    }
}

/// The cell value a read character stores: its code point.
pub open spec fn char_code(c: char) -> i32 {
    trunc32(c as u32 as int)
}

/// The unsigned value of a cell's two's-complement bits.
pub open spec fn cell_bits(v: i32) -> int {
    if v >= 0 {
        v as int
    } else {
        v + 0x1_0000_0000
    }
}

/// A cell's four bytes in little-endian order.
pub open spec fn le_bytes_of(v: i32) -> Seq<u8> {
    seq![
        (cell_bits(v) % 256) as u8,
        ((cell_bits(v) / 256) % 256) as u8,
        ((cell_bits(v) / 65536) % 256) as u8,
        ((cell_bits(v) / 16777216) % 256) as u8,
    ]
}

/// What `SendData` appends for a cell value and a repeat count: the low
/// `amount` bytes in little-endian order, or, past four, the single lowest
/// byte repeated `amount` times.
pub open spec fn send_bytes(v: i32, amount: nat) -> Seq<u8> {
    if amount > 4 {
        Seq::new(amount, |k: int| le_bytes_of(v)[0])
    } else {
        le_bytes_of(v).take(amount as int)
    }
}

/// What `RecieveData` stores for a received buffer: the buffer right-padded
/// with zero bytes up to four, then its last four bytes read little-endian
/// as a 32-bit value.
pub open spec fn received_value(bytes: Seq<u8>) -> i32 {
    let padded = if bytes.len() < 4 {
        bytes + Seq::new((4 - bytes.len()) as nat, |k: int| 0u8)
    } else {
        bytes
    };
    let last4 = padded.skip(padded.len() - 4);
    trunc32(last4[0] + last4[1] * 256 + last4[2] * 65536 + last4[3] * 16777216)
}

impl Environment {
    /// The engine's structural invariant: the pointer is on the tape and
    /// the handle counter mirrors the connection table's length.
    pub open spec fn wf(self) -> bool {
        &&& self.ptr < self.tape@.len()
        &&& self.connections == self.socket_handle_counter as int
    }

    /// The tape cell under the pointer.
    pub open spec fn cell(self) -> i32 {
        self.tape@[self.ptr as int]
    }

    /// No connection is selected, or the selected index is outside the
    /// table: every networking opcode writes the sentinel in this state.
    pub open spec fn handle_invalid(self) -> bool {
        match self.handle {
            None => true,
            Some(h) => h >= self.connections,
        }
    }
}

/// All state except the cell under `pre`'s pointer is unchanged.
pub open spec fn frame_except_cell(pre: Environment, post: Environment) -> bool {
    &&& post.tape@ == pre.tape@.update(pre.ptr as int, post.tape@[pre.ptr as int])
    &&& post.ptr == pre.ptr
    &&& post.connections == pre.connections
    &&& post.socket_handle_counter == pre.socket_handle_counter
    &&& post.write_buffer@ == pre.write_buffer@
    &&& post.handle == pre.handle
    &&& post.timeout_ms == pre.timeout_ms
    &&& post.port == pre.port
}

/// Exactly `val` was written to the cell under the pointer; nothing else
/// changed.
pub open spec fn cell_write(pre: Environment, post: Environment, val: i32) -> bool {
    &&& post.tape@ == pre.tape@.update(pre.ptr as int, val)
    &&& frame_except_cell(pre, post)
}

/// The sentinel convention: exactly `-1` was written to the current cell
/// and no other observable effect was performed.
pub open spec fn sentinel_post(pre: Environment, post: Environment) -> bool {
    cell_write(pre, post, -1i32)
}

/// The engine state that the self-contained opcodes read and write: every
/// field of the engine except the handle counter, which `wf` ties to the
/// connection count.
#[verifier::ext_equal]
pub struct EngineState {
    pub tape: Seq<i32>,
    pub ptr: int,
    pub connections: int,
    pub write_buffer: Seq<u8>,
    pub handle: Option<int>,
    pub timeout_ms: Option<u64>,
    pub port: Option<u16>,
}

impl EngineState {
    /// The tape cell under the pointer.
    pub open spec fn cell(self) -> i32 {
        self.tape[self.ptr]
    }

    /// No connection is selected, or the selected index is outside the
    /// table.
    pub open spec fn handle_invalid(self) -> bool {
        match self.handle {
            None => true,
            Some(h) => h >= self.connections,
        }
    }
}

impl Environment {
    /// This engine's state as the spec-level interpreter sees it.
    pub open spec fn state(self) -> EngineState {
        EngineState {
            tape: self.tape@,
            ptr: self.ptr as int,
            connections: self.connections as int,
            write_buffer: self.write_buffer@,
            handle: match self.handle {
                Some(h) => Some(h as int),
                None => None,
            },
            timeout_ms: self.timeout_ms,
            port: self.port,
        }
    }
}

/// An instruction whose whole effect the engine determines alone: no
/// keyboard read (`Query`) and no socket operation (`Connect`,
/// `Disconnect`, `FlushWrites`, `RecieveData`), down through loop bodies.
pub open spec fn deterministic_inst(inst: Instruction) -> bool
    decreases inst,
{
    match inst.opcode {
        OpCode::Query => false,
        OpCode::Connect => false,
        OpCode::Disconnect => false,
        OpCode::FlushWrites => false,
        OpCode::RecieveData => false,
        OpCode::Loop => deterministic_list(inst.instructions@),
        _ => true,
    }
}

/// A list of instructions whose whole effect the engine determines alone.
pub open spec fn deterministic_list(l: Seq<Instruction>) -> bool
    decreases l,
{
    l.len() == 0 || (deterministic_inst(l[0]) && deterministic_list(l.drop_first()))
}

/// What a spec-level run yields: the result, the engine state after, and
/// the remaining budget of loop passes.
#[verifier::ext_equal]
pub struct RunOutcome {
    pub result: Result<(), RuntimeFault>,
    pub state: EngineState,
    pub fuel: u64,
}

/// The smaller of two budgets.  A run never hands back more budget than it
/// was given; the cap makes that plain to the termination checker.
pub open spec fn fuel_cap(a: u64, b: u64) -> u64 {
    if a < b {
        a
    } else {
        b
    }
}

/// One step of a self-contained non-loop opcode: the result and the
/// engine state after, per the engine's opcode table.
pub open spec fn step_inst(s: EngineState, inst: Instruction) -> (Result<(), RuntimeFault>, EngineState) {
    match inst.opcode {
        OpCode::Left => if inst.amount <= s.ptr {
            (Ok(()), EngineState { ptr: s.ptr - inst.amount, ..s })
        } else {
            (Err(RuntimeFault::PointerOutOfBounds), s)
        },
        OpCode::Right => if s.ptr + inst.amount < s.tape.len() {
            (Ok(()), EngineState { ptr: s.ptr + inst.amount, ..s })
        } else {
            (Err(RuntimeFault::PointerOutOfBounds), s)
        },
        OpCode::Inc => (
            Ok(()),
            EngineState {
                tape: s.tape.update(s.ptr, wrap_add(s.cell(), trunc32(inst.amount as int))),
                ..s
            },
        ),
        OpCode::Dec => (
            Ok(()),
            EngineState {
                tape: s.tape.update(s.ptr, wrap_sub(s.cell(), trunc32(inst.amount as int))),
                ..s
            },
        ),
        OpCode::Print => (Ok(()), s),
        OpCode::SetPort => if s.cell() < 0 {
            (Ok(()), EngineState { tape: s.tape.update(s.ptr, -1i32), ..s })
        } else {
            (Ok(()), EngineState { port: Some((s.cell() % 65535) as u16), ..s })
        },
        OpCode::SocketHandle => if 0 <= s.cell() && s.cell() < s.connections {
            (Ok(()), EngineState { handle: Some(s.cell() as int), ..s })
        } else {
            (Ok(()), EngineState { tape: s.tape.update(s.ptr, -1i32), ..s })
        },
        OpCode::SetTimeout => if s.cell() <= 0 {
            (Ok(()), EngineState { timeout_ms: None, ..s })
        } else {
            (Ok(()), EngineState { timeout_ms: Some(s.cell() as u64), ..s })
        },
        OpCode::SendData => if s.handle_invalid() {
            (Ok(()), EngineState { tape: s.tape.update(s.ptr, -1i32), ..s })
        } else {
            (
                Ok(()),
                EngineState {
                    write_buffer: s.write_buffer + send_bytes(s.cell(), inst.amount as nat),
                    ..s
                },
            )
        },
        _ => (Ok(()), s),
    }
}

/// The spec-level interpreter for one self-contained instruction: a
/// non-loop opcode is one `step_inst` step; `Loop` iterates its body while
/// the current cell is nonzero, spending one unit of budget per pass.
#[verifier::opaque]
pub open spec fn run_inst(s: EngineState, inst: Instruction, fuel: u64) -> RunOutcome
    decreases fuel, inst,
{
    if inst.opcode == OpCode::Loop {
        if s.cell() == 0 {
            RunOutcome { result: Ok(()), state: s, fuel }
        } else if fuel == 0 {
            RunOutcome { result: Err(RuntimeFault::StepLimit), state: s, fuel }
        } else {
            let o = run_list(s, inst.instructions@, (fuel - 1) as u64);
            if o.result is Err {
                o
            } else {
                run_inst(o.state, inst, fuel_cap(o.fuel, (fuel - 1) as u64))
            }
        }
    } else {
        let stepped = step_inst(s, inst);
        RunOutcome { result: stepped.0, state: stepped.1, fuel }
    }
}

/// The spec-level interpreter for an instruction list: the instructions in
/// order, stopping at the first fault.
#[verifier::opaque]
pub open spec fn run_list(s: EngineState, l: Seq<Instruction>, fuel: u64) -> RunOutcome
    decreases fuel, l,
{
    if l.len() == 0 {
        RunOutcome { result: Ok(()), state: s, fuel }
    } else {
        let o = run_inst(s, l[0], fuel);
        if o.result is Err {
            o
        } else {
            run_list(o.state, l.drop_first(), fuel_cap(o.fuel, fuel))
        }
    }
}

/// A non-loop instruction is one step, with the budget untouched.
proof fn lemma_run_step(s: EngineState, inst: Instruction, f: u64)
    requires
        inst.opcode != OpCode::Loop,
    ensures
        run_inst(s, inst, f) == (RunOutcome {
            result: step_inst(s, inst).0,
            state: step_inst(s, inst).1,
            fuel: f,
        }),
{
    reveal_with_fuel(run_inst, 1);
}

/// A `Loop` whose first iteration check reads zero does nothing.
proof fn lemma_run_loop_zero(s: EngineState, inst: Instruction, f: u64)
    requires
        inst.opcode == OpCode::Loop,
        s.cell() == 0,
    ensures
        run_inst(s, inst, f) == (RunOutcome { result: Ok(()), state: s, fuel: f }),
{
    reveal_with_fuel(run_inst, 1);
}

/// A `Loop` whose cell is nonzero with no budget left stops with
/// `StepLimit`.
proof fn lemma_run_loop_spent(s: EngineState, inst: Instruction, f: u64)
    requires
        inst.opcode == OpCode::Loop,
        s.cell() != 0,
        f == 0,
    ensures
        run_inst(s, inst, f) == (RunOutcome {
            result: Err(RuntimeFault::StepLimit),
            state: s,
            fuel: f,
        }),
{
    reveal_with_fuel(run_inst, 1);
}

/// One pass of a `Loop` with a nonzero cell: the body runs on one unit
/// less of budget, and the loop continues from the body's outcome.
#[verifier::rlimit(100)]
proof fn lemma_run_loop_step(s: EngineState, inst: Instruction, f: u64)
    requires
        inst.opcode == OpCode::Loop,
        s.cell() != 0,
        f >= 1,
    ensures
        ({
            let o = run_list(s, inst.instructions@, (f - 1) as u64);
            run_inst(s, inst, f) == if o.result is Err {
                o
            } else {
                run_inst(o.state, inst, fuel_cap(o.fuel, (f - 1) as u64))
            }
        }),
{
    reveal_with_fuel(run_inst, 1);
    reveal_with_fuel(run_list, 1);
    let o = run_list(s, inst.instructions@, (f - 1) as u64);
    if o.result is Err {
        assert(run_inst(s, inst, f) == o);
    } else {
        assert(run_inst(s, inst, f) == run_inst(o.state, inst, fuel_cap(o.fuel, (f - 1) as u64)));
    }
}

/// An empty instruction list does nothing.
proof fn lemma_run_list_nil(s: EngineState, l: Seq<Instruction>, f: u64)
    requires
        l.len() == 0,
    ensures
        run_list(s, l, f) == (RunOutcome { result: Ok(()), state: s, fuel: f }),
{
    reveal_with_fuel(run_list, 1);
}

/// A nonempty list runs its first instruction and continues from its
/// outcome, stopping at a fault.
#[verifier::rlimit(100)]
proof fn lemma_run_list_cons(s: EngineState, l: Seq<Instruction>, f: u64)
    requires
        l.len() > 0,
    ensures
        ({
            let o = run_inst(s, l[0], f);
            run_list(s, l, f) == if o.result is Err {
                o
            } else {
                run_list(o.state, l.drop_first(), fuel_cap(o.fuel, f))
            }
        }),
{
    reveal_with_fuel(run_list, 1);
    reveal_with_fuel(run_inst, 1);
    let o = run_inst(s, l[0], f);
    if o.result is Err {
        assert(run_list(s, l, f) == o);
    } else {
        assert(run_list(s, l, f) == run_list(o.state, l.drop_first(), fuel_cap(o.fuel, f)));
    }
}

/// Everything except the pointer is unchanged, and the pointer is `p`.
pub open spec fn ptr_move(pre: Environment, post: Environment, p: int) -> bool {
    &&& post.ptr == p
    &&& post.tape@ == pre.tape@
    &&& post.connections == pre.connections
    &&& post.socket_handle_counter == pre.socket_handle_counter
    &&& post.write_buffer@ == pre.write_buffer@
    &&& post.handle == pre.handle
    &&& post.timeout_ms == pre.timeout_ms
    &&& post.port == pre.port
}

/// The tape, pointer, connection count and counter, handle and write
/// buffer are unchanged (the opcodes that only touch configuration).
pub open spec fn config_frame(pre: Environment, post: Environment) -> bool {
    &&& post.tape@ == pre.tape@
    &&& post.ptr == pre.ptr
    &&& post.connections == pre.connections
    &&& post.socket_handle_counter == pre.socket_handle_counter
    &&& post.write_buffer@ == pre.write_buffer@
    &&& post.handle == pre.handle
}

/// Relies on std::io::Stdout and the write! macro: writes one character
/// to standard output.
#[verifier::external_body]
fn write_stdout_char(c: char) {
    let mut out = std::io::stdout();
    let _ = write!(out, "{}", c);
}

/// Relies on std::io::Stdout::flush: flushes standard output.
#[verifier::external_body]
fn flush_stdout() {
    let _ = std::io::stdout().flush();
}

/// Relies on console::Term::read_char: blocks for one character of
/// interactive keyboard input; `None` when the terminal is not user
/// attended.
#[verifier::external_body]
fn read_console_char() -> (r: Option<char>) {
    console::Term::stdout().read_char().ok()
}

/// The low 32 bits of `amount`, reinterpreted as a signed cell value.
fn amount_to_i32(amount: usize) -> (d: i32)
    ensures
        d == trunc32(amount as int),
{
    let low: u64 = (amount as u64) % 0x1_0000_0000;
    if low <= 0x7fff_ffff {
        low as i32
    } else {
        ((low - 0x8000_0000) as i32) - 0x7fff_ffff - 1
    }
}

/// A cell value's two's-complement bits as an unsigned word.
fn cell_to_bits(v: i32) -> (u: u32)
    ensures
        u as int == cell_bits(v),
{
    if v >= 0 {
        v as u32
    } else {
        (((v + 0x7fff_ffff) + 1) as u32) + 0x8000_0000
    }
}

/// An unsigned word reinterpreted as a signed cell value.
fn bits_to_cell(u: u32) -> (v: i32)
    ensures
        v == trunc32(u as int),
{
    if u <= 0x7fff_ffff {
        u as i32
    } else {
        ((u - 0x8000_0000) as i32) - 0x7fff_ffff - 1
    }
}

impl Environment {
    /// A fresh engine: a zeroed tape of `tape_size` cells, pointer at 0,
    /// no connections, an empty write buffer, no handle or port selected,
    /// and the default timeout of 1000 milliseconds.
    pub fn new(tape_size: usize) -> (r: Environment)
        requires
            tape_size >= 1,
        ensures
            r.wf(),
            r.tape@ == Seq::new(tape_size as nat, |i: int| 0i32),
            r.ptr == 0,
            r.connections == 0,
            r.socket_handle_counter == 0,
            r.write_buffer@ == Seq::<u8>::empty(),
            r.handle is None,
            r.port is None,
            r.timeout_ms == Some(1000u64),
    {
        let mut tape: Vec<i32> = Vec::new();
        proof {
            assert(tape@ =~= Seq::new(0nat, |k: int| 0i32));
        }
        let mut i: usize = 0;
        while i < tape_size
            invariant
                i <= tape_size,
                tape@ == Seq::new(i as nat, |k: int| 0i32),
            decreases tape_size - i,
        {
            tape.push(0i32);
            proof {
                assert(tape@ =~= Seq::new((i + 1) as nat, |k: int| 0i32));
            }
            i = i + 1;
        }
        Environment {
            tape,
            connections: 0,
            socket_handle_counter: 0,
            write_buffer: Vec::new(),
            handle: None,
            timeout_ms: Some(1000),
            port: None,
            ptr: 0,
        }
    }

    /// Whether the selected handle indexes the connection table.
    fn handle_ok(&self) -> (r: bool)
        ensures
            r == !self.handle_invalid(),
    {
        match self.handle {
            Some(h) => h < self.connections,
            None => false,
        }
    }

    /// The selected handle's index.
    fn handle_value(&self) -> (h: usize)
        requires
            !self.handle_invalid(),
        ensures
            self.handle == Some(h),
            h < self.connections,
    {
        match self.handle {
            Some(h) => h,
            None => 0,
        }
    }

    /// Whether a `Loop` keeps running: the cell under the pointer is
    /// nonzero at the start of an iteration check.
    pub fn cell_nonzero(&self) -> (r: bool)
        requires
            self.wf(),
        ensures
            r == (self.cell() != 0),
    {
        self.tape[self.ptr] != 0
    }

    /// `Left`: moves the pointer left by `amount`.  Moving outside the
    /// tape is a fatal fault; the walk rules it out before calling.
    pub fn op_left(&mut self, amount: usize)
        requires
            old(self).wf(),
            amount <= old(self).ptr,
        ensures
            final(self).wf(),
            ptr_move(*old(self), *final(self), old(self).ptr - amount),
    {
        self.ptr = self.ptr - amount;
    }

    /// `Right`: moves the pointer right by `amount`.  Moving outside the
    /// tape is a fatal fault; the walk rules it out before calling.
    pub fn op_right(&mut self, amount: usize)
        requires
            old(self).wf(),
            old(self).ptr + amount < old(self).tape@.len(),
        ensures
            final(self).wf(),
            ptr_move(*old(self), *final(self), old(self).ptr + amount),
    {
        let len = self.tape.len();
        self.ptr = self.ptr + amount;
        assert(self.ptr < len);
    }

    /// `Inc`: adds `amount` to the current cell with 32-bit wraparound.
    pub fn op_inc(&mut self, amount: usize)
        requires
            old(self).wf(),
        ensures
            final(self).wf(),
            cell_write(
                *old(self),
                *final(self),
                wrap_add(old(self).cell(), trunc32(amount as int)),
            ),
    {
        let d = amount_to_i32(amount);
        let v = self.tape[self.ptr];
        let nv = v.wrapping_add(d);
        self.tape.set(self.ptr, nv);
    }

    /// `Dec`: subtracts `amount` from the current cell with 32-bit
    /// wraparound.
    pub fn op_dec(&mut self, amount: usize)
        requires
            old(self).wf(),
        ensures
            final(self).wf(),
            cell_write(
                *old(self),
                *final(self),
                wrap_sub(old(self).cell(), trunc32(amount as int)),
            ),
    {
        let d = amount_to_i32(amount);
        let v = self.tape[self.ptr];
        let nv = v.wrapping_sub(d);
        self.tape.set(self.ptr, nv);
    }

    /// `Print`: writes the character of the current cell's value modulo
    /// 256, `amount` times, to standard output, and flushes it.
    pub fn op_print(&self, amount: usize)
        requires
            self.wf(),
    {
        let u = cell_to_bits(self.tape[self.ptr]);
        let b = (u % 256) as u8;
        let c = b as char;
        let mut n: usize = 0;
        while n < amount
            decreases amount - n,
        {
            write_stdout_char(c);
            n = n + 1;
        }
        flush_stdout();
    }

    /// `Query`: reads `amount` characters of interactive input, each one
    /// overwriting the current cell with its character code; fails when no
    /// interactive input source is attached.
    pub fn op_query(&mut self, amount: usize) -> (r: Result<(), RuntimeFault>)
        requires
            old(self).wf(),
        ensures
            final(self).wf(),
            frame_except_cell(*old(self), *final(self)),
            amount == 0 ==> r is Ok && *final(self) == *old(self),
            r is Err ==> r == Result::<(), RuntimeFault>::Err(RuntimeFault::NoInputSource),
            amount >= 1 && r is Ok ==> exists|c: char| final(self).cell() == char_code(c),
    {
        proof {
            assert(old(self).tape@ =~= old(self).tape@.update(
                old(self).ptr as int,
                old(self).tape@[old(self).ptr as int],
            ));
        }
        let mut n: usize = 0;
        while n < amount
            invariant
                n <= amount,
                old(self).wf(),
                self.wf(),
                frame_except_cell(*old(self), *self),
                n == 0 ==> *self == *old(self),
                n >= 1 ==> exists|c: char| self.cell() == char_code(c),
            decreases amount - n,
        {
            let ghost pre = *self;
            match read_console_char() {
                Some(c) => {
                    let v = bits_to_cell(c as u32);
                    self.tape.set(self.ptr, v);
                    proof {
                        assert(self.cell() == char_code(c));
                        assert(pre.tape@ == old(self).tape@.update(
                            old(self).ptr as int,
                            pre.tape@[old(self).ptr as int],
                        ));
                        assert(self.tape@ == pre.tape@.update(pre.ptr as int, v));
                        assert(self.tape@ =~= old(self).tape@.update(
                            old(self).ptr as int,
                            v,
                        ));
                    }
                },
                None => {
                    return Err(RuntimeFault::NoInputSource);
                },
            }
            n = n + 1;
        }
        Ok(())
    }

    /// `SetPort`: a negative cell is an error (the sentinel is written and
    /// the port is left as it was); otherwise the port becomes the cell's
    /// value modulo 65535 and the cell is unchanged.
    pub fn op_set_port(&mut self)
        requires
            old(self).wf(),
        ensures
            final(self).wf(),
            old(self).cell() < 0 ==> sentinel_post(*old(self), *final(self)),
            old(self).cell() >= 0 ==> config_frame(*old(self), *final(self)) && final(self).port
                == Some((old(self).cell() % 65535) as u16) && final(self).timeout_ms == old(self).timeout_ms,
    {
        let v = self.tape[self.ptr];
        if v < 0 {
            self.tape.set(self.ptr, -1);
        } else {
            let p = ((v as u32) % 65535) as u16;
            self.port = Some(p);
        }
    }

    /// `SocketHandle`: selects the cell's value as the current handle when
    /// it indexes the connection table; otherwise writes the sentinel.
    pub fn op_socket_handle(&mut self)
        requires
            old(self).wf(),
        ensures
            final(self).wf(),
            (old(self).cell() < 0 || old(self).cell() as int >= old(self).connections)
                ==> sentinel_post(*old(self), *final(self)),
            (0 <= old(self).cell() && (old(self).cell() as int) < old(self).connections) ==> ({
                &&& final(self).handle == Some(old(self).cell() as usize)
                &&& final(self).tape@ == old(self).tape@
                &&& final(self).ptr == old(self).ptr
                &&& final(self).connections == old(self).connections
                &&& final(self).socket_handle_counter == old(self).socket_handle_counter
                &&& final(self).write_buffer@ == old(self).write_buffer@
                &&& final(self).timeout_ms == old(self).timeout_ms
                &&& final(self).port == old(self).port
            }),
    {
        let v = self.tape[self.ptr];
        if v >= 0 && (v as usize) < self.connections {
            self.handle = Some(v as usize);
        } else {
            self.tape.set(self.ptr, -1);
        }
    }

    /// `SetTimeout`: a non-positive cell disables the timeout (block
    /// indefinitely); a positive cell becomes the timeout in milliseconds.
    /// Applies only to connections created afterward.
    pub fn op_set_timeout(&mut self)
        requires
            old(self).wf(),
        ensures
            final(self).wf(),
            config_frame(*old(self), *final(self)),
            final(self).port == old(self).port,
            old(self).cell() <= 0 ==> final(self).timeout_ms is None,
            old(self).cell() > 0 ==> final(self).timeout_ms == Some(old(self).cell() as u64),
    {
        let v = self.tape[self.ptr];
        if v <= 0 {
            self.timeout_ms = None;
        } else {
            self.timeout_ms = Some(v as u64);
        }
    }

    /// `SendData`: with a valid handle, appends the current cell's bytes
    /// to the pending write buffer (nothing is transmitted yet); with an
    /// invalid handle, writes the sentinel.
    pub fn op_send_data(&mut self, amount: usize)
        requires
            old(self).wf(),
        ensures
            final(self).wf(),
            old(self).handle_invalid() ==> sentinel_post(*old(self), *final(self)),
            !old(self).handle_invalid() ==> ({
                &&& final(self).write_buffer@ == old(self).write_buffer@ + send_bytes(
                    old(self).cell(),
                    amount as nat,
                )
                &&& final(self).tape@ == old(self).tape@
                &&& final(self).ptr == old(self).ptr
                &&& final(self).connections == old(self).connections
                &&& final(self).socket_handle_counter == old(self).socket_handle_counter
                &&& final(self).handle == old(self).handle
                &&& final(self).timeout_ms == old(self).timeout_ms
                &&& final(self).port == old(self).port
            }),
    {
        if !self.handle_ok() {
            self.tape.set(self.ptr, -1);
            return ;
        }
        let u = cell_to_bits(self.tape[self.ptr]);
        let b0 = (u % 256) as u8;
        if amount > 4 {
            let ghost base = self.write_buffer@;
            let mut n: usize = 0;
            while n < amount
                invariant
                    n <= amount,
                    old(self).wf(),
                    self.wf(),
                    base == old(self).write_buffer@,
                    self.write_buffer@ == base + Seq::new(n as nat, |k: int| b0),
                    self.tape@ == old(self).tape@,
                    self.ptr == old(self).ptr,
                    self.connections == old(self).connections,
                    self.socket_handle_counter == old(self).socket_handle_counter,
                    self.handle == old(self).handle,
                    self.timeout_ms == old(self).timeout_ms,
                    self.port == old(self).port,
                decreases amount - n,
            {
                self.write_buffer.push(b0);
                proof {
                    assert(self.write_buffer@ =~= base + Seq::new((n + 1) as nat, |k: int| b0));
                }
                n = n + 1;
            }
            proof {
                assert(Seq::new(amount as nat, |k: int| b0) =~= send_bytes(
                    old(self).cell(),
                    amount as nat,
                ));
            }
        } else {
            let b1 = ((u / 256) % 256) as u8;
            let b2 = ((u / 65536) % 256) as u8;
            let b3 = ((u / 16777216) % 256) as u8;
            if amount >= 1 {
                self.write_buffer.push(b0);
            }
            if amount >= 2 {
                self.write_buffer.push(b1);
            }
            if amount >= 3 {
                self.write_buffer.push(b2);
            }
            if amount >= 4 {
                self.write_buffer.push(b3);
            }
            proof {
                assert(self.write_buffer@ =~= old(self).write_buffer@ + send_bytes(
                    old(self).cell(),
                    amount as nat,
                ));
            }
        }
    }

    /// `RecieveData`'s store step: the received buffer is right-padded
    /// with zero bytes up to four; its last four bytes, read little-endian,
    /// become the new value of the current cell.
    pub fn store_received(&mut self, bytes: &Vec<u8>)
        requires
            old(self).wf(),
        ensures
            final(self).wf(),
            cell_write(*old(self), *final(self), received_value(bytes@)),
    {
        let l = bytes.len();
        let b0: u8 = if l >= 4 {
            bytes[l - 4]
        } else if l >= 1 {
            bytes[0]
        } else {
            0
        };
        let b1: u8 = if l >= 4 {
            bytes[l - 3]
        } else if l >= 2 {
            bytes[1]
        } else {
            0
        };
        let b2: u8 = if l >= 4 {
            bytes[l - 2]
        } else if l >= 3 {
            bytes[2]
        } else {
            0
        };
        let b3: u8 = if l >= 4 {
            bytes[l - 1]
        } else {
            0
        };
        let u: u32 = (b0 as u32) + (b1 as u32) * 256 + (b2 as u32) * 65536 + (b3 as u32)
            * 16777216;
        let v = bits_to_cell(u);
        proof {
            let padded = if bytes@.len() < 4 {
                bytes@ + Seq::new((4 - bytes@.len()) as nat, |k: int| 0u8)
            } else {
                bytes@
            };
            let last4 = padded.skip(padded.len() - 4);
            assert(last4[0] == b0 && last4[1] == b1 && last4[2] == b2 && last4[3] == b3);
        }
        self.tape.set(self.ptr, v);
    }

    /// `Connect`: with no port set, writes the sentinel.  Otherwise reads
    /// the cell's four big-endian bytes as an IPv4 address and asks the
    /// network for a connection with the current timeout.  On success the
    /// connection joins the table and the next handle number is written to
    /// the cell; on failure (a full handle table included) the sentinel is
    /// written.
    pub fn op_connect<N: NetIo>(&mut self, net: &mut N)
        requires
            old(self).wf(),
        ensures
            final(self).wf(),
            old(self).port is None ==> sentinel_post(*old(self), *final(self)),
            old(self).port is Some ==> sentinel_post(*old(self), *final(self)) || ({
                &&& final(self).connections == old(self).connections + 1
                &&& final(self).socket_handle_counter == old(self).socket_handle_counter + 1
                &&& final(self).tape@ == old(self).tape@.update(
                    old(self).ptr as int,
                    old(self).socket_handle_counter as i32,
                )
                &&& final(self).ptr == old(self).ptr
                &&& final(self).write_buffer@ == old(self).write_buffer@
                &&& final(self).handle == old(self).handle
                &&& final(self).timeout_ms == old(self).timeout_ms
                &&& final(self).port == old(self).port
            }),
    {
        let port = match self.port {
            Some(p) => p,
            None => {
                self.tape.set(self.ptr, -1);
                return ;
            },
        };
        if self.socket_handle_counter == 0xffff {
            self.tape.set(self.ptr, -1);
            return ;
        }
        let u = cell_to_bits(self.tape[self.ptr]);
        let a = ((u / 16777216) % 256) as u8;
        let b = ((u / 65536) % 256) as u8;
        let c = ((u / 256) % 256) as u8;
        let d = (u % 256) as u8;
        if net.connect(a, b, c, d, port, self.timeout_ms) {
            let h = self.socket_handle_counter;
            self.tape.set(self.ptr, h as i32);
            self.socket_handle_counter = h + 1;
            self.connections = self.connections + 1;
        } else {
            self.tape.set(self.ptr, -1);
        }
    }

    /// `Disconnect`: with an invalid handle, writes the sentinel.
    /// Otherwise attempts to shut the connection down; on failure the
    /// sentinel is written, on success the cell is left unchanged.  The
    /// table entry is never removed.
    pub fn op_disconnect<N: NetIo>(&mut self, net: &mut N)
        requires
            old(self).wf(),
        ensures
            final(self).wf(),
            old(self).handle_invalid() ==> sentinel_post(*old(self), *final(self)),
            !old(self).handle_invalid() ==> *final(self) == *old(self) || sentinel_post(
                *old(self),
                *final(self),
            ),
    {
        if !self.handle_ok() {
            self.tape.set(self.ptr, -1);
            return ;
        }
        let h = self.handle_value();
        if !net.shutdown(h) {
            self.tape.set(self.ptr, -1);
        }
    }

    /// `FlushWrites`: with a valid handle, writes the whole pending buffer
    /// to the connection and clears the buffer whatever the outcome,
    /// writing the sentinel on failure; with an invalid handle, writes the
    /// sentinel and leaves the buffer as it is.
    pub fn op_flush_writes<N: NetIo>(&mut self, net: &mut N)
        requires
            old(self).wf(),
        ensures
            final(self).wf(),
            old(self).handle_invalid() ==> sentinel_post(*old(self), *final(self)),
            !old(self).handle_invalid() ==> ({
                &&& final(self).write_buffer@ == Seq::<u8>::empty()
                &&& (final(self).tape@ == old(self).tape@ || final(self).tape@ == old(self).tape@.update(old(self).ptr as int, -1i32))
                &&& final(self).ptr == old(self).ptr
                &&& final(self).connections == old(self).connections
                &&& final(self).socket_handle_counter == old(self).socket_handle_counter
                &&& final(self).handle == old(self).handle
                &&& final(self).timeout_ms == old(self).timeout_ms
                &&& final(self).port == old(self).port
            }),
    {
        if !self.handle_ok() {
            self.tape.set(self.ptr, -1);
            return ;
        }
        let h = self.handle_value();
        if !net.send(h, &self.write_buffer) {
            self.tape.set(self.ptr, -1);
        }
        self.write_buffer = Vec::new();
    }

    /// `RecieveData`: with a valid handle, blocking-reads exactly `amount`
    /// bytes and stores them as `store_received` says, writing the
    /// sentinel when the read fails; with an invalid handle, writes the
    /// sentinel.
    pub fn op_receive<N: NetIo>(&mut self, amount: usize, net: &mut N)
        requires
            old(self).wf(),
        ensures
            final(self).wf(),
            old(self).handle_invalid() ==> sentinel_post(*old(self), *final(self)),
            !old(self).handle_invalid() ==> frame_except_cell(*old(self), *final(self)),
    {
        if !self.handle_ok() {
            self.tape.set(self.ptr, -1);
            return ;
        }
        let h = self.handle_value();
        match net.receive(h, amount) {
            None => {
                self.tape.set(self.ptr, -1);
            },
            Some(bytes) => {
                self.store_received(&bytes);
            },
        }
    }
}

/// Arithmetic wraparound at the boundaries: one above the maximum cell
/// value wraps to the minimum, and one below the minimum wraps back to
/// the maximum.
pub proof fn lemma_wraparound_boundary()
    ensures
        wrap_add(i32::MAX, 1) == i32::MIN,
        wrap_sub(i32::MIN, 1) == i32::MAX,
{
}

impl Environment {
    /// The `Loop` opcode: repeats the body while the current cell is
    /// nonzero, spending one unit of `fuel` per pass.  A normal return
    /// means the final iteration check saw a zero cell.
    fn run_loop<N: NetIo>(
        &mut self,
        instruction: &Instruction,
        net: &mut N,
        fuel: &mut u64,
    ) -> (r: Result<(), RuntimeFault>)
        requires
            old(self).wf(),
            instruction.opcode == OpCode::Loop,
        ensures
            final(self).wf(),
            final(self).tape@.len() == old(self).tape@.len(),
            old(self).connections <= final(self).connections,
            *final(fuel) <= *old(fuel),
            r is Ok ==> final(self).cell() == 0,
            old(self).cell() == 0 ==> r is Ok && *final(self) == *old(self),
            old(self).cell() != 0 && r is Ok ==> *final(fuel) < *old(fuel),
            deterministic_inst(*instruction) ==> ({
                let o = run_inst(old(self).state(), *instruction, *old(fuel));
                &&& r == o.result
                &&& final(self).state() == o.state
                &&& *final(fuel) == o.fuel
                &&& final(self).socket_handle_counter == old(self).socket_handle_counter
            }),
        decreases *old(fuel), *instruction, 0nat,
    {
            if !self.cell_nonzero() {
                proof {
                    if deterministic_inst(*instruction) {
                        lemma_run_loop_zero(self.state(), *instruction, *fuel);
                    }
                }
                return Ok(());
            }
            let mut go = true;
            while go
                invariant
                    instruction.opcode == OpCode::Loop,
                    old(self).cell() != 0,
                    old(self).wf(),
                    self.wf(),
                    go == (self.cell() != 0),
                    self.tape@.len() == old(self).tape@.len(),
                    old(self).connections <= self.connections,
                    *fuel <= *old(fuel),
                    go || *fuel < *old(fuel),
                    deterministic_inst(*instruction) ==> run_inst(
                        old(self).state(),
                        *instruction,
                        *old(fuel),
                    ) == run_inst(self.state(), *instruction, *fuel)
                        && self.socket_handle_counter == old(self).socket_handle_counter,
                decreases *fuel,
            {
                if *fuel == 0 {
                    proof {
                        if deterministic_inst(*instruction) {
                            lemma_run_loop_spent(self.state(), *instruction, *fuel);
                        }
                    }
                    return Err(RuntimeFault::StepLimit);
                }
                let ghost mid = *self;
                let ghost efuel = *fuel;
                *fuel = *fuel - 1;
                match self.execute(&instruction.instructions, net, fuel) {
                    Ok(()) => {},
                    Err(f) => {
                        proof {
                            if deterministic_inst(*instruction) {
                                lemma_run_loop_step(mid.state(), *instruction, efuel);
                            }
                        }
                        return Err(f);
                    },
                }
                proof {
                    if deterministic_inst(*instruction) {
                        lemma_run_loop_step(mid.state(), *instruction, efuel);
                        let o = run_list(
                            mid.state(),
                            instruction.instructions@,
                            (efuel - 1) as u64,
                        );
                        assert(fuel_cap(o.fuel, (efuel - 1) as u64) == o.fuel);
                    }
                }
                go = self.cell_nonzero();
            }
            proof {
                if deterministic_inst(*instruction) {
                    lemma_run_loop_zero(self.state(), *instruction, *fuel);
                }
            }
            Ok(())
    }

    /// Walks one instruction.  A `Loop` repeats its body while the current
    /// cell is nonzero, spending one unit of `fuel` per pass; every other
    /// opcode is one step with its exact per-opcode contract.
    pub fn execute_one<N: NetIo>(
        &mut self,
        instruction: &Instruction,
        net: &mut N,
        fuel: &mut u64,
    ) -> (r: Result<(), RuntimeFault>)
        requires
            old(self).wf(),
        ensures
            final(self).wf(),
            final(self).tape@.len() == old(self).tape@.len(),
            old(self).connections <= final(self).connections,
            *final(fuel) <= *old(fuel),
            instruction.opcode == OpCode::Loop ==> ({
                &&& (r is Ok ==> final(self).cell() == 0)
                &&& (old(self).cell() == 0 ==> r is Ok && *final(self) == *old(self))
                &&& (old(self).cell() != 0 && r is Ok ==> *final(fuel) < *old(fuel))
            }),
            instruction.opcode == OpCode::Left ==> ({
                &&& (r is Ok <==> instruction.amount <= old(self).ptr)
                &&& (r is Ok ==> ptr_move(
                    *old(self),
                    *final(self),
                    old(self).ptr - instruction.amount,
                ))
                &&& (r is Err ==> *final(self) == *old(self) && r == Result::<
                    (),
                    RuntimeFault,
                >::Err(RuntimeFault::PointerOutOfBounds))
            }),
            instruction.opcode == OpCode::Right ==> ({
                &&& (r is Ok <==> old(self).ptr + instruction.amount < old(self).tape@.len())
                &&& (r is Ok ==> ptr_move(
                    *old(self),
                    *final(self),
                    old(self).ptr + instruction.amount,
                ))
                &&& (r is Err ==> *final(self) == *old(self) && r == Result::<
                    (),
                    RuntimeFault,
                >::Err(RuntimeFault::PointerOutOfBounds))
            }),
            instruction.opcode == OpCode::Inc ==> r is Ok && cell_write(
                *old(self),
                *final(self),
                wrap_add(old(self).cell(), trunc32(instruction.amount as int)),
            ),
            instruction.opcode == OpCode::Dec ==> r is Ok && cell_write(
                *old(self),
                *final(self),
                wrap_sub(old(self).cell(), trunc32(instruction.amount as int)),
            ),
            instruction.opcode == OpCode::Print ==> r is Ok && *final(self) == *old(self),
            instruction.opcode == OpCode::Query ==> frame_except_cell(*old(self), *final(self))
                && (r is Err ==> r == Result::<(), RuntimeFault>::Err(RuntimeFault::NoInputSource))
                && (instruction.amount >= 1 && r is Ok ==> exists|c: char|
                    final(self).cell() == char_code(c)),
            instruction.opcode == OpCode::SetPort ==> r is Ok && ({
                &&& (old(self).cell() < 0 ==> sentinel_post(*old(self), *final(self)))
                &&& (old(self).cell() >= 0 ==> config_frame(*old(self), *final(self)) && final(self).port == Some((old(self).cell() % 65535) as u16) && final(self).timeout_ms == old(self).timeout_ms)
            }),
            instruction.opcode == OpCode::SocketHandle ==> r is Ok && ({
                &&& ((old(self).cell() < 0 || old(self).cell() as int >= old(self).connections)
                    ==> sentinel_post(*old(self), *final(self)))
                &&& ((0 <= old(self).cell() && (old(self).cell() as int) < old(self).connections) ==> final(self).tape@ == old(self).tape@ && final(self).ptr == old(self).ptr
                    && final(self).connections == old(self).connections
                    && final(self).write_buffer@ == old(self).write_buffer@ && final(self).handle
                    == Some(old(self).cell() as usize) && final(self).timeout_ms == old(self).timeout_ms && final(self).port == old(self).port)
            }),
            instruction.opcode == OpCode::SetTimeout ==> r is Ok && config_frame(
                *old(self),
                *final(self),
            ) && final(self).port == old(self).port && ({
                &&& (old(self).cell() <= 0 ==> final(self).timeout_ms is None)
                &&& (old(self).cell() > 0 ==> final(self).timeout_ms == Some(
                    old(self).cell() as u64,
                ))
            }),
            instruction.opcode == OpCode::SendData ==> r is Ok && ({
                &&& (old(self).handle_invalid() ==> sentinel_post(*old(self), *final(self)))
                &&& (!old(self).handle_invalid() ==> final(self).write_buffer@ == old(self).write_buffer@ + send_bytes(old(self).cell(), instruction.amount as nat)
                    && final(self).tape@ == old(self).tape@ && final(self).ptr == old(self).ptr
                    && final(self).connections == old(self).connections && final(self).handle
                    == old(self).handle && final(self).timeout_ms == old(self).timeout_ms
                    && final(self).port == old(self).port)
            }),
            instruction.opcode == OpCode::Connect ==> r is Ok && ({
                &&& (old(self).port is None ==> sentinel_post(*old(self), *final(self)))
                &&& (old(self).port is Some ==> sentinel_post(*old(self), *final(self)) || ({
                    &&& final(self).connections == old(self).connections + 1
                    &&& final(self).socket_handle_counter == old(self).socket_handle_counter + 1
                    &&& final(self).tape@ == old(self).tape@.update(
                        old(self).ptr as int,
                        old(self).socket_handle_counter as i32,
                    )
                    &&& final(self).ptr == old(self).ptr
                    &&& final(self).write_buffer@ == old(self).write_buffer@
                    &&& final(self).handle == old(self).handle
                    &&& final(self).timeout_ms == old(self).timeout_ms
                    &&& final(self).port == old(self).port
                }))
            }),
            instruction.opcode == OpCode::Disconnect ==> r is Ok && ({
                &&& (old(self).handle_invalid() ==> sentinel_post(*old(self), *final(self)))
                &&& (!old(self).handle_invalid() ==> *final(self) == *old(self) || sentinel_post(
                    *old(self),
                    *final(self),
                ))
            }),
            instruction.opcode == OpCode::FlushWrites ==> r is Ok && ({
                &&& (old(self).handle_invalid() ==> sentinel_post(*old(self), *final(self)))
                &&& (!old(self).handle_invalid() ==> final(self).write_buffer@ == Seq::<
                    u8,
                >::empty() && final(self).ptr == old(self).ptr && final(self).connections == old(self).connections && final(self).socket_handle_counter == old(self).socket_handle_counter
                    && final(self).handle == old(self).handle && final(self).timeout_ms == old(self).timeout_ms && final(self).port == old(self).port
                    && (final(self).tape@ == old(self).tape@ || final(self).tape@ == old(self).tape@.update(old(self).ptr as int, -1i32)))
            }),
            instruction.opcode == OpCode::RecieveData ==> r is Ok && ({
                &&& (old(self).handle_invalid() ==> sentinel_post(*old(self), *final(self)))
                &&& (!old(self).handle_invalid() ==> frame_except_cell(*old(self), *final(self)))
            }),
            deterministic_inst(*instruction) ==> ({
                let o = run_inst(old(self).state(), *instruction, *old(fuel));
                &&& r == o.result
                &&& final(self).state() == o.state
                &&& *final(fuel) == o.fuel
                &&& final(self).socket_handle_counter == old(self).socket_handle_counter
            }),
        decreases *old(fuel), *instruction, 1nat,
    {
        match instruction.opcode {
            OpCode::Left => {
                if instruction.amount <= self.ptr {
                    self.op_left(instruction.amount);
                    proof {
                    lemma_run_step(old(self).state(), *instruction, *old(fuel));
                    assert(self.state() =~= step_inst(old(self).state(), *instruction).1);
                }
                Ok(())
                } else {
                    proof {
                    lemma_run_step(old(self).state(), *instruction, *old(fuel));
                    assert(self.state() =~= step_inst(old(self).state(), *instruction).1);
                }
                Err(RuntimeFault::PointerOutOfBounds)
                }
            },
            OpCode::Right => {
                let len = self.tape.len();
                if instruction.amount < len - self.ptr {
                    self.op_right(instruction.amount);
                    proof {
                    lemma_run_step(old(self).state(), *instruction, *old(fuel));
                    assert(self.state() =~= step_inst(old(self).state(), *instruction).1);
                }
                Ok(())
                } else {
                    proof {
                    lemma_run_step(old(self).state(), *instruction, *old(fuel));
                    assert(self.state() =~= step_inst(old(self).state(), *instruction).1);
                }
                Err(RuntimeFault::PointerOutOfBounds)
                }
            },
            OpCode::Inc => {
                self.op_inc(instruction.amount);
                proof {
                    lemma_run_step(old(self).state(), *instruction, *old(fuel));
                    assert(self.state() =~= step_inst(old(self).state(), *instruction).1);
                }
                Ok(())
            },
            OpCode::Dec => {
                self.op_dec(instruction.amount);
                proof {
                    lemma_run_step(old(self).state(), *instruction, *old(fuel));
                    assert(self.state() =~= step_inst(old(self).state(), *instruction).1);
                }
                Ok(())
            },
            OpCode::Print => {
                self.op_print(instruction.amount);
                proof {
                    lemma_run_step(old(self).state(), *instruction, *old(fuel));
                    assert(self.state() =~= step_inst(old(self).state(), *instruction).1);
                }
                Ok(())
            },
            OpCode::Query => self.op_query(instruction.amount),
            OpCode::Loop => self.run_loop(instruction, net, fuel),
            OpCode::SetPort => {
                self.op_set_port();
                proof {
                    lemma_run_step(old(self).state(), *instruction, *old(fuel));
                    assert(self.state() =~= step_inst(old(self).state(), *instruction).1);
                }
                Ok(())
            },
            OpCode::SocketHandle => {
                self.op_socket_handle();
                proof {
                    lemma_run_step(old(self).state(), *instruction, *old(fuel));
                    assert(self.state() =~= step_inst(old(self).state(), *instruction).1);
                }
                Ok(())
            },
            OpCode::SetTimeout => {
                self.op_set_timeout();
                proof {
                    lemma_run_step(old(self).state(), *instruction, *old(fuel));
                    assert(self.state() =~= step_inst(old(self).state(), *instruction).1);
                }
                Ok(())
            },
            OpCode::SendData => {
                self.op_send_data(instruction.amount);
                proof {
                    lemma_run_step(old(self).state(), *instruction, *old(fuel));
                    assert(self.state() =~= step_inst(old(self).state(), *instruction).1);
                }
                Ok(())
            },
            OpCode::Connect => {
                self.op_connect(net);
                Ok(())
            },
            OpCode::Disconnect => {
                self.op_disconnect(net);
                Ok(())
            },
            OpCode::FlushWrites => {
                self.op_flush_writes(net);
                Ok(())
            },
            OpCode::RecieveData => {
                self.op_receive(instruction.amount, net);
                Ok(())
            },
        }
    }

    /// Walks an instruction list in order, stopping at the first fatal
    /// fault.
    pub fn execute<N: NetIo>(
        &mut self,
        instructions: &[Instruction],
        net: &mut N,
        fuel: &mut u64,
    ) -> (r: Result<(), RuntimeFault>)
        requires
            old(self).wf(),
        ensures
            final(self).wf(),
            final(self).tape@.len() == old(self).tape@.len(),
            old(self).connections <= final(self).connections,
            *final(fuel) <= *old(fuel),
            instructions@.len() == 0 ==> r is Ok && *final(self) == *old(self),
            deterministic_list(instructions@) ==> ({
                let o = run_list(old(self).state(), instructions@, *old(fuel));
                &&& r == o.result
                &&& final(self).state() == o.state
                &&& *final(fuel) == o.fuel
                &&& final(self).socket_handle_counter == old(self).socket_handle_counter
            }),
        decreases *old(fuel), instructions@, 0nat,
    {
        proof {
            assert(instructions@.skip(0) =~= instructions@);
        }
        let mut idx: usize = 0;
        while idx < instructions.len()
            invariant
                old(self).wf(),
                self.wf(),
                idx <= instructions@.len(),
                self.tape@.len() == old(self).tape@.len(),
                old(self).connections <= self.connections,
                *fuel <= *old(fuel),
                idx == 0 ==> *self == *old(self) && *fuel == *old(fuel),
                deterministic_list(instructions@) ==> ({
                    &&& deterministic_list(instructions@.skip(idx as int))
                    &&& run_list(old(self).state(), instructions@, *old(fuel)) == run_list(
                        self.state(),
                        instructions@.skip(idx as int),
                        *fuel,
                    )
                    &&& self.socket_handle_counter == old(self).socket_handle_counter
                }),
            decreases instructions@.len() - idx,
        {
            let ghost pre = *self;
            let ghost efuel = *fuel;
            let ghost rem = instructions@.skip(idx as int);
            proof {
                assert(decreases_to!(*old(fuel), instructions@ => *fuel, instructions@[idx as int]));
                if deterministic_list(instructions@) {
                    assert(rem[0] == instructions@[idx as int]);
                    assert(rem.drop_first() =~= instructions@.skip(idx as int + 1));
                    lemma_run_list_cons(pre.state(), rem, efuel);
                }
            }
            match self.execute_one(&instructions[idx], net, fuel) {
                Ok(()) => {},
                Err(f) => {
                    return Err(f);
                },
            }
            proof {
                if deterministic_list(instructions@) {
                    let o = run_inst(pre.state(), instructions@[idx as int], efuel);
                    assert(fuel_cap(o.fuel, efuel) == o.fuel);
                }
            }
            idx = idx + 1;
        }
        proof {
            if deterministic_list(instructions@) {
                assert(instructions@.skip(instructions@.len() as int).len() == 0);
                lemma_run_list_nil(
                    self.state(),
                    instructions@.skip(instructions@.len() as int),
                    *fuel,
                );
            }
        }
        Ok(())
    }

    /// Parses and runs a program.  Parse errors surface unchanged before
    /// any execution; the walk then runs with a budget of `budget` loop
    /// passes, so a program whose loops never finish exhausts any finite
    /// budget and reports `StepLimit` instead of running forever.  For a
    /// balanced program the parsed tree exists, renders back to the
    /// program's tokens, and, when the program is free of `Query` and
    /// socket opcodes, the result and the final state are exactly the
    /// spec-level run of that tree.
    pub fn evaluate<N: NetIo>(&mut self, input: &str, net: &mut N, budget: u64) -> (r: Result<
        (),
        EvalError,
    >)
        requires
            old(self).wf(),
        ensures
            final(self).wf(),
            final(self).tape@.len() == old(self).tape@.len(),
            old(self).connections <= final(self).connections,
            (r == Result::<(), EvalError>::Err(EvalError::Parse(ParseError::MismatchedEndLoop)))
                <==> !depth_ok(tokens_of(input@)),
            (r == Result::<(), EvalError>::Err(EvalError::Parse(ParseError::MismatchedBeginLoop)))
                <==> (depth_ok(tokens_of(input@)) && !balanced(tokens_of(input@))),
            !balanced(tokens_of(input@)) ==> *final(self) == *old(self),
            balanced(tokens_of(input@)) ==> exists|instrs: Seq<Instruction>|
                #![trigger crate::parser::render_list(instrs)]
                {
                    &&& crate::parser::render_list(instrs) == tokens_of(input@)
                    &&& crate::parser::wf_list(instrs)
                    &&& crate::parser::folded_list(instrs)
                    &&& (deterministic_list(instrs) ==> ({
                        let o = run_list(old(self).state(), instrs, budget);
                        &&& r == (match o.result {
                            Ok(u) => Result::<(), EvalError>::Ok(u),
                            Err(f) => Result::<(), EvalError>::Err(EvalError::Fault(f)),
                        })
                        &&& final(self).state() == o.state
                        &&& final(self).socket_handle_counter == old(self).socket_handle_counter
                    }))
                },
    {
        let instructions = match parse(input) {
            Ok(instrs) => instrs,
            Err(e) => {
                return Err(EvalError::Parse(e));
            },
        };
        let mut fuel: u64 = budget;
        let res = self.execute(instructions.as_slice(), net, &mut fuel);
        proof {
            assert(crate::parser::render_list(instructions@) == tokens_of(input@));
        }
        match res {
            Ok(()) => Ok(()),
            Err(f) => Err(EvalError::Fault(f)),
        }
    }
}

} // verus!
