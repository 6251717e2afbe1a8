//! The stack walker: frames in innermost-first order, pacing for very deep
//! stacks, and the point where the report stops.

use vstd::prelude::*;
use crate::address::{Address, LoadedModule, OverlappingModules, claimed, claimed_twice, claims, static_address};
use crate::text::{ends_with, starts_with, seq_ends_with, seq_starts_with};

verus! {

/// The walker pauses after each block of this many frames.
pub const PACING_BLOCK: usize = 100;

/// Where the report is in the stack.
#[derive(Clone, Copy, Debug, PartialEq, Eq, Structural)]
pub enum StackState {
    PanicStack,
    UserStack,
    AfterUserStack,
}

/// What the walker makes of one captured instruction pointer.
#[derive(Clone, Copy, Debug, PartialEq, Eq)]
pub enum FrameStep {
    /// A frame mapped by a loaded module.
    Frame { addr: Address },
    /// The null instruction pointer that ends the stack.
    EndOfStack,
    /// An instruction pointer that no loaded module maps.
    Unresolved { ip: u64 },
    /// An instruction pointer claimed by two segments.
    Inconsistent { ip: u64 },
}

/// One produced frame: its index, what it is, and whether the caller waits
/// after it before the next one.
#[derive(Clone, Copy, Debug, PartialEq, Eq)]
pub struct WalkStep {
    pub index: usize,
    pub step: FrameStep,
    pub pause: bool,
}

pub open spec fn pause_after(index: int) -> bool {
    index % (PACING_BLOCK as int) == PACING_BLOCK - 1
}

/// Whether the walker pauses after producing the frame at `index`.
pub fn needs_pause(index: usize) -> (r: bool)
    ensures
        r == pause_after(index as int),
{
    index % PACING_BLOCK == PACING_BLOCK - 1
}

/// The number of pauses while producing frames `0 .. n`.
pub open spec fn pauses_in(n: nat) -> nat
    decreases n,
{
    if n == 0 {
        0
    } else {
        pauses_in((n - 1) as nat) + if pause_after(n - 1) { 1nat } else { 0nat }
    }
}

/// Producing `n` frames pauses once per complete block of frames.
pub proof fn lemma_pauses_per_block(n: nat)
    ensures
        pauses_in(n) == n / (PACING_BLOCK as nat),
    decreases n,
{
    if n > 0 {
        lemma_pauses_per_block((n - 1) as nat);
        let b = PACING_BLOCK as int;
        let k = n - 1;
        let nn = n as int;
        assert(k == b * (k / b) + k % b) by (nonlinear_arith)
            requires b > 0;
        assert(0 <= k % b < b) by (nonlinear_arith)
            requires b > 0;
        if k % b == b - 1 {
            assert(nn == b * (k / b + 1));
            assert(nn / b == k / b + 1) by (nonlinear_arith)
                requires nn == b * (k / b + 1), b > 0;
        } else {
            assert(nn == b * (k / b) + (k % b + 1));
            assert(nn / b == k / b) by (nonlinear_arith)
                requires nn == b * (k / b) + (k % b + 1), 0 < k % b + 1 < b, b > 0;
        }
    }
}

/// A walk over 250 frames pauses exactly twice, and not after its last frame.
pub proof fn lemma_walk_of_250_frames()
    ensures
        pauses_in(250) == 2,
        pause_after(99),
        pause_after(199),
        !pause_after(249),
{
    lemma_pauses_per_block(250);
}

/// The step that the walker produces for the instruction pointer `ip`.
pub open spec fn step_for(step: FrameStep, ip: u64, modules: Seq<LoadedModule>) -> bool {
    match step {
        FrameStep::EndOfStack => ip == 0,
        FrameStep::Unresolved { ip: p } => p == ip && ip != 0 && !claimed(modules, ip),
        FrameStep::Inconsistent { ip: p } => p == ip && ip != 0 && claimed_twice(modules, ip),
        FrameStep::Frame { addr } => {
            &&& ip != 0
            &&& !claimed_twice(modules, ip)
            &&& addr.avma == ip
            &&& addr.module < modules.len()
            &&& addr.svma == static_address(ip, modules[addr.module as int].bias)
            &&& exists|j: int| claims(modules, addr.module as int, j, ip)
        },
    }
}

/// A finite, forward-only sequence of frames over captured instruction pointers.
pub struct FrameIterator {
    pub ips: Vec<u64>,
    pub next: usize,
}

impl FrameIterator {
    pub fn new(ips: Vec<u64>) -> (r: FrameIterator)
        ensures
            r.ips@ == ips@,
            r.next == 0,
    {
        FrameIterator { ips, next: 0 }
    }

    /// The step for the next instruction pointer, or `None` once all were
    /// walked. Every produced frame, translated or not, counts for pacing.
    pub fn next(&mut self, modules: &Vec<LoadedModule>) -> (r: Option<WalkStep>)
        ensures
            final(self).ips@ == old(self).ips@,
            old(self).next >= old(self).ips@.len() ==> r is None && final(self).next == old(self).next,
            old(self).next < old(self).ips@.len() ==> {
                &&& final(self).next == old(self).next + 1
                &&& r matches Some(w)
                &&& w.index == old(self).next
                &&& w.pause == pause_after(old(self).next as int)
                &&& step_for(w.step, old(self).ips@[old(self).next as int], modules@)
            },
    {
        if self.next >= self.ips.len() {
            return None;
        }
        let index = self.next;
        let ip = self.ips[index];
        self.next = index + 1;
        let step = if ip == 0 {
            FrameStep::EndOfStack
        } else {
            match Address::from_avma(ip, modules) {
                Err(OverlappingModules { .. }) => FrameStep::Inconsistent { ip },
                Ok(None) => FrameStep::Unresolved { ip },
                Ok(Some(addr)) => FrameStep::Frame { addr },
            }
        };
        Some(WalkStep { index, step, pause: needs_pause(index) })
    }
}

pub open spec fn ends_user_stack(name: Seq<char>) -> bool {
    seq_ends_with(name, "__rust_begin_short_backtrace"@) || seq_starts_with(name, "std::rt::lang_start"@)
}

/// Whether a function belongs to the runtime start-up code below `main`.
pub fn is_end_of_user_stack(name: &str) -> (r: bool)
    ensures
        r == ends_user_stack(name@),
{
    ends_with(name, "__rust_begin_short_backtrace") || starts_with(name, "std::rt::lang_start")
}

impl StackState {
    /// The state after a frame of the function `name` was reported.
    pub fn after_function(self, name: &str) -> (r: StackState)
        ensures
            r == (if ends_user_stack(name@) { StackState::AfterUserStack } else { self }),
    {
        if is_end_of_user_stack(name) {
            StackState::AfterUserStack
        } else {
            self
        }
    }

    /// Whether the report goes on to the next frame.
    pub fn continues(self) -> (r: bool)
        ensures
            r == (self != StackState::AfterUserStack),
    {
        !matches!(self, StackState::AfterUserStack)
    }
}

} // verus!
