//! The scoped capture registry: named values pushed by running code onto a
//! stack, each popped by the guard that pushed it, in reverse order of push.

use vstd::prelude::*;

verus! {

/// One captured value with its name.
#[derive(Debug)]
pub struct CapturedValue<V> {
    pub name: String,
    pub value: V,
    /// The number of the push that stored this value.
    pub ticket: u64,
}

/// Proof of one push: the depth of the stack just before it and the number
/// of the push.
#[derive(Clone, Copy, Debug, PartialEq, Eq)]
pub struct CaptureGuard {
    pub depth: usize,
    pub ticket: u64,
}

/// A guard was released while a value pushed after its own was still on the
/// stack (or after its own value was gone).
#[derive(Clone, Copy, Debug, PartialEq, Eq)]
pub struct LifoViolation {
    pub depth: usize,
    pub stack_len: usize,
}

/// A stack of captured values, innermost scope last.
#[derive(Debug)]
pub struct CaptureRegistry<V> {
    pub entries: Vec<CapturedValue<V>>,
    /// The number the next push gets.
    pub next_ticket: u64,
}

/// The stack after releasing guard `g`: the stack without its top where that
/// top is the value the guard's push stored, else nothing.
pub open spec fn released<V>(s: Seq<CapturedValue<V>>, g: CaptureGuard) -> Option<Seq<CapturedValue<V>>> {
    if s.len() == g.depth + 1 && s.last().ticket == g.ticket {
        Some(s.drop_last())
    } else {
        None
    }
}

impl<V> CaptureRegistry<V> {
    pub fn new() -> (r: CaptureRegistry<V>)
        ensures
            r.entries@.len() == 0,
    {
        CaptureRegistry { entries: Vec::new(), next_ticket: 0 }
    }

    pub fn len(&self) -> (r: usize)
        ensures
            r == self.entries@.len(),
    {
        self.entries.len()
    }

    /// Pushes a named value; the guard returned releases exactly this value.
    pub fn push(&mut self, name: String, value: V) -> (g: CaptureGuard)
        ensures
            final(self).entries@ == old(self).entries@.push(CapturedValue { name, value, ticket: old(self).next_ticket }),
            final(self).next_ticket == old(self).next_ticket.wrapping_add(1),
            g == (CaptureGuard { depth: old(self).entries@.len() as usize, ticket: old(self).next_ticket }),
    {
        let depth = self.entries.len();
        let ticket = self.next_ticket;
        self.entries.push(CapturedValue { name, value, ticket });
        self.next_ticket = ticket.wrapping_add(1);
        CaptureGuard { depth, ticket }
    }

    /// Releases the value that `g` pushed. It must be the top of the stack;
    /// otherwise the stack is left as it is and the violation is returned.
    pub fn release(&mut self, g: CaptureGuard) -> (r: Result<CapturedValue<V>, LifoViolation>)
        ensures
            final(self).next_ticket == old(self).next_ticket,
            released(old(self).entries@, g) matches Some(s) ==> {
                &&& final(self).entries@ == s
                &&& r matches Ok(v) && v == old(self).entries@.last()
            },
            released(old(self).entries@, g) is None ==> {
                &&& final(self).entries@ == old(self).entries@
                &&& r == Err::<CapturedValue<V>, LifoViolation>(
                    LifoViolation { depth: g.depth, stack_len: old(self).entries@.len() as usize })
            },
    {
        let n = self.entries.len();
        if g.depth < n && n - 1 == g.depth && self.entries[n - 1].ticket == g.ticket {
            match self.entries.pop() {
                Some(v) => Ok(v),
                None => Err(LifoViolation { depth: g.depth, stack_len: n }),
            }
        } else {
            Err(LifoViolation { depth: g.depth, stack_len: n })
        }
    }

    /// Takes the innermost value, for a report that found the guard declaring
    /// it in a frame.
    pub fn take_innermost(&mut self) -> (r: Option<CapturedValue<V>>)
        ensures
            final(self).next_ticket == old(self).next_ticket,
            old(self).entries@.len() == 0 ==> r is None && final(self).entries@ == old(self).entries@,
            old(self).entries@.len() > 0 ==> {
                &&& final(self).entries@ == old(self).entries@.drop_last()
                &&& r matches Some(v) && v == old(self).entries@.last()
            },
    {
        self.entries.pop()
    }
}

/// Pushing `a` and then `b` and releasing their guards in reverse order leaves
/// the stack as it was; releasing `a`'s guard while `b` is on top is refused.
pub proof fn lemma_capture_stack_discipline<V>(s: Seq<CapturedValue<V>>, t: u64, a: (String, V), b: (String, V))
    requires
        s.len() + 2 <= usize::MAX,
    ensures
        ({
            let ta = t;
            let tb = t.wrapping_add(1);
            let ga = CaptureGuard { depth: s.len() as usize, ticket: ta };
            let gb = CaptureGuard { depth: (s.len() + 1) as usize, ticket: tb };
            let s1 = s.push(CapturedValue { name: a.0, value: a.1, ticket: ta });
            let s2 = s1.push(CapturedValue { name: b.0, value: b.1, ticket: tb });
            &&& released(s2, gb) == Some(s1)
            &&& released(s1, ga) == Some(s)
            &&& released(s2, ga) is None
        }),
{
    let ta = t;
    let tb = t.wrapping_add(1);
    let s1 = s.push(CapturedValue { name: a.0, value: a.1, ticket: ta });
    let s2 = s1.push(CapturedValue { name: b.0, value: b.1, ticket: tb });
    assert(s2.drop_last() =~= s1);
    assert(s1.drop_last() =~= s);
}

/// A value shown in the report of a failure for as long as it is in scope.
#[derive(Debug)]
pub struct BacktraceContext<T> {
    pub name: String,
    pub value: T,
    pub guard: CaptureGuard,
}

impl<T> BacktraceContext<T> {
    /// Registers `handle`, the registry's view of `value`, under `name`.
    pub fn new<V>(registry: &mut CaptureRegistry<V>, name: String, value: T, handle: V) -> (r: BacktraceContext<T>)
        ensures
            final(registry).entries@ == old(registry).entries@.push(CapturedValue { name, value: handle, ticket: old(registry).next_ticket }),
            final(registry).next_ticket == old(registry).next_ticket.wrapping_add(1),
            r.guard == (CaptureGuard { depth: old(registry).entries@.len() as usize, ticket: old(registry).next_ticket }),
            r.value == value,
            r.name@ == name@,
    {
        let shown = name.clone();
        let guard = registry.push(name, handle);
        BacktraceContext { name: shown, value, guard }
    }

    /// Ends the scope: releases the registered value, which must be innermost.
    pub fn release<V>(self, registry: &mut CaptureRegistry<V>) -> (r: Result<CapturedValue<V>, LifoViolation>)
        ensures
            released(old(registry).entries@, self.guard) matches Some(s) ==> {
                &&& final(registry).entries@ == s
                &&& r matches Ok(v) && v == old(registry).entries@.last()
            },
            released(old(registry).entries@, self.guard) is None ==> {
                &&& final(registry).entries@ == old(registry).entries@
                &&& r is Err
            },
    {
        registry.release(self.guard)
    }
}

/// A variable whose value is registered under its name once `init` ran.
#[derive(Debug)]
pub struct VarGuard<T> {
    pub value: T,
    pub guard: Option<CaptureGuard>,
}

impl<T> VarGuard<T> {
    pub fn new(value: T) -> (r: VarGuard<T>)
        ensures
            r.value == value,
            r.guard is None,
    {
        VarGuard { value, guard: None }
    }

    /// Registers `handle` under `name` and keeps the guard of that push.
    pub fn init<V>(&mut self, registry: &mut CaptureRegistry<V>, name: String, handle: V)
        ensures
            final(registry).entries@ == old(registry).entries@.push(CapturedValue { name, value: handle, ticket: old(registry).next_ticket }),
            final(registry).next_ticket == old(registry).next_ticket.wrapping_add(1),
            final(self).guard == Some(CaptureGuard { depth: old(registry).entries@.len() as usize, ticket: old(registry).next_ticket }),
            final(self).value == old(self).value,
    {
        let g = registry.push(name, handle);
        self.guard = Some(g);
    }

    /// Releases what `init` registered, if it ran and its value is innermost.
    pub fn release<V>(&mut self, registry: &mut CaptureRegistry<V>) -> (r: Option<CapturedValue<V>>)
        ensures
            final(self).value == old(self).value,
            final(self).guard is None,
            match old(self).guard {
                Some(g) => match released(old(registry).entries@, g) {
                    Some(s) => final(registry).entries@ == s && r == Some(old(registry).entries@.last()),
                    None => final(registry).entries@ == old(registry).entries@ && r is None,
                },
                None => final(registry).entries@ == old(registry).entries@ && r is None,
            },
    {
        match self.guard {
            Some(g) => {
                self.guard = None;
                match registry.release(g) {
                    Ok(v) => Some(v),
                    Err(_) => None,
                }
            },
            None => None,
        }
    }
}

} // verus!
