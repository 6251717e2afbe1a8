//! Per-frame report decisions that combine the index, the capture registry
//! and the symbol table.

use vstd::prelude::*;
use crate::capture::{CaptureRegistry, CapturedValue};
use crate::dwarf::DebugUnit;
use crate::search::{count_guard_variables, guards_below};

verus! {

/// Shown for a frame whose symbol has no name.
pub const UNKNOWN_FUNCTION: &'static str = "<unknown function name>";

/// What `addr2line::demangle_auto` makes of a symbol name when no language is
/// given.
pub uninterp spec fn demangled(name: Seq<char>) -> Seq<char>;

/// Relies on `addr2line::demangle_auto` with no language: it tries Rust, then
/// C++ demangling, and gives the name unchanged where neither applies.
#[verifier::external_body]
fn demangle_name(name: &str) -> (r: String)
    ensures
        r@ == demangled(name@),
{
    addr2line::demangle_auto(std::borrow::Cow::Borrowed(name), None).into_owned()
}

/// The name shown for a frame without debug information, from the nearest
/// symbol of the module's symbol table, and whether it is shown as an error.
pub fn symbol_frame_name(symbol: Option<&str>) -> (r: (String, bool))
    ensures
        match symbol {
            Some(s) => r.0@ == demangled(s@) && !r.1,
            None => r.0@ == UNKNOWN_FUNCTION@ && r.1,
        },
{
    match symbol {
        Some(s) => (demangle_name(s), false),
        None => (String::from_str(UNKNOWN_FUNCTION), true),
    }
}

/// Takes from the registry the values that the capture guards declared in a
/// frame's scope stand for: one per guard, innermost first, as far as the
/// registry holds values.
pub fn take_frame_captures<V>(unit: &DebugUnit, root: usize, svma: u64, registry: &mut CaptureRegistry<V>) -> (r: Vec<CapturedValue<V>>)
    requires
        unit.wf(),
        root < unit.entries@.len(),
    ensures
        ({
            let guards = guards_below(unit.entries@, root as int, svma, unit.entries@.len() as int);
            let n = old(registry).entries@.len();
            let k = if guards < n { guards as int } else { n as int };
            &&& r@.len() == k
            &&& final(registry).entries@ == old(registry).entries@.subrange(0, n - k)
            &&& forall|i: int| 0 <= i < k ==> #[trigger] r@[i] == old(registry).entries@[n - 1 - i]
        }),
{
    let guards = count_guard_variables(unit, root, svma);
    let ghost start = registry.entries@;
    let n = registry.len();
    let mut r: Vec<CapturedValue<V>> = Vec::new();
    let mut taken: usize = 0;
    while taken < guards && taken < n
        invariant
            start == old(registry).entries@,
            guards == guards_below(unit.entries@, root as int, svma, unit.entries@.len() as int),
            n == start.len(),
            taken <= n,
            taken <= guards,
            r@.len() == taken,
            registry.entries@ == start.subrange(0, n - taken),
            forall|i: int| 0 <= i < taken ==> #[trigger] r@[i] == start[n - 1 - i],
        decreases n - taken,
    {
        match registry.take_innermost() {
            Some(v) => {
                r.push(v);
            },
            None => {
                return r;
            },
        }
        taken = taken + 1;
        assert(registry.entries@ =~= start.subrange(0, n - taken));
    }
    r
}

} // verus!
