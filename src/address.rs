//! Translation between runtime addresses and the static addresses that debug
//! information is keyed on.

use vstd::prelude::*;

verus! {

/// One mapped segment of a loaded module, given by its runtime start and length.
#[derive(Clone, Copy, Debug, PartialEq, Eq)]
pub struct Segment {
    pub start: u64,
    pub len: u64,
}

/// A loaded code module: the bias added to its static addresses at load time,
/// its mapped segments and the path of its image.
#[derive(Debug)]
pub struct LoadedModule {
    pub bias: u64,
    pub segments: Vec<Segment>,
    pub path: String,
}

/// A runtime address together with its static address and the index of the
/// module that maps it.
#[derive(Clone, Copy, Debug, PartialEq, Eq)]
pub struct Address {
    pub avma: u64,
    pub svma: u64,
    pub module: usize,
}

/// Two segments claim the same runtime address: the load layout is inconsistent.
#[derive(Clone, Copy, Debug, PartialEq, Eq)]
pub struct OverlappingModules {
    pub avma: u64,
}

pub open spec fn segment_contains(s: Segment, avma: u64) -> bool {
    s.start <= avma && avma < s.start + s.len
}

/// The static address of `avma` in a module loaded with `bias`.
pub open spec fn static_address(avma: u64, bias: u64) -> u64 {
    if avma >= bias {
        (avma - bias) as u64
    } else {
        (avma - bias + 0x1_0000_0000_0000_0000) as u64
    }
}

/// The runtime address of `svma` in a module loaded with `bias`.
pub open spec fn runtime_address(svma: u64, bias: u64) -> u64 {
    if svma + bias < 0x1_0000_0000_0000_0000 {
        (svma + bias) as u64
    } else {
        (svma + bias - 0x1_0000_0000_0000_0000) as u64
    }
}

/// Segment `j` of module `i` contains `avma`.
pub open spec fn claims(modules: Seq<LoadedModule>, i: int, j: int, avma: u64) -> bool {
    0 <= i < modules.len() && 0 <= j < modules[i].segments@.len()
        && segment_contains(modules[i].segments@[j], avma)
}

pub open spec fn claimed(modules: Seq<LoadedModule>, avma: u64) -> bool {
    exists|i: int, j: int| #[trigger] claims(modules, i, j, avma)
}

/// Two distinct segments (in one module or in two) contain `avma`.
pub open spec fn claimed_twice(modules: Seq<LoadedModule>, avma: u64) -> bool {
    exists|i1: int, j1: int, i2: int, j2: int|
        #[trigger] claims(modules, i1, j1, avma) && #[trigger] claims(modules, i2, j2, avma)
            && (i1 != i2 || j1 != j2)
}

/// The pair `(i, j)` comes strictly before `(ci, cj)` in module-then-segment order.
pub open spec fn pair_before(i: int, j: int, ci: int, cj: int) -> bool {
    i < ci || (i == ci && j < cj)
}

impl LoadedModule {
    /// The runtime address of a static address of this module.
    pub fn avma_of(&self, svma: u64) -> (r: u64)
        ensures
            r == runtime_address(svma, self.bias),
    {
        svma.wrapping_add(self.bias)
    }
}

impl Address {
    /// Translates a runtime address: `Ok(None)` for the null address and for an
    /// address that no segment maps, the static address and owning module where
    /// exactly one segment maps it, and an error where two segments do.
    pub fn from_avma(avma: u64, modules: &Vec<LoadedModule>) -> (r: Result<Option<Address>, OverlappingModules>)
        ensures
            r is Err <==> (avma != 0 && claimed_twice(modules@, avma)),
            r == Ok::<Option<Address>, OverlappingModules>(None) <==> (avma == 0 || !claimed(modules@, avma)),
            r matches Ok(Some(a)) ==> {
                &&& a.avma == avma
                &&& a.module < modules@.len()
                &&& a.svma == static_address(avma, modules@[a.module as int].bias)
                &&& exists|j: int| claims(modules@, a.module as int, j, avma)
            },
            r is Err ==> r == Err::<Option<Address>, OverlappingModules>(OverlappingModules { avma }),
    {
        if avma == 0 {
            return Ok(None);
        }
        let mut found: Option<(usize, usize)> = None;
        let mut i: usize = 0;
        while i < modules.len()
            invariant
                avma != 0,
                0 <= i <= modules@.len(),
                found matches None ==> forall|a: int, b: int| pair_before(a, b, i as int, 0) ==> !#[trigger] claims(modules@, a, b, avma),
                found matches Some(p) ==> {
                    &&& pair_before(p.0 as int, p.1 as int, i as int, 0)
                    &&& claims(modules@, p.0 as int, p.1 as int, avma)
                    &&& forall|a: int, b: int| pair_before(a, b, i as int, 0) && (a != p.0 || b != p.1) ==> !#[trigger] claims(modules@, a, b, avma)
                },
            decreases modules@.len() - i,
        {
            let m = &modules[i];
            let mut j: usize = 0;
            while j < m.segments.len()
                invariant
                    avma != 0,
                    0 <= i < modules@.len(),
                    m == modules@[i as int],
                    0 <= j <= m.segments@.len(),
                    found matches None ==> forall|a: int, b: int| pair_before(a, b, i as int, j as int) ==> !#[trigger] claims(modules@, a, b, avma),
                    found matches Some(p) ==> {
                        &&& pair_before(p.0 as int, p.1 as int, i as int, j as int)
                        &&& claims(modules@, p.0 as int, p.1 as int, avma)
                        &&& forall|a: int, b: int| pair_before(a, b, i as int, j as int) && (a != p.0 || b != p.1) ==> !#[trigger] claims(modules@, a, b, avma)
                    },
                decreases m.segments@.len() - j,
            {
                let s = m.segments[j];
                if s.start <= avma && (avma as u128) < (s.start as u128) + (s.len as u128) {
                    assert(claims(modules@, i as int, j as int, avma));
                    match found {
                        Some(p) => {
                            assert(claims(modules@, p.0 as int, p.1 as int, avma));
                            assert(claimed(modules@, avma));
                            assert(claimed_twice(modules@, avma));
                            return Err(OverlappingModules { avma });
                        },
                        None => {
                            found = Some((i, j));
                        },
                    }
                } else {
                    assert(!claims(modules@, i as int, j as int, avma));
                }
                proof {
                    assert forall|a: int, b: int| pair_before(a, b, i as int, j + 1) && claims(modules@, a, b, avma)
                        implies pair_before(a, b, i as int, j as int) || (a == i && b == j) by {}
                }
                j = j + 1;
            }
            proof {
                assert forall|a: int, b: int| pair_before(a, b, i + 1, 0) && claims(modules@, a, b, avma)
                    implies pair_before(a, b, i as int, j as int) by {}
            }
            i = i + 1;
        }
        proof {
            assert forall|a: int, b: int| claims(modules@, a, b, avma) implies pair_before(a, b, i as int, 0) by {}
        }
        match found {
            None => Ok(None),
            Some(p) => {
                let bias = modules[p.0].bias;
                assert(claims(modules@, p.0 as int, p.1 as int, avma));
                assert(!claimed_twice(modules@, avma));
                Ok(Some(Address { avma, svma: avma.wrapping_sub(bias), module: p.0 }))
            },
        }
    }
}

/// Adding the owning module's load bias back to the static address of a
/// translated runtime address gives that runtime address again.
pub proof fn lemma_translation_round_trip(modules: Seq<LoadedModule>, avma: u64, a: Address)
    requires
        a.avma == avma,
        a.module < modules.len(),
        a.svma == static_address(avma, modules[a.module as int].bias),
    ensures
        runtime_address(a.svma, modules[a.module as int].bias) == avma,
{
}

} // verus!
