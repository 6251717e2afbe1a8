use pretty_backtrace::address::{Address, LoadedModule, OverlappingModules, Segment};

fn module(bias: u64, segments: Vec<Segment>, path: &str) -> LoadedModule {
    LoadedModule { bias, segments, path: path.to_string() }
}

fn layout() -> Vec<LoadedModule> {
    vec![
        module(0x1000, vec![Segment { start: 0x1000, len: 0x100 }, Segment { start: 0x2000, len: 0x10 }], "/bin/app"),
        module(0x7000_0000, vec![Segment { start: 0x7000_0000, len: 0x1000 }], "/lib/libc.so"),
    ]
}

#[test]
fn translates_address_in_second_module() {
    let modules = layout();
    let r = Address::from_avma(0x7000_0123, &modules).unwrap().unwrap();
    assert_eq!(r, Address { avma: 0x7000_0123, svma: 0x123, module: 1 });
}

#[test]
fn translates_address_in_later_segment() {
    let modules = layout();
    let r = Address::from_avma(0x200f, &modules).unwrap().unwrap();
    assert_eq!(r.svma, 0x100f);
    assert_eq!(r.module, 0);
}

#[test]
fn null_address_is_end_of_stack() {
    assert_eq!(Address::from_avma(0, &layout()), Ok(None));
}

#[test]
fn unmapped_address_has_no_translation() {
    let modules = layout();
    assert_eq!(Address::from_avma(0x1100, &modules), Ok(None));
    assert_eq!(Address::from_avma(0x5000, &modules), Ok(None));
}

#[test]
fn overlapping_segments_are_an_error() {
    let mut modules = layout();
    modules.push(module(0, vec![Segment { start: 0x1080, len: 0x10 }], "/lib/other.so"));
    assert_eq!(Address::from_avma(0x1088, &modules), Err(OverlappingModules { avma: 0x1088 }));
    assert_eq!(Address::from_avma(0x1000, &modules).unwrap().unwrap().module, 0);
}

#[test]
fn round_trip_recovers_runtime_address() {
    let modules = layout();
    for avma in [0x1000u64, 0x10ff, 0x2000, 0x7000_0000, 0x7000_0fff] {
        let a = Address::from_avma(avma, &modules).unwrap().unwrap();
        assert_eq!(modules[a.module].avma_of(a.svma), avma);
    }
}

#[test]
fn round_trip_wraps_when_bias_exceeds_address() {
    let modules = vec![module(0x9000, vec![Segment { start: 0x10, len: 0x10 }], "odd")];
    let a = Address::from_avma(0x18, &modules).unwrap().unwrap();
    assert_eq!(a.svma, 0x18u64.wrapping_sub(0x9000));
    assert_eq!(modules[0].avma_of(a.svma), 0x18);
}
