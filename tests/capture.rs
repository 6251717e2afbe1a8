use pretty_backtrace::capture::{BacktraceContext, CaptureRegistry, LifoViolation, VarGuard};

#[test]
fn push_then_release_in_reverse_empties_registry() {
    let mut r: CaptureRegistry<u32> = CaptureRegistry::new();
    let ga = r.push("a".to_string(), 1);
    let gb = r.push("b".to_string(), 2);
    assert_eq!(r.len(), 2);
    let b = r.release(gb).unwrap();
    assert_eq!((b.name.as_str(), b.value), ("b", 2));
    let a = r.release(ga).unwrap();
    assert_eq!((a.name.as_str(), a.value), ("a", 1));
    assert_eq!(r.len(), 0);
}

#[test]
fn releasing_outer_guard_first_is_refused() {
    let mut r: CaptureRegistry<u32> = CaptureRegistry::new();
    let ga = r.push("a".to_string(), 1);
    let gb = r.push("b".to_string(), 2);
    assert_eq!(r.release(ga).unwrap_err(), LifoViolation { depth: 0, stack_len: 2 });
    assert_eq!(r.len(), 2);
    assert!(r.release(gb).is_ok());
    assert!(r.release(ga).is_ok());
    assert_eq!(r.release(ga).unwrap_err(), LifoViolation { depth: 0, stack_len: 0 });
}

#[test]
fn report_takes_innermost_first() {
    let mut r: CaptureRegistry<&str> = CaptureRegistry::new();
    r.push("outer".to_string(), "1");
    r.push("inner".to_string(), "2");
    assert_eq!(r.take_innermost().unwrap().name, "inner");
    assert_eq!(r.take_innermost().unwrap().name, "outer");
    assert!(r.take_innermost().is_none());
}

#[test]
fn backtrace_context_registers_and_releases() {
    let mut r: CaptureRegistry<String> = CaptureRegistry::new();
    let c = BacktraceContext::new(&mut r, "num".to_string(), 42u64, "42".to_string());
    assert_eq!(c.value, 42);
    assert_eq!(c.name, "num");
    assert_eq!(r.entries[0].value, "42");
    let inner = BacktraceContext::new(&mut r, "other".to_string(), 1u8, "1".to_string());
    assert!(c.release(&mut r).is_err());
    assert!(inner.release(&mut r).is_ok());
    assert_eq!(r.len(), 1);
}

#[test]
fn var_guard_registers_once_initialised() {
    let mut r: CaptureRegistry<u64> = CaptureRegistry::new();
    let mut g = VarGuard::new(7u64);
    assert!(g.release(&mut r).is_none());
    g.init(&mut r, "num".to_string(), 7);
    assert_eq!(r.len(), 1);
    let v = g.release(&mut r).unwrap();
    assert_eq!((v.name.as_str(), v.value), ("num", 7));
    assert_eq!(r.len(), 0);
    assert!(g.release(&mut r).is_none());
}

#[test]
fn stale_guard_cannot_release_a_later_value_at_its_depth() {
    let mut r: CaptureRegistry<u32> = CaptureRegistry::new();
    let ga = r.push("a".to_string(), 1);
    assert_eq!(r.take_innermost().unwrap().name, "a");
    let gc = r.push("c".to_string(), 3);
    assert_eq!(ga.depth, gc.depth);
    assert!(r.release(ga).is_err());
    assert_eq!(r.len(), 1);
    assert_eq!(r.release(gc).unwrap().value, 3);
}
