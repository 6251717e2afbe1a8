use pretty_backtrace::capture::CaptureRegistry;
use pretty_backtrace::dwarf::{DebugUnit, Encoding, Entry, EntryTag, Range};
use pretty_backtrace::report::{symbol_frame_name, take_frame_captures};
use pretty_backtrace::search::GUARD_VARIABLE;

fn entry(tag: EntryTag, parent: Option<usize>, name: Option<&str>, ranges: Option<Vec<(u64, u64)>>) -> Entry {
    Entry {
        tag,
        parent,
        name: name.map(|s| s.to_string()),
        ranges: ranges.map(|rs| rs.into_iter().map(|(begin, end)| Range { begin, end }).collect()),
        abstract_origin: None,
        type_ref: None,
        byte_size: None,
        encoding: Encoding::Other,
        location: None,
        frame_base: None,
    }
}

fn guarded_unit() -> DebugUnit {
    DebugUnit {
        ranges: vec![Range { begin: 0, end: 100 }],
        entries: vec![
            entry(EntryTag::Subprogram, None, Some("please_panic"), Some(vec![(0, 100)])),
            entry(EntryTag::Variable, Some(0), Some(GUARD_VARIABLE), None),
            entry(EntryTag::LexicalBlock, Some(0), None, Some(vec![(0, 10)])),
            entry(EntryTag::Variable, Some(2), Some(GUARD_VARIABLE), None),
            entry(EntryTag::Variable, Some(0), Some(GUARD_VARIABLE), None),
            entry(EntryTag::Variable, Some(0), Some("num"), None),
        ],
    }
}

#[test]
fn mangled_symbol_is_demangled() {
    let (name, err) = symbol_frame_name(Some("_ZN4core9panicking5panic17h0123456789abcdefE"));
    assert_eq!(name, "core::panicking::panic");
    assert!(!err);
    assert_eq!(symbol_frame_name(Some("main")), ("main".to_string(), false));
}

#[test]
fn nameless_symbol_is_an_error_entry() {
    assert_eq!(symbol_frame_name(None), ("<unknown function name>".to_string(), true));
}

#[test]
fn frame_takes_one_capture_per_guard_in_scope() {
    let u = guarded_unit();
    let mut r: CaptureRegistry<u32> = CaptureRegistry::new();
    r.push("outer".to_string(), 1);
    r.push("num".to_string(), 42);
    r.push("num3".to_string(), 3);
    let taken = take_frame_captures(&u, 0, 50, &mut r);
    let names: Vec<&str> = taken.iter().map(|c| c.name.as_str()).collect();
    assert_eq!(names, vec!["num3", "num"]);
    assert_eq!(r.len(), 1);
}

#[test]
fn frame_takes_no_more_than_registry_holds() {
    let u = guarded_unit();
    let mut r: CaptureRegistry<u32> = CaptureRegistry::new();
    r.push("only".to_string(), 1);
    let taken = take_frame_captures(&u, 0, 5, &mut r);
    assert_eq!(taken.len(), 1);
    assert_eq!(taken[0].value, 1);
    assert_eq!(r.len(), 0);
}
