use pretty_backtrace::dwarf::{covers_any, in_range, DebugUnit, Encoding, Entry, EntryTag, Range, UnitMap};

fn unit(ranges: Vec<(u64, u64)>) -> DebugUnit {
    DebugUnit { ranges: ranges.into_iter().map(|(begin, end)| Range { begin, end }).collect(), entries: Vec::new() }
}

#[test]
fn ranges_are_half_open() {
    let rs = vec![Range { begin: 10, end: 20 }, Range { begin: 40, end: 41 }];
    assert!(covers_any(&rs, 10));
    assert!(covers_any(&rs, 19));
    assert!(!covers_any(&rs, 20));
    assert!(covers_any(&rs, 40));
    assert!(!covers_any(&rs, 41));
    assert!(!covers_any(&Vec::new(), 0));
}

#[test]
fn in_range_of_entry_and_unit() {
    let mut u = unit(vec![(0, 100)]);
    u.entries.push(Entry {
        tag: EntryTag::Subprogram,
        parent: None,
        name: None,
        ranges: Some(vec![Range { begin: 5, end: 8 }]),
        abstract_origin: None,
        type_ref: None,
        byte_size: None,
        encoding: Encoding::Other,
        location: None,
        frame_base: None,
    });
    u.entries.push(Entry {
        tag: EntryTag::LexicalBlock,
        parent: Some(0),
        name: None,
        ranges: None,
        abstract_origin: None,
        type_ref: None,
        byte_size: None,
        encoding: Encoding::Other,
        location: None,
        frame_base: None,
    });
    assert!(in_range(&u, None, 50));
    assert!(!in_range(&u, None, 100));
    assert!(in_range(&u, Some(0), 6));
    assert!(!in_range(&u, Some(0), 8));
    assert!(!in_range(&u, Some(1), 6));
}

#[test]
fn unit_map_reads_units_lazily_and_in_order() {
    let units = vec![unit(vec![(0, 10), (100, 110)]), unit(vec![(20, 30)]), unit(vec![(40, 50)])];
    let mut m = UnitMap::new(units);
    assert_eq!(m.find(25), Some(1));
    assert_eq!(m.scanned, 2);
    assert_eq!(m.cached.len(), 3);
    assert_eq!(m.find(105), Some(0));
    assert_eq!(m.scanned, 2);
    assert_eq!(m.find(45), Some(2));
    assert_eq!(m.scanned, 3);
    assert_eq!(m.find(60), None);
    assert_eq!(m.scanned, 3);
}

#[test]
fn queries_in_one_unit_read_its_ranges_once() {
    let units = vec![unit(vec![(0, 10)]), unit(vec![(20, 30), (50, 60)]), unit(vec![(70, 80)])];
    let mut m = UnitMap::new(units);
    for a in [55u64, 21, 29, 50, 59, 20] {
        assert_eq!(m.find(a), Some(1));
        assert_eq!(m.scanned, 2);
        assert_eq!(m.cached.len(), 3);
    }
}

#[test]
fn unit_map_misses_everywhere() {
    let mut m = UnitMap::new(vec![unit(vec![(0, 10)])]);
    assert_eq!(m.find(10), None);
    assert_eq!(m.scanned, 1);
    assert_eq!(m.find(3), Some(0));
    let mut empty = UnitMap::new(Vec::new());
    assert_eq!(empty.find(3), None);
    assert_eq!(empty.scanned, 0);
}

#[test]
fn unit_map_answers_first_covering_unit_whatever_the_query_order() {
    let units = vec![unit(vec![(0, 10)]), unit(vec![(5, 20)])];
    let mut m = UnitMap::new(units);
    assert_eq!(m.find(15), Some(1));
    assert_eq!(m.find(7), Some(0));
    let mut fresh = UnitMap::new(vec![unit(vec![(0, 10)]), unit(vec![(5, 20)])]);
    assert_eq!(fresh.find(7), Some(0));
    assert_eq!(fresh.find(7), Some(0));
    assert_eq!(fresh.scanned, 1);
}

#[test]
fn well_formedness_check_accepts_pre_order_tree() {
    let mut u = unit(vec![(0, 10)]);
    assert!(u.check_wf());
    u.entries.push(Entry {
        tag: EntryTag::CompileUnit,
        parent: None,
        name: None,
        ranges: None,
        abstract_origin: None,
        type_ref: None,
        byte_size: None,
        encoding: Encoding::Other,
        location: None,
        frame_base: None,
    });
    assert!(u.check_wf());
    u.entries[0].parent = Some(0);
    assert!(!u.check_wf());
}

#[test]
fn units_added_later_are_read_on_a_miss() {
    let mut m = UnitMap::new(vec![unit(vec![(0, 10)])]);
    assert_eq!(m.find(25), None);
    assert_eq!(m.scanned, 1);
    m.push_unit(unit(vec![(20, 30)]));
    assert_eq!(m.scanned, 1);
    assert_eq!(m.cached.len(), 1);
    assert_eq!(m.find(25), Some(1));
    assert_eq!(m.scanned, 2);
    assert_eq!(m.find(5), Some(0));
}
