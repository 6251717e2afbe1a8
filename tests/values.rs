use pretty_backtrace::dwarf::{DebugUnit, Encoding, Entry, EntryTag, Range};
use pretty_backtrace::location::{Location, Need};
use pretty_backtrace::values::{
    decode_scalar, decode_value, layout_of, value_source, word_bytes, DecodeError, Layout, LayoutError, Scalar,
    TypeKind, Value, ValueSource,
};

#[test]
fn all_ones_decode_as_minus_one_or_max() {
    let b = [0xFFu8, 0xFF, 0xFF, 0xFF];
    assert_eq!(decode_scalar(&b, true, true), Ok(Scalar::Signed(-1)));
    assert_eq!(decode_scalar(&b, false, true), Ok(Scalar::Unsigned(4294967295)));
}

#[test]
fn decodes_each_supported_width() {
    assert_eq!(decode_scalar(&[0x80], true, true), Ok(Scalar::Signed(-128)));
    assert_eq!(decode_scalar(&[0x7f], true, true), Ok(Scalar::Signed(127)));
    assert_eq!(decode_scalar(&[0x34, 0x12], false, true), Ok(Scalar::Unsigned(0x1234)));
    assert_eq!(decode_scalar(&[0x34, 0x12], false, false), Ok(Scalar::Unsigned(0x3412)));
    assert_eq!(decode_scalar(&[0x00, 0x80], true, true), Ok(Scalar::Signed(-32768)));
    assert_eq!(decode_scalar(&[0xFF; 8], true, true), Ok(Scalar::Signed(-1)));
    assert_eq!(decode_scalar(&[0xFF; 8], false, false), Ok(Scalar::Unsigned(u64::MAX)));
    assert_eq!(
        decode_scalar(&[0x88, 0x77, 0x66, 0x55, 0x44, 0x33, 0x22, 0x11], false, true),
        Ok(Scalar::Unsigned(0x1122334455667788))
    );
    assert_eq!(decode_scalar(&[0, 0, 0, 0, 0, 0, 0, 0x80], true, true), Ok(Scalar::Signed(i64::MIN)));
}

#[test]
fn other_widths_are_refused() {
    assert_eq!(decode_scalar(&[1, 2, 3], false, true), Err(DecodeError::UnsupportedWidth(3)));
    assert_eq!(decode_scalar(&[], true, true), Err(DecodeError::UnsupportedWidth(0)));
    assert_eq!(decode_scalar(&[0; 16], true, true), Err(DecodeError::UnsupportedWidth(16)));
}

fn blank(tag: EntryTag) -> Entry {
    Entry {
        tag,
        parent: None,
        name: None,
        ranges: None,
        abstract_origin: None,
        type_ref: None,
        byte_size: None,
        encoding: Encoding::Other,
        location: None,
        frame_base: None,
    }
}

fn typed_unit() -> DebugUnit {
    let root = blank(EntryTag::CompileUnit);
    let mut int = blank(EntryTag::BaseType);
    int.byte_size = Some(4);
    int.encoding = Encoding::Signed;
    let ptr = blank(EntryTag::PointerType);
    let record = blank(EntryTag::Other);
    let mut v_int = blank(EntryTag::Variable);
    v_int.type_ref = Some(1);
    let mut v_ptr = blank(EntryTag::Variable);
    v_ptr.type_ref = Some(2);
    let mut v_rec = blank(EntryTag::Variable);
    v_rec.type_ref = Some(3);
    let v_none = blank(EntryTag::Variable);
    let mut v_inl = blank(EntryTag::Variable);
    v_inl.abstract_origin = Some(4);
    let mut entries = vec![root, int, ptr, record, v_int, v_ptr, v_rec, v_none, v_inl];
    for e in entries.iter_mut().skip(1) {
        e.parent = Some(0);
    }
    DebugUnit { ranges: vec![Range { begin: 0, end: 1 }], entries }
}

#[test]
fn layout_follows_type_reference() {
    let u = typed_unit();
    assert!(u.check_wf());
    assert_eq!(layout_of(&u, 4), Ok(Layout { type_entry: 1, width: 4, kind: TypeKind::Base(Encoding::Signed) }));
    assert_eq!(layout_of(&u, 5), Ok(Layout { type_entry: 2, width: 8, kind: TypeKind::Pointer }));
    assert_eq!(layout_of(&u, 6), Err(LayoutError::MissingSize { type_entry: 3 }));
    assert_eq!(layout_of(&u, 7), Err(LayoutError::MissingType));
    assert_eq!(layout_of(&u, 8), layout_of(&u, 4));
}

#[test]
fn decodes_values_by_layout() {
    let int = Layout { type_entry: 0, width: 4, kind: TypeKind::Base(Encoding::Signed) };
    assert_eq!(decode_value(int, &[0xFE, 0xFF, 0xFF, 0xFF], true), Ok(Value::Number(Scalar::Signed(-2))));
    let uint = Layout { type_entry: 0, width: 2, kind: TypeKind::Base(Encoding::Unsigned) };
    assert_eq!(decode_value(uint, &[0xFE, 0xFF], true), Ok(Value::Number(Scalar::Unsigned(65534))));
    let ptr = Layout { type_entry: 1, width: 8, kind: TypeKind::Pointer };
    assert_eq!(
        decode_value(ptr, &[0x10, 0, 0, 0, 0, 0, 0, 0], true),
        Ok(Value::Pointer { address: 0x10, width: 8 })
    );
    assert_eq!(decode_value(ptr, &[1, 2, 3], true), Err(DecodeError::UnsupportedWidth(3)));
    let rec = Layout { type_entry: 2, width: 24, kind: TypeKind::Aggregate };
    assert_eq!(decode_value(rec, &[0; 24], true), Ok(Value::Aggregate { type_entry: 2 }));
}

#[test]
fn word_bytes_in_both_orders() {
    assert_eq!(word_bytes(0x1122334455667788, 8, true), vec![0x88, 0x77, 0x66, 0x55, 0x44, 0x33, 0x22, 0x11]);
    assert_eq!(word_bytes(0x1122334455667788, 2, true), vec![0x88, 0x77]);
    assert_eq!(word_bytes(0x1122334455667788, 2, false), vec![0x77, 0x88]);
    assert_eq!(word_bytes(5, 0, true), Vec::<u8>::new());
}

#[test]
fn value_source_by_location_and_width() {
    let int = Layout { type_entry: 1, width: 4, kind: TypeKind::Base(Encoding::Signed) };
    let wide = Layout { type_entry: 1, width: 16, kind: TypeKind::Base(Encoding::Unsigned) };
    let rec = Layout { type_entry: 3, width: 24, kind: TypeKind::Aggregate };
    let regs = vec![None, Some(0xFFFF_FFFF_FFFF_FFFEu64)];
    assert_eq!(value_source(int, Location::Memory(0x1000), &regs, true), ValueSource::Memory { address: 0x1000, len: 4 });
    assert_eq!(value_source(wide, Location::Memory(0x1000), &regs, true), ValueSource::Memory { address: 0x1000, len: 16 });
    assert_eq!(value_source(int, Location::Register(1), &regs, true), ValueSource::Bytes(vec![0xFE, 0xFF, 0xFF, 0xFF]));
    assert_eq!(value_source(int, Location::Register(0), &regs, true), ValueSource::Missing(Need::Register(0)));
    assert_eq!(value_source(int, Location::Register(9), &regs, true), ValueSource::Missing(Need::Register(9)));
    assert_eq!(value_source(int, Location::Value(7), &regs, false), ValueSource::Bytes(vec![0, 0, 0, 7]));
    assert_eq!(value_source(wide, Location::Value(7), &regs, true), ValueSource::WidthMismatch { width: 16 });
    assert_eq!(value_source(rec, Location::Memory(0x1000), &regs, true), ValueSource::Bytes(Vec::new()));
    match value_source(int, Location::Register(1), &regs, true) {
        ValueSource::Bytes(b) => assert_eq!(decode_value(int, &b, true), Ok(Value::Number(Scalar::Signed(-2)))),
        other => panic!("unexpected {:?}", other),
    }
}
