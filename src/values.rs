//! Typed decoding of a variable's raw bytes.

use vstd::prelude::*;
use crate::dwarf::{DebugUnit, Encoding, Entry, EntryTag, entry_ok};
use crate::search::declaration_of;
use crate::location::{Location, Need, register_at};

verus! {

/// The width assumed for a pointer type that declares no size.
pub const POINTER_WIDTH: u64 = 8;

/// A decoded number.
#[derive(Clone, Copy, Debug, PartialEq, Eq, Structural)]
pub enum Scalar {
    Signed(i64),
    Unsigned(u64),
}

/// The bytes of a number are not 1, 2, 4 or 8 long: the type and the bytes
/// read for it disagree.
#[derive(Clone, Copy, Debug, PartialEq, Eq, Structural)]
pub enum DecodeError {
    UnsupportedWidth(usize),
}

pub open spec fn pow256(n: nat) -> nat
    decreases n,
{
    if n == 0 {
        1
    } else {
        256 * pow256((n - 1) as nat)
    }
}

/// The number that little-endian bytes encode.
pub open spec fn le_value(b: Seq<u8>) -> nat
    decreases b.len(),
{
    if b.len() == 0 {
        0
    } else {
        b[0] as nat + 256 * le_value(b.subrange(1, b.len() as int))
    }
}

/// The number that big-endian bytes encode.
pub open spec fn be_value(b: Seq<u8>) -> nat
    decreases b.len(),
{
    if b.len() == 0 {
        0
    } else {
        256 * be_value(b.drop_last()) + b.last() as nat
    }
}

pub open spec fn unsigned_value(b: Seq<u8>, little_endian: bool) -> nat {
    if little_endian {
        le_value(b)
    } else {
        be_value(b)
    }
}

/// The two's-complement reading of `u` on `width` bytes.
pub open spec fn signed_value(u: nat, width: nat) -> int {
    if 2 * u >= pow256(width) {
        u - pow256(width)
    } else {
        u as int
    }
}

pub open spec fn supported_width(n: nat) -> bool {
    n == 1 || n == 2 || n == 4 || n == 8
}

proof fn lemma_pow256_monotonic(a: nat, b: nat)
    requires
        a <= b,
    ensures
        pow256(a) <= pow256(b),
    decreases b,
{
    if a < b {
        lemma_pow256_monotonic(a, (b - 1) as nat);
    }
}

proof fn lemma_pow256_of_8()
    ensures
        pow256(8) == 0x1_0000_0000_0000_0000,
        pow256(4) == 0x1_0000_0000,
        pow256(2) == 0x1_0000,
        pow256(1) == 0x100,
{
    reveal_with_fuel(pow256, 9);
}

proof fn lemma_le_bound(b: Seq<u8>)
    ensures
        le_value(b) < pow256(b.len()),
    decreases b.len(),
{
    if b.len() > 0 {
        let rest = b.subrange(1, b.len() as int);
        lemma_le_bound(rest);
        assert(rest.len() == b.len() - 1);
        let x = le_value(rest);
        let p = pow256(rest.len());
        assert((b[0] as nat) + 256 * x < 256 * p) by (nonlinear_arith)
            requires x < p, b[0] < 256;
    }
}

proof fn lemma_be_bound(b: Seq<u8>)
    ensures
        be_value(b) < pow256(b.len()),
    decreases b.len(),
{
    if b.len() > 0 {
        let rest = b.drop_last();
        lemma_be_bound(rest);
        let x = be_value(rest);
        let p = pow256(rest.len());
        assert(256 * x + (b.last() as nat) < 256 * p) by (nonlinear_arith)
            requires x < p, b.last() < 256;
    }
}

/// The unsigned number that `bytes` encode, for at most eight bytes.
pub(crate) fn read_unsigned(bytes: &[u8], little_endian: bool) -> (r: u64)
    requires
        bytes@.len() <= 8,
    ensures
        r == unsigned_value(bytes@, little_endian),
{
    let n = bytes.len();
    let mut v: u64 = 0;
    proof {
        lemma_pow256_of_8();
    }
    if little_endian {
        let mut k: usize = n;
        while k > 0
            invariant
                n == bytes@.len(),
                n <= 8,
                0 <= k <= n,
                v == le_value(bytes@.subrange(k as int, n as int)),
                pow256(8) == 0x1_0000_0000_0000_0000,
            decreases k,
        {
            let ghost tail = bytes@.subrange(k as int, n as int);
            let ghost next = bytes@.subrange(k - 1, n as int);
            proof {
                assert(next.subrange(1, next.len() as int) =~= tail);
                lemma_le_bound(next);
                lemma_pow256_monotonic(next.len(), 8);
            }
            v = v * 256 + bytes[k - 1] as u64;
            k = k - 1;
        }
        assert(bytes@.subrange(0, n as int) =~= bytes@);
    } else {
        let mut k: usize = 0;
        while k < n
            invariant
                n == bytes@.len(),
                n <= 8,
                0 <= k <= n,
                v == be_value(bytes@.subrange(0, k as int)),
                pow256(8) == 0x1_0000_0000_0000_0000,
            decreases n - k,
        {
            let ghost head = bytes@.subrange(0, k as int);
            let ghost next = bytes@.subrange(0, k + 1);
            proof {
                assert(next.drop_last() =~= head);
                lemma_be_bound(next);
                lemma_pow256_monotonic(next.len(), 8);
            }
            v = v * 256 + bytes[k] as u64;
            k = k + 1;
        }
        assert(bytes@.subrange(0, n as int) =~= bytes@);
    }
    v
}

/// What `decode_scalar` gives for `b`.
pub open spec fn scalar_spec(b: Seq<u8>, signed: bool, little_endian: bool) -> Result<Scalar, DecodeError> {
    if !supported_width(b.len()) {
        Err(DecodeError::UnsupportedWidth(b.len() as usize))
    } else if signed {
        Ok(Scalar::Signed(signed_value(unsigned_value(b, little_endian), b.len()) as i64))
    } else {
        Ok(Scalar::Unsigned(unsigned_value(b, little_endian) as u64))
    }
}

/// Decodes a number of 1, 2, 4 or 8 bytes as signed (two's complement) or
/// unsigned; other widths are refused. The decoded number is exact: it lies
/// in range of the result type.
pub fn decode_scalar(bytes: &[u8], signed: bool, little_endian: bool) -> (r: Result<Scalar, DecodeError>)
    ensures
        r == scalar_spec(bytes@, signed, little_endian),
        supported_width(bytes@.len()) && signed ==> {
            let v = signed_value(unsigned_value(bytes@, little_endian), bytes@.len());
            i64::MIN <= v <= i64::MAX
        },
        unsigned_value(bytes@, little_endian) < pow256(bytes@.len()),
{
    proof {
        lemma_pow256_of_8();
        if little_endian {
            lemma_le_bound(bytes@);
        } else {
            lemma_be_bound(bytes@);
        }
    }
    let n = bytes.len();
    if !(n == 1 || n == 2 || n == 4 || n == 8) {
        return Err(DecodeError::UnsupportedWidth(n));
    }
    let u = read_unsigned(bytes, little_endian);
    if !signed {
        return Ok(Scalar::Unsigned(u));
    }
    let full: i128 = if n == 1 {
        0x100
    } else if n == 2 {
        0x1_0000
    } else if n == 4 {
        0x1_0000_0000
    } else {
        0x1_0000_0000_0000_0000
    };
    assert(full == pow256(n as nat));
    let wide = u as i128;
    let v: i128 = if 2 * wide >= full {
        wide - full
    } else {
        wide
    };
    Ok(Scalar::Signed(v as i64))
}

/// How a variable's type is shown.
#[derive(Clone, Copy, Debug, PartialEq, Eq, Structural)]
pub enum TypeKind {
    Base(Encoding),
    Pointer,
    Aggregate,
}

/// The type entry of a variable, its width in bytes and how it is shown.
#[derive(Clone, Copy, Debug, PartialEq, Eq, Structural)]
pub struct Layout {
    pub type_entry: usize,
    pub width: u64,
    pub kind: TypeKind,
}

/// Why a variable's value is not decoded.
#[derive(Clone, Copy, Debug, PartialEq, Eq, Structural)]
pub enum LayoutError {
    /// The variable declares no type.
    MissingType,
    /// The type declares no size and is not a pointer.
    MissingSize { type_entry: usize },
}

pub open spec fn kind_of(t: Entry) -> TypeKind {
    match t.tag {
        EntryTag::BaseType => TypeKind::Base(t.encoding),
        EntryTag::PointerType => TypeKind::Pointer,
        _ => TypeKind::Aggregate,
    }
}

pub open spec fn layout_spec(entries: Seq<Entry>, var: int) -> Result<Layout, LayoutError> {
    match entries[declaration_of(entries, var)].type_ref {
        None => Err(LayoutError::MissingType),
        Some(t) => match entries[t as int].byte_size {
            Some(w) => Ok(Layout { type_entry: t, width: w, kind: kind_of(entries[t as int]) }),
            None => if entries[t as int].tag == EntryTag::PointerType {
                Ok(Layout { type_entry: t, width: POINTER_WIDTH, kind: TypeKind::Pointer })
            } else {
                Err(LayoutError::MissingSize { type_entry: t })
            },
        },
    }
}

/// The layout of variable `var`, from the type its declaration refers to.
pub fn layout_of(unit: &DebugUnit, var: usize) -> (r: Result<Layout, LayoutError>)
    requires
        unit.wf(),
        var < unit.entries@.len(),
    ensures
        r == layout_spec(unit.entries@, var as int),
{
    proof {
        assert(entry_ok(unit.entries@, var as int));
    }
    let d = match unit.entries[var].abstract_origin {
        Some(o) => o,
        None => var,
    };
    proof {
        assert(entry_ok(unit.entries@, d as int));
    }
    let t = match unit.entries[d].type_ref {
        Some(t) => t,
        None => return Err(LayoutError::MissingType),
    };
    let te = &unit.entries[t];
    let kind = match te.tag {
        EntryTag::BaseType => TypeKind::Base(te.encoding),
        EntryTag::PointerType => TypeKind::Pointer,
        _ => TypeKind::Aggregate,
    };
    match te.byte_size {
        Some(w) => Ok(Layout { type_entry: t, width: w, kind }),
        None => if matches!(te.tag, EntryTag::PointerType) {
            Ok(Layout { type_entry: t, width: POINTER_WIDTH, kind: TypeKind::Pointer })
        } else {
            Err(LayoutError::MissingSize { type_entry: t })
        },
    }
}

/// A decoded variable value.
#[derive(Clone, Copy, Debug, PartialEq, Eq, Structural)]
pub enum Value {
    Number(Scalar),
    /// An address, to be shown zero-padded to `width` bytes.
    Pointer { address: u64, width: usize },
    /// Not a scalar: the type's entries are shown instead.
    Aggregate { type_entry: usize },
}

/// Decodes the bytes read for a variable of the given layout.
pub fn decode_value(layout: Layout, bytes: &[u8], little_endian: bool) -> (r: Result<Value, DecodeError>)
    ensures
        match layout.kind {
            TypeKind::Aggregate => r == Ok::<Value, DecodeError>(Value::Aggregate { type_entry: layout.type_entry }),
            TypeKind::Pointer => if supported_width(bytes@.len()) {
                r == Ok::<Value, DecodeError>(Value::Pointer {
                    address: unsigned_value(bytes@, little_endian) as u64, width: bytes@.len() as usize })
            } else {
                r == Err::<Value, DecodeError>(DecodeError::UnsupportedWidth(bytes@.len() as usize))
            },
            TypeKind::Base(enc) => match scalar_spec(bytes@, enc == Encoding::Signed, little_endian) {
                Ok(s) => r == Ok::<Value, DecodeError>(Value::Number(s)),
                Err(e) => r == Err::<Value, DecodeError>(e),
            },
        },
{
    match layout.kind {
        TypeKind::Aggregate => Ok(Value::Aggregate { type_entry: layout.type_entry }),
        TypeKind::Pointer => match decode_scalar(bytes, false, little_endian) {
            Ok(Scalar::Unsigned(a)) => Ok(Value::Pointer { address: a, width: bytes.len() }),
            Ok(Scalar::Signed(_)) => Err(DecodeError::UnsupportedWidth(bytes.len())),
            Err(e) => Err(e),
        },
        TypeKind::Base(enc) => {
            let signed = matches!(enc, Encoding::Signed);
            match decode_scalar(bytes, signed, little_endian) {
                Ok(s) => Ok(Value::Number(s)),
                Err(e) => Err(e),
            }
        },
    }
}

/// Byte `k` of `v`, counting from the least significant.
pub open spec fn byte_of(v: u64, k: nat) -> u8 {
    ((v as nat / pow256(k)) % 256) as u8
}

/// The low `width` bytes of `v`, in the given byte order.
pub open spec fn word_bytes_spec(v: u64, width: nat, little_endian: bool) -> Seq<u8> {
    Seq::new(width, |k: int| if little_endian { byte_of(v, k as nat) } else { byte_of(v, (width - 1 - k) as nat) })
}

proof fn lemma_pow256_positive(n: nat)
    ensures
        pow256(n) > 0,
    decreases n,
{
    if n > 0 {
        lemma_pow256_positive((n - 1) as nat);
    }
}

/// The low `width` bytes of a register or literal value, in memory order.
pub fn word_bytes(v: u64, width: usize, little_endian: bool) -> (r: Vec<u8>)
    requires
        width <= 8,
    ensures
        r@ == word_bytes_spec(v, width as nat, little_endian),
{
    let mut low: Vec<u8> = Vec::new();
    let mut cur: u64 = v;
    let mut k: usize = 0;
    assert(pow256(0) == 1);
    assert(v as nat / 1 == v as nat);
    while k < width
        invariant
            width <= 8,
            0 <= k <= width,
            low@.len() == k,
            cur as nat == v as nat / pow256(k as nat),
            forall|t: int| 0 <= t < k ==> #[trigger] low@[t] == byte_of(v, t as nat),
        decreases width - k,
    {
        low.push((cur % 256) as u8);
        proof {
            lemma_pow256_positive(k as nat);
            vstd::arithmetic::div_mod::lemma_div_denominator(v as int, pow256(k as nat) as int, 256);
            assert(pow256((k + 1) as nat) == 256 * pow256(k as nat));
            assert(pow256(k as nat) * 256 == 256 * pow256(k as nat)) by (nonlinear_arith);
        }
        cur = cur / 256;
        k = k + 1;
    }
    if little_endian {
        assert(low@ =~= word_bytes_spec(v, width as nat, little_endian));
        return low;
    }
    let mut r: Vec<u8> = Vec::new();
    let mut j: usize = 0;
    while j < width
        invariant
            0 <= j <= width,
            low@.len() == width,
            r@.len() == j,
            forall|t: int| 0 <= t < width ==> #[trigger] low@[t] == byte_of(v, t as nat),
            forall|t: int| 0 <= t < j ==> #[trigger] r@[t] == byte_of(v, (width - 1 - t) as nat),
        decreases width - j,
    {
        r.push(low[width - 1 - j]);
        j = j + 1;
    }
    assert(r@ =~= word_bytes_spec(v, width as nat, little_endian));
    r
}

/// Where the bytes of a variable's value come from once its location is known.
#[derive(Debug, PartialEq, Eq)]
pub enum ValueSource {
    /// The bytes are at hand (none for a type that is not a scalar).
    Bytes(Vec<u8>),
    /// The bytes are `len` bytes of memory at `address`.
    Memory { address: u64, len: u64 },
    /// The location names a register whose value the frame does not hold.
    Missing(Need),
    /// A register or literal holds eight bytes, but the type is wider: the
    /// type and the location disagree.
    WidthMismatch { width: u64 },
}

/// Decides where the bytes of a variable of the given layout come from: none
/// are read for a type that is not a scalar; memory is read for the type's
/// width; a register or a literal gives its low bytes.
pub fn value_source(layout: Layout, loc: Location, registers: &Vec<Option<u64>>, little_endian: bool) -> (r: ValueSource)
    ensures
        layout.kind == TypeKind::Aggregate ==> (r matches ValueSource::Bytes(b) && b@.len() == 0),
        layout.kind != TypeKind::Aggregate ==> match loc {
            Location::Memory(a) => r == ValueSource::Memory { address: a, len: layout.width },
            Location::Register(n) => match register_at(registers@, n) {
                Some(v) => if layout.width <= 8 {
                    (r matches ValueSource::Bytes(b) && b@ == word_bytes_spec(v, layout.width as nat, little_endian))
                } else {
                    r == ValueSource::WidthMismatch { width: layout.width }
                },
                None => r == ValueSource::Missing(Need::Register(n)),
            },
            Location::Value(v) => if layout.width <= 8 {
                (r matches ValueSource::Bytes(b) && b@ == word_bytes_spec(v, layout.width as nat, little_endian))
            } else {
                r == ValueSource::WidthMismatch { width: layout.width }
            },
        },
{
    if matches!(layout.kind, TypeKind::Aggregate) {
        return ValueSource::Bytes(Vec::new());
    }
    match loc {
        Location::Memory(a) => ValueSource::Memory { address: a, len: layout.width },
        Location::Register(n) => {
            let value = if n < registers.len() as u64 { registers[n as usize] } else { None };
            match value {
                Some(v) => if layout.width <= 8 {
                    ValueSource::Bytes(word_bytes(v, layout.width as usize, little_endian))
                } else {
                    ValueSource::WidthMismatch { width: layout.width }
                },
                None => ValueSource::Missing(Need::Register(n)),
            }
        },
        Location::Value(v) => if layout.width <= 8 {
            ValueSource::Bytes(word_bytes(v, layout.width as usize, little_endian))
        } else {
            ValueSource::WidthMismatch { width: layout.width }
        },
    }
}

} // verus!
