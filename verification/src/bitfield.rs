//! Planning of `#[bitfield]` structs: the `B1`..`B64` width specifiers, how
//! a field's type names its width, and where each field sits in the packed
//! little-endian storage of the struct.
use vstd::prelude::*;
use vstd::string::StringExecFns;

use crate::access::{get_field_spec, lemma_set_keeps_other_fields, set_field_spec};

use crate::text::{
    all_digits, chars_of, decimal, decimal_spec, digit_char, digit_value, digits_value, is_digit, parse_usize_from,
    parse_usize_spec,
};

verus! {

/// What the planner reads of a field's type: the last path segment when the
/// type is a path (`B5`, `crate::B5`, ...), nothing otherwise.
pub enum FieldType {
    Path { last_segment: String },
    Other,
}

/// Why a field's type does not name a bit width.
#[derive(PartialEq, Eq, Structural, Debug, Clone, Copy)]
pub enum BitFieldError {
    /// The type is not a path at all.
    NotBitSpecifierType,
    /// The last path segment does not start with `B`.
    NotBitSpecifierName,
    /// `B` is not followed by a number in `1..=64`.
    InvalidSpecifier,
}

impl BitFieldError {
    pub open spec fn spec_message(self) -> Seq<char> {
        match self {
            BitFieldError::NotBitSpecifierType => "Type needs to be B1..B64"@,
            BitFieldError::NotBitSpecifierName => "The bit specifier needs to be of type B1..B16"@,
            BitFieldError::InvalidSpecifier => "Invalid Type specifier"@,
        }
    }

    /// The diagnostic text of the error.
    pub fn message(&self) -> (m: &'static str)
        ensures
            m@ == self.spec_message(),
    {
        match self {
            BitFieldError::NotBitSpecifierType => "Type needs to be B1..B64",
            BitFieldError::NotBitSpecifierName => "The bit specifier needs to be of type B1..B16",
            BitFieldError::InvalidSpecifier => "Invalid Type specifier",
        }
    }

    /// `true` when the diagnostic points at the macro call site; otherwise it
    /// points at the field's type.
    pub fn at_call_site(&self) -> (b: bool)
        ensures
            b == (*self is NotBitSpecifierType),
    {
        match self {
            BitFieldError::NotBitSpecifierType => true,
            _ => false,
        }
    }
}

/// The width that the type name `name` specifies: `B` followed by a number in
/// `1..=64`, read as `usize::from_str` reads it.
pub open spec fn spec_bits_from_name(name: Seq<char>) -> Result<usize, BitFieldError> {
    if !(name.len() > 0 && name[0] == 'B') {
        Err(BitFieldError::NotBitSpecifierName)
    } else {
        match parse_usize_spec(name.drop_first()) {
            Some(n) => if 1 <= n && n <= 64 {
                Ok(n)
            } else {
                Err(BitFieldError::InvalidSpecifier)
            },
            None => Err(BitFieldError::InvalidSpecifier),
        }
    }
}

pub open spec fn spec_bits_from_field_type(ty: FieldType) -> Result<usize, BitFieldError> {
    match ty {
        FieldType::Path { last_segment } => spec_bits_from_name(last_segment@),
        FieldType::Other => Err(BitFieldError::NotBitSpecifierType),
    }
}

/// The bit width that a field's type specifies.
pub fn bits_from_field_type(ty: &FieldType) -> (res: Result<usize, BitFieldError>)
    ensures
        res == spec_bits_from_field_type(*ty),
{
    match ty {
        FieldType::Other => Err(BitFieldError::NotBitSpecifierType),
        FieldType::Path { last_segment } => {
            let chars = chars_of(last_segment.as_str());
            if !(chars.len() > 0 && chars[0] == 'B') {
                return Err(BitFieldError::NotBitSpecifierName);
            }
            let bit_size = parse_usize_from(chars.as_slice(), 1);
            assert(chars@.skip(1) =~= last_segment@.drop_first());
            match bit_size {
                Some(n) => if 1 <= n && n <= 64 {
                    Ok(n)
                } else {
                    Err(BitFieldError::InvalidSpecifier)
                },
                None => Err(BitFieldError::InvalidSpecifier),
            }
        },
    }
}

/// The name of the width specifier for `i` bits: `B` and `i` in decimal.
pub open spec fn specifier_name(i: nat) -> Seq<char> {
    seq!['B'] + decimal_spec(i)
}

/// One width specifier type: its name and the number of bits it stands for.
pub struct BitSpecifier {
    pub name: String,
    pub bits: usize,
}

/// The specifier types `B1` to `B64`, in order, each with its width.
pub fn handle_bit_struct_definition() -> (res: Vec<BitSpecifier>)
    ensures
        res.len() == 64,
        forall|k: int|
            0 <= k < 64 ==> {
                &&& (#[trigger] res[k]).bits == k + 1
                &&& res[k].name@ == specifier_name((k + 1) as nat)
            },
{
    let mut res: Vec<BitSpecifier> = Vec::with_capacity(64);
    let mut i: usize = 1;
    while i <= 64
        invariant
            1 <= i <= 65,
            res.len() == i - 1,
            forall|k: int|
                0 <= k < i - 1 ==> {
                    &&& (#[trigger] res[k]).bits == k + 1
                    &&& res[k].name@ == specifier_name((k + 1) as nat)
                },
        decreases 65 - i,
    {
        let mut name = String::from_str("B");
        proof {
            reveal_strlit("B");
        }
        let digits = decimal(i);
        name.append(digits.as_str());
        res.push(BitSpecifier { name, bits: i });
        i = i + 1;
    }
    res
}

proof fn lemma_digit_char_value(d: nat)
    requires
        d < 10,
    ensures
        is_digit(digit_char(d)),
        digit_value(digit_char(d)) == d,
{
}

proof fn lemma_decimal_digits(n: nat)
    ensures
        decimal_spec(n).len() > 0,
        all_digits(decimal_spec(n)),
        digits_value(decimal_spec(n)) == n,
    decreases n,
{
    lemma_digit_char_value(n % 10);
    if n < 10 {
        assert(decimal_spec(n).drop_last() =~= Seq::<char>::empty());
        assert(digits_value(Seq::<char>::empty()) == 0);
    } else {
        lemma_decimal_digits(n / 10);
        let s = decimal_spec(n);
        assert(s.drop_last() =~= decimal_spec(n / 10));
        assert(s.last() == digit_char(n % 10));
        assert(digits_value(s) == digits_value(decimal_spec(n / 10)) * 10 + digit_value(digit_char(n % 10)));
        assert(n == (n / 10) * 10 + n % 10);
        assert forall|i: int| 0 <= i < s.len() implies is_digit(#[trigger] s[i]) by {
            if i < s.len() - 1 {
                assert(s[i] == decimal_spec(n / 10)[i]);
            }
        }
    }
}

/// Every specifier type that `handle_bit_struct_definition` declares is read
/// back by `bits_from_field_type` as exactly the width it was declared with.
pub proof fn lemma_specifiers_read_back(i: nat)
    requires
        1 <= i <= 64,
    ensures
        spec_bits_from_name(specifier_name(i)) == Ok::<usize, BitFieldError>(i as usize),
{
    lemma_decimal_digits(i);
    let name = specifier_name(i);
    assert(name.drop_first() =~= decimal_spec(i));
    assert(is_digit(decimal_spec(i)[0]));
}

/// A named field of a `#[bitfield]` struct.
pub struct NamedBitField {
    pub name: String,
    pub ty: FieldType,
}

/// What the planner reads of the item under `#[bitfield]`.
pub enum BitFieldItem {
    /// A struct with named fields, in declaration order.
    NamedStruct(Vec<NamedBitField>),
    /// A tuple struct or a unit struct.
    OtherStruct,
    /// Anything that is not a struct.
    NotStruct,
}

/// Total width of `fields`, or the first field whose type names no width.
pub open spec fn spec_struct_size_in_bits(fields: Seq<NamedBitField>) -> Result<
    nat,
    (usize, BitFieldError),
>
    decreases fields.len(),
{
    if fields.len() == 0 {
        Ok(0)
    } else {
        match spec_struct_size_in_bits(fields.drop_last()) {
            Err(e) => Err(e),
            Ok(n) => match spec_bits_from_field_type(fields.last().ty) {
                Err(e) => Err(((fields.len() - 1) as usize, e)),
                Ok(b) => Ok(n + b as nat),
            },
        }
    }
}

proof fn lemma_size_error_persists(fields: Seq<NamedBitField>, k: int)
    requires
        0 <= k <= fields.len(),
        spec_struct_size_in_bits(fields.take(k)) is Err,
    ensures
        spec_struct_size_in_bits(fields) == spec_struct_size_in_bits(fields.take(k)),
    decreases fields.len() - k,
{
    if k < fields.len() {
        assert(fields.take(k + 1).drop_last() =~= fields.take(k));
        lemma_size_error_persists(fields, k + 1);
    } else {
        assert(fields.take(k) =~= fields);
    }
}

/// The total number of bits of the fields, or the index of the first field
/// whose type names no width, with the reason.
pub fn struct_size_in_bits(fields: &Vec<NamedBitField>) -> (res: Result<usize, (usize, BitFieldError)>)
    requires
        fields.len() <= usize::MAX / 64,
    ensures
        match res {
            Ok(n) => spec_struct_size_in_bits(fields@) == Ok::<nat, (usize, BitFieldError)>(
                n as nat,
            ),
            Err(e) => spec_struct_size_in_bits(fields@) == Err::<nat, (usize, BitFieldError)>(
                e,
            ),
        },
{
    let mut total: usize = 0;
    let mut i: usize = 0;
    while i < fields.len()
        invariant
            i <= fields.len(),
            fields.len() <= usize::MAX / 64,
            total <= 64 * i,
            spec_struct_size_in_bits(fields@.take(i as int)) == Ok::<nat, (usize, BitFieldError)>(
                total as nat,
            ),
        decreases fields.len() - i,
    {
        assert(fields@.take(i + 1).drop_last() =~= fields@.take(i as int));
        assert(fields@.take(i + 1).last() == fields@[i as int]);
        match bits_from_field_type(&fields[i].ty) {
            Err(e) => {
                proof {
                    lemma_size_error_persists(fields@, i + 1);
                }
                return Err((i, e));
            },
            Ok(b) => {
                total = total + b;
            },
        }
        i = i + 1;
    }
    assert(fields@.take(i as int) =~= fields@);
    Ok(total)
}

/// The unsigned integer type that accessors of a field use.
#[derive(PartialEq, Eq, Structural, Debug, Clone, Copy)]
pub enum UintWidth {
    U8,
    U16,
    U32,
    U64,
}

impl UintWidth {
    pub open spec fn bits(self) -> nat {
        match self {
            UintWidth::U8 => 8,
            UintWidth::U16 => 16,
            UintWidth::U32 => 32,
            UintWidth::U64 => 64,
        }
    }
}

/// The narrowest of `u8`, `u16`, `u32`, `u64` that holds `bits` bits.
pub open spec fn spec_return_type_for_bit_size(bits: nat) -> UintWidth {
    if bits <= 8 {
        UintWidth::U8
    } else if bits <= 16 {
        UintWidth::U16
    } else if bits <= 32 {
        UintWidth::U32
    } else {
        UintWidth::U64
    }
}

/// The type that a field of `bits` bits is read and written as.
pub fn get_return_type_for_bit_size(bits: u8) -> (res: UintWidth)
    ensures
        res == spec_return_type_for_bit_size(bits as nat),
        bits <= 64 ==> bits <= res.bits(),
{
    if bits <= 8 {
        UintWidth::U8
    } else if bits <= 16 {
        UintWidth::U16
    } else if bits <= 32 {
        UintWidth::U32
    } else {
        UintWidth::U64
    }
}

/// The getter and setter of one field: their names, the field's place in
/// the storage, and the integer type they use.
pub struct Accessor {
    pub getter: String,
    pub setter: String,
    pub offset: usize,
    pub bits: usize,
    pub width: UintWidth,
    /// Number of bytes of the struct's storage.
    pub storage_bytes: usize,
}

/// `a` is the accessor of `field`, placed at bit `offset` of a storage of
/// `storage_bytes` bytes.
pub open spec fn accessor_of(a: Accessor, field: NamedBitField, offset: nat, storage_bytes: usize) -> bool {
    &&& a.getter@ == "get_"@ + field.name@
    &&& a.setter@ == "set_"@ + field.name@
    &&& a.offset == offset
    &&& spec_bits_from_field_type(field.ty) == Ok::<usize, BitFieldError>(a.bits)
    &&& a.width == spec_return_type_for_bit_size(a.bits as nat)
    &&& a.storage_bytes == storage_bytes
}

/// The bit offset of field `k`: the total width of the fields before it.
pub open spec fn spec_offset(fields: Seq<NamedBitField>, k: int) -> nat {
    spec_struct_size_in_bits(fields.take(k))->Ok_0
}

/// `accessors` are the accessors of `fields`, one per field, in order.
pub open spec fn accessors_of(accessors: Seq<Accessor>, fields: Seq<NamedBitField>, storage_bytes: usize) -> bool {
    &&& accessors.len() == fields.len()
    &&& forall|k: int|
        0 <= k < fields.len() ==> accessor_of(
            #[trigger] accessors[k],
            fields[k],
            spec_offset(fields, k),
            storage_bytes,
        )
}

/// The getter and setter of every field, placed one after the other from
/// bit 0 on; the first field whose type names no width stops the plan.
pub fn handle_getter_and_setter(fields: &Vec<NamedBitField>, struct_size_in_bytes: usize) -> (res:
    Result<Vec<Accessor>, (usize, BitFieldError)>)
    requires
        fields.len() <= usize::MAX / 64,
    ensures
        match res {
            Ok(accessors) => {
                &&& spec_struct_size_in_bits(fields@) is Ok
                &&& accessors_of(accessors@, fields@, struct_size_in_bytes)
            },
            Err(e) => spec_struct_size_in_bits(fields@) == Err::<nat, (usize, BitFieldError)>(e),
        },
{
    let mut accessors: Vec<Accessor> = Vec::new();
    let mut bit_offset: usize = 0;
    let mut i: usize = 0;
    while i < fields.len()
        invariant
            i <= fields.len(),
            fields.len() <= usize::MAX / 64,
            bit_offset <= 64 * i,
            spec_struct_size_in_bits(fields@.take(i as int)) == Ok::<nat, (usize, BitFieldError)>(
                bit_offset as nat,
            ),
            accessors.len() == i,
            forall|k: int|
                0 <= k < i ==> accessor_of(
                    #[trigger] accessors@[k],
                    fields@[k],
                    spec_offset(fields@, k),
                    struct_size_in_bytes,
                ),
        decreases fields.len() - i,
    {
        let field = &fields[i];
        assert(fields@.take(i + 1).drop_last() =~= fields@.take(i as int));
        assert(fields@.take(i + 1).last() == fields@[i as int]);
        let field_size_in_bits = match bits_from_field_type(&field.ty) {
            Err(e) => {
                proof {
                    lemma_size_error_persists(fields@, i + 1);
                }
                return Err((i, e));
            },
            Ok(b) => b,
        };
        let width = get_return_type_for_bit_size(field_size_in_bits as u8);
        let mut getter = String::from_str("get_");
        getter.append(field.name.as_str());
        let mut setter = String::from_str("set_");
        setter.append(field.name.as_str());
        accessors.push(
            Accessor {
                getter,
                setter,
                offset: bit_offset,
                bits: field_size_in_bits,
                width,
                storage_bytes: struct_size_in_bytes,
            },
        );
        bit_offset = bit_offset + field_size_in_bits;
        i = i + 1;
    }
    assert(fields@.take(i as int) =~= fields@);
    Ok(accessors)
}

/// Why `#[bitfield]` refuses an item.
#[derive(PartialEq, Eq, Structural, Debug, Clone, Copy)]
pub enum BitStructError {
    NotStruct,
    NotNamedFields,
    /// Field `index` has a type that names no width.
    Field { index: usize, error: BitFieldError },
    SizeNotByteMultiple,
}

impl BitStructError {
    pub open spec fn spec_message(self) -> Seq<char> {
        match self {
            BitStructError::NotStruct => "macro only allowed on structs atm"@,
            BitStructError::NotNamedFields => "only named fields allowed for this attribute"@,
            BitStructError::Field { index, error } => error.spec_message(),
            BitStructError::SizeNotByteMultiple => "The bit size of the struct should be a multiple of 8"@,
        }
    }

    /// The diagnostic text of the error.
    pub fn message(&self) -> (m: &'static str)
        ensures
            m@ == self.spec_message(),
    {
        match self {
            BitStructError::NotStruct => "macro only allowed on structs atm",
            BitStructError::NotNamedFields => "only named fields allowed for this attribute",
            BitStructError::Field { index, error } => error.message(),
            BitStructError::SizeNotByteMultiple => "The bit size of the struct should be a multiple of 8",
        }
    }
}

/// The layout of a `#[bitfield]` struct: its storage size and the accessors
/// of its fields.
pub struct BitStructPlan {
    pub size_in_bytes: usize,
    pub accessors: Vec<Accessor>,
}

/// What `#[bitfield]` makes of `item`: the error it reports, or the storage
/// size (the total width over 8) and the accessors of the fields.
pub open spec fn spec_bit_field_outcome(item: BitFieldItem) -> Result<nat, BitStructError> {
    match item {
        BitFieldItem::NotStruct => Err(BitStructError::NotStruct),
        BitFieldItem::OtherStruct => Err(BitStructError::NotNamedFields),
        BitFieldItem::NamedStruct(fields) => match spec_struct_size_in_bits(fields@) {
            Err((index, error)) => Err(BitStructError::Field { index, error }),
            Ok(n) => if n % 8 != 0 {
                Err(BitStructError::SizeNotByteMultiple)
            } else {
                Ok(n / 8)
            },
        },
    }
}

/// Plans the struct that `#[bitfield]` generates for `item`.
pub fn handle_bit_field(item: &BitFieldItem) -> (res: Result<BitStructPlan, BitStructError>)
    requires
        item matches BitFieldItem::NamedStruct(fields) ==> fields.len() <= usize::MAX / 64,
    ensures
        match res {
            Ok(plan) => {
                &&& spec_bit_field_outcome(*item) == Ok::<nat, BitStructError>(
                    plan.size_in_bytes as nat,
                )
                &&& item matches BitFieldItem::NamedStruct(fields) && accessors_of(
                    plan.accessors@,
                    fields@,
                    plan.size_in_bytes,
                )
            },
            Err(e) => spec_bit_field_outcome(*item) == Err::<nat, BitStructError>(e),
        },
{
    match item {
        BitFieldItem::NotStruct => Err(BitStructError::NotStruct),
        BitFieldItem::OtherStruct => Err(BitStructError::NotNamedFields),
        BitFieldItem::NamedStruct(fields) => {
            let size_in_bits = match struct_size_in_bits(fields) {
                Ok(n) => n,
                Err((index, error)) => {
                    return Err(BitStructError::Field { index, error });
                },
            };
            if size_in_bits % 8 != 0 {
                return Err(BitStructError::SizeNotByteMultiple);
            }
            let size_in_bytes = size_in_bits / 8;
            match handle_getter_and_setter(fields, size_in_bytes) {
                Ok(accessors) => Ok(BitStructPlan { size_in_bytes, accessors }),
                Err((index, error)) => Err(BitStructError::Field { index, error }),
            }
        },
    }
}

/// The width of field `k`, where its type names one.
pub open spec fn spec_field_bits(fields: Seq<NamedBitField>, k: int) -> nat {
    spec_bits_from_field_type(fields[k].ty)->Ok_0 as nat
}

proof fn lemma_prefix_sizes(fields: Seq<NamedBitField>, i: int)
    requires
        spec_struct_size_in_bits(fields) is Ok,
        0 <= i < fields.len(),
    ensures
        spec_struct_size_in_bits(fields.take(i)) is Ok,
        spec_struct_size_in_bits(fields.take(i + 1)) is Ok,
        spec_bits_from_field_type(fields[i].ty) is Ok,
        spec_offset(fields, i + 1) == spec_offset(fields, i) + spec_field_bits(fields, i),
        spec_bits_from_field_type(fields[i].ty)->Ok_0 >= 1,
{
    if spec_struct_size_in_bits(fields.take(i)) is Err {
        lemma_size_error_persists(fields, i);
    }
    if spec_struct_size_in_bits(fields.take(i + 1)) is Err {
        lemma_size_error_persists(fields, i + 1);
    }
    assert(fields.take(i + 1).drop_last() =~= fields.take(i));
    assert(fields.take(i + 1).last() == fields[i]);
}

proof fn lemma_offsets_monotone(fields: Seq<NamedBitField>, i: int, j: int)
    requires
        spec_struct_size_in_bits(fields) is Ok,
        0 <= i <= j <= fields.len(),
    ensures
        spec_offset(fields, i) <= spec_offset(fields, j),
    decreases j - i,
{
    if i < j {
        lemma_prefix_sizes(fields, j - 1);
        lemma_offsets_monotone(fields, i, j - 1);
    }
}

/// In the layout of a struct, a field ends where the next one may start at
/// the earliest, so two fields never share a bit, and every field lies
/// within the struct's total width.
pub proof fn lemma_fields_disjoint(fields: Seq<NamedBitField>, k: int, j: int)
    requires
        spec_struct_size_in_bits(fields) is Ok,
        0 <= k < j < fields.len(),
    ensures
        spec_offset(fields, k) + spec_field_bits(fields, k) <= spec_offset(fields, j),
        spec_offset(fields, j) + spec_field_bits(fields, j) <= spec_struct_size_in_bits(
            fields,
        )->Ok_0,
{
    lemma_prefix_sizes(fields, k);
    lemma_offsets_monotone(fields, k + 1, j);
    lemma_prefix_sizes(fields, j);
    lemma_offsets_monotone(fields, j + 1, fields.len() as int);
    assert(fields.take(fields.len() as int) =~= fields);
}

/// For a struct of at most 64 bits, writing one field through its setter
/// never changes what the getter of any other field reads.
pub proof fn lemma_setter_keeps_other_fields(
    fields: Seq<NamedBitField>,
    k: int,
    j: int,
    raw: u64,
    value: u64,
)
    requires
        spec_struct_size_in_bits(fields) matches Ok(n) && n <= 64,
        0 <= k < fields.len(),
        0 <= j < fields.len(),
        k != j,
    ensures
        get_field_spec(
            set_field_spec(
                raw,
                spec_offset(fields, k) as u64,
                spec_field_bits(fields, k) as u64,
                value,
            ),
            spec_offset(fields, j) as u64,
            spec_field_bits(fields, j) as u64,
        ) == get_field_spec(raw, spec_offset(fields, j) as u64, spec_field_bits(fields, j) as u64),
{
    lemma_prefix_sizes(fields, k);
    lemma_prefix_sizes(fields, j);
    if k < j {
        lemma_fields_disjoint(fields, k, j);
    } else {
        lemma_fields_disjoint(fields, j, k);
    }
    lemma_set_keeps_other_fields(
        raw,
        spec_offset(fields, k) as u64,
        spec_field_bits(fields, k) as u64,
        value,
        spec_offset(fields, j) as u64,
        spec_field_bits(fields, j) as u64,
    );
}


/// The width of a struct grows field by field: adding a field whose type
/// names a width adds that width to the total.
pub proof fn lemma_size_adds_field(fields: Seq<NamedBitField>, f: NamedBitField)
    requires
        spec_struct_size_in_bits(fields) is Ok,
        spec_bits_from_field_type(f.ty) is Ok,
    ensures
        spec_struct_size_in_bits(fields.push(f)) == Ok::<nat, (usize, BitFieldError)>(
            spec_struct_size_in_bits(fields)->Ok_0 + spec_bits_from_field_type(f.ty)->Ok_0 as nat,
        ),
{
    assert(fields.push(f).drop_last() =~= fields);
}

/// A struct with named fields whose types all name widths is refused for
/// its size exactly when the total width is not a multiple of 8; otherwise
/// its storage holds exactly the total width.
pub proof fn lemma_size_check(fields: Vec<NamedBitField>)
    requires
        spec_struct_size_in_bits(fields@) is Ok,
    ensures
        (spec_bit_field_outcome(BitFieldItem::NamedStruct(fields)) == Err::<nat, BitStructError>(
            BitStructError::SizeNotByteMultiple,
        )) == (spec_struct_size_in_bits(fields@)->Ok_0 % 8 != 0),
        spec_bit_field_outcome(BitFieldItem::NamedStruct(fields)) matches Ok(b) ==> b * 8
            == spec_struct_size_in_bits(fields@)->Ok_0,
        spec_struct_size_in_bits(fields@)->Ok_0 % 8 == 0 ==> spec_bit_field_outcome(
            BitFieldItem::NamedStruct(fields),
        ) is Ok,
{
}

} // verus!
