use macro_workshop::access::{get_bits, set_bits};
use macro_workshop::bitfield::{
    bits_from_field_type, get_return_type_for_bit_size, handle_bit_field,
    handle_bit_struct_definition, handle_getter_and_setter, struct_size_in_bits, BitFieldError,
    BitFieldItem, BitStructError, FieldType, NamedBitField, UintWidth,
};

fn path(name: &str) -> FieldType {
    FieldType::Path { last_segment: name.to_string() }
}

fn field(name: &str, ty: &str) -> NamedBitField {
    NamedBitField { name: name.to_string(), ty: path(ty) }
}

#[test]
fn specifier_widths_are_read() {
    assert_eq!(bits_from_field_type(&path("B1")), Ok(1));
    assert_eq!(bits_from_field_type(&path("B8")), Ok(8));
    assert_eq!(bits_from_field_type(&path("B64")), Ok(64));
}

#[test]
fn specifier_number_is_read_like_from_str() {
    assert_eq!(bits_from_field_type(&path("B+8")), Ok(8));
    assert_eq!(bits_from_field_type(&path("B08")), Ok(8));
    assert_eq!(bits_from_field_type(&path("B-8")), Err(BitFieldError::InvalidSpecifier));
    assert_eq!(bits_from_field_type(&path("B 8")), Err(BitFieldError::InvalidSpecifier));
    assert_eq!(
        bits_from_field_type(&path("B99999999999999999999999")),
        Err(BitFieldError::InvalidSpecifier)
    );
}

#[test]
fn specifier_out_of_range_is_refused() {
    assert_eq!(bits_from_field_type(&path("B0")), Err(BitFieldError::InvalidSpecifier));
    assert_eq!(bits_from_field_type(&path("B65")), Err(BitFieldError::InvalidSpecifier));
    assert_eq!(bits_from_field_type(&path("B")), Err(BitFieldError::InvalidSpecifier));
    assert_eq!(bits_from_field_type(&path("Bx")), Err(BitFieldError::InvalidSpecifier));
}

#[test]
fn non_specifier_types_are_refused() {
    assert_eq!(bits_from_field_type(&path("u8")), Err(BitFieldError::NotBitSpecifierName));
    assert_eq!(bits_from_field_type(&path("")), Err(BitFieldError::NotBitSpecifierName));
    assert_eq!(bits_from_field_type(&FieldType::Other), Err(BitFieldError::NotBitSpecifierType));
}

#[test]
fn bit_field_error_messages() {
    assert_eq!(BitFieldError::NotBitSpecifierType.message(), "Type needs to be B1..B64");
    assert_eq!(
        BitFieldError::NotBitSpecifierName.message(),
        "The bit specifier needs to be of type B1..B16"
    );
    assert_eq!(BitFieldError::InvalidSpecifier.message(), "Invalid Type specifier");
    assert!(BitFieldError::NotBitSpecifierType.at_call_site());
    assert!(!BitFieldError::InvalidSpecifier.at_call_site());
}

#[test]
fn specifier_definitions_cover_b1_to_b64() {
    let specs = handle_bit_struct_definition();
    assert_eq!(specs.len(), 64);
    assert_eq!(specs[0].name, "B1");
    assert_eq!(specs[0].bits, 1);
    assert_eq!(specs[9].name, "B10");
    assert_eq!(specs[63].name, "B64");
    assert_eq!(specs[63].bits, 64);
}

#[test]
fn specifier_definitions_read_back() {
    for spec in handle_bit_struct_definition() {
        assert_eq!(bits_from_field_type(&path(&spec.name)), Ok(spec.bits));
    }
}

#[test]
fn return_type_is_narrowest() {
    assert_eq!(get_return_type_for_bit_size(1), UintWidth::U8);
    assert_eq!(get_return_type_for_bit_size(8), UintWidth::U8);
    assert_eq!(get_return_type_for_bit_size(9), UintWidth::U16);
    assert_eq!(get_return_type_for_bit_size(16), UintWidth::U16);
    assert_eq!(get_return_type_for_bit_size(17), UintWidth::U32);
    assert_eq!(get_return_type_for_bit_size(32), UintWidth::U32);
    assert_eq!(get_return_type_for_bit_size(33), UintWidth::U64);
    assert_eq!(get_return_type_for_bit_size(64), UintWidth::U64);
}

#[test]
fn struct_size_sums_the_widths() {
    let fields = vec![field("a", "B1"), field("b", "B3"), field("c", "B4"), field("d", "B24")];
    assert_eq!(struct_size_in_bits(&fields), Ok(32));
    assert_eq!(struct_size_in_bits(&vec![]), Ok(0));
}

#[test]
fn struct_size_reports_first_bad_field() {
    let fields = vec![field("a", "B1"), field("b", "u8"), field("c", "B0")];
    assert_eq!(struct_size_in_bits(&fields), Err((1, BitFieldError::NotBitSpecifierName)));
}

#[test]
fn accessors_are_placed_one_after_another() {
    let fields = vec![field("a", "B1"), field("b", "B3"), field("c", "B4"), field("d", "B24")];
    let acc = match handle_getter_and_setter(&fields, 4) {
        Ok(a) => a,
        Err(_) => panic!("accessors expected"),
    };
    assert_eq!(acc.len(), 4);
    assert_eq!(acc[0].getter, "get_a");
    assert_eq!(acc[0].setter, "set_a");
    assert_eq!(acc[3].getter, "get_d");
    let offsets: Vec<usize> = acc.iter().map(|a| a.offset).collect();
    assert_eq!(offsets, vec![0, 1, 4, 8]);
    assert_eq!(acc[3].bits, 24);
    assert_eq!(acc[3].width, UintWidth::U32);
    assert_eq!(acc[1].width, UintWidth::U8);
    assert_eq!(acc[2].storage_bytes, 4);
}

#[test]
fn bit_field_plan_of_a_struct() {
    let item = BitFieldItem::NamedStruct(vec![
        field("a", "B1"),
        field("b", "B3"),
        field("c", "B4"),
        field("d", "B24"),
    ]);
    match handle_bit_field(&item) {
        Ok(plan) => {
            assert_eq!(plan.size_in_bytes, 4);
            assert_eq!(plan.accessors.len(), 4);
            assert_eq!(plan.accessors[2].offset, 4);
        }
        Err(_) => panic!("plan expected"),
    }
}

#[test]
fn bit_field_errors() {
    assert_eq!(handle_bit_field(&BitFieldItem::NotStruct).err(), Some(BitStructError::NotStruct));
    assert_eq!(
        handle_bit_field(&BitFieldItem::OtherStruct).err(),
        Some(BitStructError::NotNamedFields)
    );
    let odd = BitFieldItem::NamedStruct(vec![field("a", "B1"), field("b", "B3")]);
    assert_eq!(handle_bit_field(&odd).err(), Some(BitStructError::SizeNotByteMultiple));
    let bad = BitFieldItem::NamedStruct(vec![field("a", "B8"), field("b", "B70")]);
    assert_eq!(
        handle_bit_field(&bad).err(),
        Some(BitStructError::Field { index: 1, error: BitFieldError::InvalidSpecifier })
    );
}

#[test]
fn bit_struct_error_messages() {
    assert_eq!(BitStructError::NotStruct.message(), "macro only allowed on structs atm");
    assert_eq!(
        BitStructError::NotNamedFields.message(),
        "only named fields allowed for this attribute"
    );
    assert_eq!(
        BitStructError::SizeNotByteMultiple.message(),
        "The bit size of the struct should be a multiple of 8"
    );
    assert_eq!(
        BitStructError::Field { index: 0, error: BitFieldError::InvalidSpecifier }.message(),
        "Invalid Type specifier"
    );
}

#[test]
fn get_reads_little_endian_slices() {
    let data = [0b1010_1101u8, 0x01, 0, 0];
    assert_eq!(get_bits(&data, 0, 1), 1);
    assert_eq!(get_bits(&data, 1, 3), 0b110);
    assert_eq!(get_bits(&data, 4, 4), 0b1010);
    assert_eq!(get_bits(&data, 8, 24), 1);
    assert_eq!(get_bits(&data, 0, 32), 0x0000_01AD);
}

#[test]
fn set_then_get_gives_the_value() {
    let mut data = [0u8; 4];
    set_bits(&mut data, 1, 3, 0b101);
    assert_eq!(get_bits(&data, 1, 3), 0b101);
    set_bits(&mut data, 8, 24, 0x00AB_CDEF);
    assert_eq!(get_bits(&data, 8, 24), 0x00AB_CDEF);
    assert_eq!(data, [0b0000_1010, 0xEF, 0xCD, 0xAB]);
}

#[test]
fn set_keeps_other_fields() {
    let mut data = [0xFFu8, 0xFF];
    set_bits(&mut data, 4, 8, 0);
    assert_eq!(get_bits(&data, 0, 4), 0xF);
    assert_eq!(get_bits(&data, 12, 4), 0xF);
    assert_eq!(data, [0x0F, 0xF0]);
}

#[test]
fn set_cuts_value_to_width() {
    let mut data = [0u8; 1];
    set_bits(&mut data, 2, 3, 0xFF);
    assert_eq!(get_bits(&data, 2, 3), 0b111);
    assert_eq!(data, [0b0001_1100]);
}

#[test]
fn full_width_field() {
    let mut data = [0u8; 8];
    set_bits(&mut data, 0, 64, u64::MAX - 1);
    assert_eq!(get_bits(&data, 0, 64), u64::MAX - 1);
    assert_eq!(data[0], 0xFE);
}

#[test]
fn writing_back_current_value_changes_nothing() {
    let mut data = [0x5Au8, 0xC3, 0x17];
    let v = get_bits(&data, 5, 11);
    set_bits(&mut data, 5, 11, v);
    assert_eq!(data, [0x5A, 0xC3, 0x17]);
}

#[test]
fn second_write_wins() {
    let mut a = [0x12u8, 0x34];
    let mut b = a;
    set_bits(&mut a, 3, 7, 0x55);
    set_bits(&mut a, 3, 7, 0x2A);
    set_bits(&mut b, 3, 7, 0x2A);
    assert_eq!(a, b);
}

#[test]
fn planned_fields_do_not_disturb_each_other() {
    let fields = vec![field("a", "B1"), field("b", "B3"), field("c", "B4"), field("d", "B24")];
    let acc = match handle_getter_and_setter(&fields, 4) {
        Ok(a) => a,
        Err(_) => panic!("accessors expected"),
    };
    let mut data = [0u8; 4];
    let values = [1u64, 5, 9, 0x00AB_CDEF];
    for (a, v) in acc.iter().zip(values.iter()) {
        set_bits(&mut data, a.offset, a.bits, *v);
    }
    for (a, v) in acc.iter().zip(values.iter()) {
        assert_eq!(get_bits(&data, a.offset, a.bits), *v);
    }
}
