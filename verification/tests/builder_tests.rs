use macro_workshop::builder::{
    EachName, each_name, vec_element_type, BuilderError, BuilderField, BuilderInput, FieldAttr,
    FieldTypeShape, NestedMeta, NestedValue, SegmentArgs, Setter,
};
use macro_workshop::builder_struct::BuilderStruct;

fn vec_ty() -> FieldTypeShape {
    FieldTypeShape::Path {
        last_segment: "Vec".to_string(),
        args: SegmentArgs::AngleBracketed { first_is_type: true },
    }
}

fn plain_ty(name: &str) -> FieldTypeShape {
    FieldTypeShape::Path { last_segment: name.to_string(), args: SegmentArgs::Bare }
}

fn each(value: &str) -> FieldAttr {
    FieldAttr {
        is_builder: true,
        nested: vec![NestedMeta {
            path_is_each: true,
            value: NestedValue::Str(EachName { text: value.to_string(), is_ident: true }),
        }],
    }
}

fn str_value(text: &str) -> NestedValue {
    NestedValue::Str(EachName { text: text.to_string(), is_ident: true })
}

fn each_text(r: Result<Option<EachName>, BuilderError>) -> Result<Option<String>, BuilderError> {
    r.map(|o| o.map(|n| n.text))
}

fn field(name: &str, ty: FieldTypeShape, attrs: Vec<FieldAttr>) -> BuilderField {
    BuilderField { name: Some(name.to_string()), ty, attrs }
}

#[test]
fn builder_struct_setters_chain() {
    let mut builder_instance = BuilderStruct {
        x: 1,
        executable: "Something".to_string(),
        args: vec!["elem".to_string()],
    };

    builder_instance
        .x(4)
        .executable("cargo".to_string())
        .arg("elem2".to_string())
        .arg("elem3".to_string());

    assert_eq!(
        BuilderStruct {
            x: 4,
            executable: "cargo".to_string(),
            args: vec!["elem".to_string(), "elem2".to_string(), "elem3".to_string()]
        },
        builder_instance,
        "Expected both the structs to be same"
    );
}

#[test]
fn setters_of_the_command_struct() {
    let input = BuilderInput::Struct(vec![
        field("x", plain_ty("u64"), vec![]),
        field("args", vec_ty(), vec![each("arg")]),
        field("executable", plain_ty("String"), vec![]),
    ]);
    let setters = match macro_workshop::builder::derive(&input) {
        Ok(s) => s,
        Err(_) => panic!("setters expected"),
    };
    assert_eq!(setters.len(), 3);
    match &setters[0] {
        Setter::Replace { field } => assert_eq!(field, "x"),
        _ => panic!("replacing setter expected"),
    }
    match &setters[1] {
        Setter::Push { method, field } => {
            assert_eq!(method, "arg");
            assert_eq!(field, "args");
        }
        _ => panic!("pushing setter expected"),
    }
}

#[test]
fn builder_on_enum_is_refused() {
    assert_eq!(macro_workshop::builder::derive(&BuilderInput::NotStruct).err(), Some(BuilderError::NotStruct));
    assert_eq!(
        BuilderError::NotStruct.message(),
        "Builder Derive macro can only be derived for structs"
    );
    assert!(!BuilderError::NotStruct.is_panic());
}

#[test]
fn unit_struct_gets_no_setters() {
    match macro_workshop::builder::derive(&BuilderInput::Struct(vec![])) {
        Ok(s) => assert_eq!(s.len(), 0),
        Err(_) => panic!("no error expected"),
    }
}

#[test]
fn builder_panics_on_bad_fields() {
    let unnamed = BuilderField { name: None, ty: plain_ty("u8"), attrs: vec![] };
    assert_eq!(
        macro_workshop::builder::derive(&BuilderInput::Struct(vec![unnamed])).err(),
        Some(BuilderError::UnnamedField)
    );
    let not_vec = field("xs", plain_ty("String"), vec![each("x")]);
    assert_eq!(macro_workshop::builder::derive(&BuilderInput::Struct(vec![not_vec])).err(), Some(BuilderError::NotVec));
    assert_eq!(BuilderError::NotVec.message(), "couldn't extract the Generic from Iterator");
    assert!(BuilderError::NotVec.is_panic());
}

#[test]
fn each_attribute_reading() {
    let other = FieldAttr { is_builder: false, nested: vec![] };
    assert_eq!(each_text(each_name(&vec![other])), Ok(None));
    assert_eq!(each_text(each_name(&vec![each("arg")])), Ok(Some("arg".to_string())));
    let two = FieldAttr {
        is_builder: true,
        nested: vec![
            NestedMeta { path_is_each: true, value: str_value("a") },
            NestedMeta { path_is_each: true, value: str_value("b") },
        ],
    };
    assert_eq!(each_text(each_name(&vec![two])), Ok(Some("b".to_string())));
    let not_each = FieldAttr {
        is_builder: true,
        nested: vec![NestedMeta { path_is_each: false, value: NestedValue::Missing }],
    };
    assert_eq!(each_text(each_name(&vec![not_each])), Err(BuilderError::NestedArgNotEach));
    assert_eq!(BuilderError::NestedArgNotEach.message(), "expect nested arg to be \"each\"");
    let missing = FieldAttr {
        is_builder: true,
        nested: vec![NestedMeta { path_is_each: true, value: NestedValue::Missing }],
    };
    assert_eq!(each_text(each_name(&vec![missing])), Err(BuilderError::EachValueMissing));
    assert_eq!(
        BuilderError::EachValueMissing.message(),
        "called `Result::unwrap()` on an `Err` value: Error(\"expected `=`\")"
    );
    let not_str = FieldAttr {
        is_builder: true,
        nested: vec![NestedMeta { path_is_each: true, value: NestedValue::NotStr }],
    };
    assert_eq!(each_text(each_name(&vec![not_str])), Err(BuilderError::EachValueNotStr));
    assert_eq!(
        BuilderError::EachValueNotStr.message(),
        "called `Result::unwrap()` on an `Err` value: Error(\"expected string literal\")"
    );
}

#[test]
fn only_first_builder_attribute_counts() {
    let bad = FieldAttr {
        is_builder: true,
        nested: vec![NestedMeta { path_is_each: false, value: NestedValue::Missing }],
    };
    assert_eq!(each_text(each_name(&vec![each("first"), bad])), Ok(Some("first".to_string())));
}

#[test]
fn vec_element_types() {
    assert!(vec_element_type(&vec_ty()));
    assert!(!vec_element_type(&plain_ty("Vec")));
    assert!(!vec_element_type(&plain_ty("Option")));
    assert!(!vec_element_type(&FieldTypeShape::Path {
        last_segment: "Vec".to_string(),
        args: SegmentArgs::AngleBracketed { first_is_type: false },
    }));
    assert!(!vec_element_type(&FieldTypeShape::Path {
        last_segment: "Vec".to_string(),
        args: SegmentArgs::Parenthesized,
    }));
    assert!(!vec_element_type(&FieldTypeShape::Other));
}

#[test]
fn invalid_each_name_fails_before_vec_check() {
    let attr = FieldAttr {
        is_builder: true,
        nested: vec![NestedMeta {
            path_is_each: true,
            value: NestedValue::Str(EachName { text: "1x".to_string(), is_ident: false }),
        }],
    };
    let not_vec = field("xs", plain_ty("String"), vec![attr]);
    assert_eq!(
        macro_workshop::builder::derive(&BuilderInput::Struct(vec![not_vec])).err(),
        Some(BuilderError::InvalidIdent)
    );
    assert!(BuilderError::InvalidIdent.is_panic());
}
