use macro_workshop::debug::{
    add_trait_bounds, extract_debug_format, is_phantomdata_of_param, render_debug,
    AttrValue, DebugAttr, DebugAttrError, DebugError, DebugField, DebugInput, GenericParamModel,
    InnerPath, LastArgs, PathInfo, TypeModel,
};

fn simple_path(ident: &str) -> TypeModel {
    TypeModel::Path {
        info: PathInfo {
            plain: true,
            first_ident: ident.to_string(),
            segment_count: 1,
            first_bare: true,
            tokens: ident.to_string(),
            last_ident: ident.to_string(),
            last_args: LastArgs::NotAngle,
        },
        children: vec![],
    }
}

fn generic_path(ident: &str, arg: TypeModel, inner: Option<InnerPath>) -> TypeModel {
    TypeModel::Path {
        info: PathInfo {
            plain: true,
            first_ident: ident.to_string(),
            segment_count: 1,
            first_bare: false,
            tokens: format!("{} < ... >", ident),
            last_ident: ident.to_string(),
            last_args: LastArgs::Angle { count: 1, first_path: inner },
        },
        children: vec![arg],
    }
}

fn inner(ident: &str) -> Option<InnerPath> {
    Some(InnerPath {
        plain: true,
        segment_count: 1,
        first_ident: ident.to_string(),
        first_bare: true,
    })
}

fn assoc_path(param: &str, item: &str) -> TypeModel {
    TypeModel::Path {
        info: PathInfo {
            plain: true,
            first_ident: param.to_string(),
            segment_count: 2,
            first_bare: true,
            tokens: format!("{} :: {}", param, item),
            last_ident: item.to_string(),
            last_args: LastArgs::NotAngle,
        },
        children: vec![],
    }
}

fn field(name: &str, ty: TypeModel, attrs: Vec<DebugAttr>) -> DebugField {
    DebugField { name: Some(name.to_string()), ty, attrs }
}

fn type_param(n: &str) -> GenericParamModel {
    GenericParamModel::Type { name: n.to_string() }
}

fn fmt_attr(s: &str) -> DebugAttr {
    DebugAttr::NameValue { is_debug: true, value: AttrValue::Str(s.to_string()) }
}

#[test]
fn debug_format_is_read() {
    assert_eq!(extract_debug_format(&vec![]), Ok(None));
    assert_eq!(extract_debug_format(&vec![fmt_attr("0b{:08b}")]), Ok(Some("0b{:08b}".to_string())));
    let other = DebugAttr::NameValue { is_debug: false, value: AttrValue::OtherLit };
    let other_list = DebugAttr::NotNameValue { is_debug: false };
    assert_eq!(
        extract_debug_format(&vec![other, other_list, fmt_attr("{}")]),
        Ok(Some("{}".to_string()))
    );
}

#[test]
fn debug_format_errors() {
    assert_eq!(
        extract_debug_format(&vec![DebugAttr::NotNameValue { is_debug: true }]),
        Err(DebugAttrError::ExpectedNameValue { index: 0 })
    );
    assert_eq!(
        extract_debug_format(&vec![fmt_attr("a"), fmt_attr("b")]),
        Err(DebugAttrError::Duplicate { index: 1 })
    );
    assert_eq!(
        extract_debug_format(&vec![DebugAttr::NameValue { is_debug: true, value: AttrValue::OtherLit }]),
        Err(DebugAttrError::NotStrLit { index: 0, is_lit: true })
    );
    let int_then_str = vec![
        DebugAttr::NameValue { is_debug: true, value: AttrValue::OtherExpr },
        fmt_attr("x"),
    ];
    assert_eq!(
        extract_debug_format(&int_then_str),
        Err(DebugAttrError::NotStrLit { index: 0, is_lit: false })
    );
    assert_eq!(DebugAttrError::Duplicate { index: 1 }.message(), "duplicate #[debug = \"...\"] attribute");
    assert_eq!(DebugAttrError::ExpectedNameValue { index: 0 }.message(), "expected #[debug = \"...\"]");
}

#[test]
fn duplicate_is_reported_before_value_kind() {
    let attrs = vec![fmt_attr("a"), DebugAttr::NameValue { is_debug: true, value: AttrValue::OtherLit }];
    assert_eq!(extract_debug_format(&attrs), Err(DebugAttrError::Duplicate { index: 1 }));
}

#[test]
fn phantom_data_shapes() {
    let t = "T".to_string();
    assert!(is_phantomdata_of_param(&generic_path("PhantomData", simple_path("T"), inner("T")), &t));
    assert!(!is_phantomdata_of_param(&generic_path("PhantomData", simple_path("U"), inner("U")), &t));
    assert!(!is_phantomdata_of_param(&generic_path("Vec", simple_path("T"), inner("T")), &t));
    assert!(!is_phantomdata_of_param(&simple_path("T"), &t));
    let not_plain = Some(InnerPath {
        plain: false,
        segment_count: 1,
        first_ident: "T".to_string(),
        first_bare: true,
    });
    assert!(!is_phantomdata_of_param(&generic_path("PhantomData", simple_path("T"), not_plain), &t));
    let assoc = Some(InnerPath {
        plain: true,
        segment_count: 2,
        first_ident: "T".to_string(),
        first_bare: true,
    });
    assert!(!is_phantomdata_of_param(&generic_path("PhantomData", assoc_path("T", "V"), assoc), &t));
}

#[test]
fn type_parameter_in_field_gets_bound() {
    let generics = vec![type_param("T")];
    let fields = vec![field("value", simple_path("T"), vec![]), field("bitmask", simple_path("u8"), vec![])];
    let b = add_trait_bounds(&generics, &fields);
    assert_eq!(b.bounded, vec![true]);
    assert!(b.where_types.is_empty());
}

#[test]
fn nested_type_parameter_gets_bound() {
    let generics = vec![GenericParamModel::Other, type_param("T"), type_param("U")];
    let fields = vec![field("v", generic_path("Vec", simple_path("T"), inner("T")), vec![])];
    let b = add_trait_bounds(&generics, &fields);
    assert_eq!(b.bounded, vec![false, true, false]);
}

#[test]
fn phantom_only_parameter_gets_no_bound() {
    let generics = vec![type_param("T")];
    let fields = vec![
        field("marker", generic_path("PhantomData", simple_path("T"), inner("T")), vec![]),
        field("string", simple_path("String"), vec![]),
    ];
    let b = add_trait_bounds(&generics, &fields);
    assert_eq!(b.bounded, vec![false]);
}

#[test]
fn phantom_of_other_type_still_walked() {
    let generics = vec![type_param("T")];
    let fields = vec![field("m", generic_path("PhantomData", simple_path("String"), inner("String")), vec![])];
    let b = add_trait_bounds(&generics, &fields);
    assert_eq!(b.bounded, vec![false]);
    let fields = vec![field("m", generic_path("PhantomData", generic_path("Box", simple_path("T"), inner("T")), None), vec![])];
    let b = add_trait_bounds(&generics, &fields);
    assert_eq!(b.bounded, vec![true]);
}

#[test]
fn associated_type_goes_to_where_clause() {
    let generics = vec![type_param("T")];
    let fields = vec![
        field("values", generic_path("Vec", assoc_path("T", "Value"), None), vec![]),
        field("more", assoc_path("T", "Value"), vec![]),
    ];
    let b = add_trait_bounds(&generics, &fields);
    assert_eq!(b.bounded, vec![false]);
    assert_eq!(b.where_types, vec!["T :: Value".to_string()]);
}

#[test]
fn derive_plans_fields_in_order() {
    let input = DebugInput::NamedStruct {
        generics: vec![],
        fields: vec![
            field("name", simple_path("str"), vec![]),
            field("bitmask", simple_path("u8"), vec![fmt_attr("0b{:08b}")]),
        ],
    };
    match macro_workshop::debug::derive(&input) {
        Ok(plan) => {
            assert_eq!(plan.fields.len(), 2);
            assert_eq!(plan.fields[0].name, "name");
            assert_eq!(plan.fields[0].format, None);
            assert_eq!(plan.fields[1].format, Some("0b{:08b}".to_string()));
            assert!(plan.bounds.bounded.is_empty());
        }
        Err(_) => panic!("plan expected"),
    }
}

#[test]
fn derive_errors() {
    assert_eq!(macro_workshop::debug::derive(&DebugInput::NotStruct).err().map(|e| e.message()), Some("CustomDebug can only be implemented on structs"));
    assert_eq!(macro_workshop::debug::derive(&DebugInput::OtherStruct).err(), Some(DebugError::NotNamedFields));
    assert_eq!(DebugError::NotNamedFields.message(), "CustomDebug expects a struct with named fields");
    let unnamed = DebugField { name: None, ty: simple_path("u8"), attrs: vec![] };
    let input = DebugInput::NamedStruct { generics: vec![], fields: vec![unnamed] };
    assert_eq!(macro_workshop::debug::derive(&input).err(), Some(DebugError::UnnamedField));
    assert_eq!(DebugError::UnnamedField.message(), "CustomDebug expects named fields");
    let input = DebugInput::NamedStruct {
        generics: vec![],
        fields: vec![
            field("a", simple_path("u8"), vec![]),
            field("b", simple_path("u8"), vec![DebugAttr::NotNameValue { is_debug: true }]),
        ],
    };
    assert_eq!(
        macro_workshop::debug::derive(&input).err(),
        Some(DebugError::Attr { field: 1, error: DebugAttrError::ExpectedNameValue { index: 0 } })
    );
}

#[test]
fn rendered_debug_text() {
    let fields = vec![
        ("name".to_string(), "\"F\"".to_string()),
        ("bitmask".to_string(), "0b00011100".to_string()),
    ];
    let text = render_debug("Field", &fields);
    assert_eq!(text, "Field { name: \"F\", bitmask: 0b00011100 }");
    assert!(text.starts_with("Field { name: \"F\","));
    assert_eq!(render_debug("Empty", &vec![]), "Empty {  }");
}

#[test]
fn qualified_phantom_data_is_not_phantom() {
    let t = "T".to_string();
    let qualified = TypeModel::Path {
        info: PathInfo {
            plain: true,
            first_ident: "crate".to_string(),
            segment_count: 2,
            first_bare: true,
            tokens: "crate :: PhantomData < T >".to_string(),
            last_ident: "PhantomData".to_string(),
            last_args: LastArgs::Angle { count: 1, first_path: inner("T") },
        },
        children: vec![simple_path("T")],
    };
    assert!(!is_phantomdata_of_param(&qualified, &t));
    let generics = vec![type_param("T")];
    let b = add_trait_bounds(&generics, &vec![field("m", qualified, vec![])]);
    assert_eq!(b.bounded, vec![true]);
}
