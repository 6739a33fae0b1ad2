//! Planning of `#[derive(Builder)]`: one chaining setter per field, or, for a
//! `Vec` field marked `#[builder(each = "name")]`, a setter `name` that
//! pushes one element.
use vstd::prelude::*;
use vstd::string::StringExecFns;

verus! {

/// The text of an `each = "text"` entry, and whether the identifier
/// constructor of the token library accepts it as an identifier.
pub struct EachName {
    pub text: String,
    pub is_ident: bool,
}

/// The value that follows a nested `name` inside `#[builder(...)]`.
pub enum NestedValue {
    /// `= "text"`.
    Str(EachName),
    /// No `=` follows the name.
    Missing,
    /// `=` followed by something other than a string literal.
    NotStr,
}

/// One `name = value` entry inside `#[builder(...)]`.
pub struct NestedMeta {
    /// The entry's path is the single identifier `each`.
    pub path_is_each: bool,
    pub value: NestedValue,
}

/// An attribute of a field: whether its path is `builder`, and, for those,
/// the entries inside its parentheses, in order.
pub struct FieldAttr {
    pub is_builder: bool,
    pub nested: Vec<NestedMeta>,
}

/// What the planner reads of a field's type: the last path segment and, if
/// its arguments are in angle brackets, whether the first one is a type.
pub enum FieldTypeShape {
    Path { last_segment: String, args: SegmentArgs },
    Other,
}

/// The arguments of the last path segment of a field's type.
pub enum SegmentArgs {
    /// No arguments.
    Bare,
    /// `<...>`; `first_is_type` tells whether a first argument exists and is a type.
    AngleBracketed { first_is_type: bool },
    Parenthesized,
}

/// A field of the struct: its name (none for tuple-struct fields), type and
/// attributes.
pub struct BuilderField {
    pub name: Option<String>,
    pub ty: FieldTypeShape,
    pub attrs: Vec<FieldAttr>,
}

/// What `#[derive(Builder)]` reads of the item.
pub enum BuilderInput {
    /// A struct, with its fields in order (none for a unit struct).
    Struct(Vec<BuilderField>),
    /// An enum or a union.
    NotStruct,
}

/// Why `#[derive(Builder)]` refuses an item. Only `NotStruct` is reported as
/// a compile error; the others stop the macro with a panic.
#[derive(PartialEq, Eq, Structural, Debug, Clone, Copy)]
pub enum BuilderError {
    NotStruct,
    /// A field without a name.
    UnnamedField,
    /// An entry in `#[builder(...)]` other than `each`.
    NestedArgNotEach,
    /// `each` without `= "..."`.
    EachValueMissing,
    /// `each = ...` with something other than a string literal.
    EachValueNotStr,
    /// `each = "text"` where the text is not an identifier; the panic is
    /// the identifier constructor's own, raised before the `Vec` check.
    InvalidIdent,
    /// `each` on a field whose type is not `Vec<T>`.
    NotVec,
}

impl BuilderError {
    pub open spec fn spec_message(self) -> Seq<char> {
        match self {
            BuilderError::NotStruct => "Builder Derive macro can only be derived for structs"@,
            BuilderError::UnnamedField => "called `Option::unwrap()` on a `None` value"@,
            BuilderError::NestedArgNotEach => "expect nested arg to be \"each\""@,
            BuilderError::EachValueMissing => "called `Result::unwrap()` on an `Err` value: Error(\"expected `=`\")"@,
            BuilderError::EachValueNotStr => "called `Result::unwrap()` on an `Err` value: Error(\"expected string literal\")"@,
            BuilderError::InvalidIdent => "is not a valid Ident"@,
            BuilderError::NotVec => "couldn't extract the Generic from Iterator"@,
        }
    }

    /// The text of the compile error or of the panic.
    pub fn message(&self) -> (m: &'static str)
        ensures
            m@ == self.spec_message(),
    {
        match self {
            BuilderError::NotStruct => "Builder Derive macro can only be derived for structs",
            BuilderError::UnnamedField => "called `Option::unwrap()` on a `None` value",
            BuilderError::NestedArgNotEach => "expect nested arg to be \"each\"",
            BuilderError::EachValueMissing => "called `Result::unwrap()` on an `Err` value: Error(\"expected `=`\")",
            BuilderError::EachValueNotStr => "called `Result::unwrap()` on an `Err` value: Error(\"expected string literal\")",
            BuilderError::InvalidIdent => "is not a valid Ident",
            BuilderError::NotVec => "couldn't extract the Generic from Iterator",
        }
    }

    /// `true` when the macro stops with a panic rather than a compile error.
    pub fn is_panic(&self) -> (b: bool)
        ensures
            b == !(*self is NotStruct),
    {
        match self {
            BuilderError::NotStruct => false,
            _ => true,
        }
    }
}

/// The type is `...::Vec<T, ...>` with a type as its first generic argument.
pub open spec fn spec_vec_element_type(ty: FieldTypeShape) -> bool {
    match ty {
        FieldTypeShape::Path { last_segment, args } => last_segment@ == "Vec"@ && (
        args matches SegmentArgs::AngleBracketed { first_is_type } && first_is_type),
        FieldTypeShape::Other => false,
    }
}

/// Whether the field's type is a `Vec` whose element type can be named: the
/// first generic argument of its last path segment, which must be a type.
pub fn vec_element_type(ty: &FieldTypeShape) -> (res: bool)
    ensures
        res == spec_vec_element_type(*ty),
{
    match ty {
        FieldTypeShape::Path { last_segment, args } => {
            if !last_segment.eq(&String::from_str("Vec")) {
                return false;
            }
            match args {
                SegmentArgs::AngleBracketed { first_is_type } => *first_is_type,
                _ => false,
            }
        },
        FieldTypeShape::Other => false,
    }
}

/// The index of the first `#[builder]` attribute from position `i` on.
pub open spec fn first_builder_attr(attrs: Seq<FieldAttr>, i: int) -> Option<int>
    decreases attrs.len() - i,
{
    if i < 0 || i >= attrs.len() {
        None
    } else if attrs[i].is_builder {
        Some(i)
    } else {
        first_builder_attr(attrs, i + 1)
    }
}

/// The `each` name that the entries of one `#[builder(...)]` give, read in
/// order; the last `each` wins.
pub open spec fn spec_each_from_nested(nested: Seq<NestedMeta>) -> Result<
    Option<EachName>,
    BuilderError,
>
    decreases nested.len(),
{
    if nested.len() == 0 {
        Ok(None)
    } else {
        match spec_each_from_nested(nested.drop_last()) {
            Err(e) => Err(e),
            Ok(_) => {
                let m = nested.last();
                if !m.path_is_each {
                    Err(BuilderError::NestedArgNotEach)
                } else {
                    match m.value {
                        NestedValue::Str(n) => Ok(Some(n)),
                        NestedValue::Missing => Err(BuilderError::EachValueMissing),
                        NestedValue::NotStr => Err(BuilderError::EachValueNotStr),
                    }
                }
            },
        }
    }
}

/// The `each` name of a field: read from its first `#[builder]` attribute
/// only.
pub open spec fn spec_each_name(attrs: Seq<FieldAttr>) -> Result<Option<EachName>, BuilderError> {
    match first_builder_attr(attrs, 0) {
        None => Ok(None),
        Some(i) => spec_each_from_nested(attrs[i].nested@),
    }
}

/// Reads the `each` name from the first `#[builder(...)]` attribute.
pub fn each_name(attrs: &Vec<FieldAttr>) -> (res: Result<Option<EachName>, BuilderError>)
    ensures
        res == spec_each_name(attrs@),
{
    let mut i: usize = 0;
    while i < attrs.len()
        invariant
            i <= attrs.len(),
            first_builder_attr(attrs@, 0) == first_builder_attr(attrs@, i as int),
        decreases attrs.len() - i,
    {
        if attrs[i].is_builder {
            assert(first_builder_attr(attrs@, i as int) == Some(i as int));
            let nested = &attrs[i].nested;
            let mut found: Option<EachName> = None;
            let mut j: usize = 0;
            while j < nested.len()
                invariant
                    j <= nested.len(),
                    i < attrs.len(),
                    first_builder_attr(attrs@, 0) == Some(i as int),
                    *nested == attrs@[i as int].nested,
                    spec_each_from_nested(nested@.take(j as int)) == Ok::<
                        Option<EachName>,
                        BuilderError,
                    >(found),
                decreases nested.len() - j,
            {
                assert(nested@.take(j + 1).drop_last() =~= nested@.take(j as int));
                let m = &nested[j];
                if !m.path_is_each {
                    proof { lemma_nested_error_persists(nested@, j + 1); }
                    return Err(BuilderError::NestedArgNotEach);
                }
                match &m.value {
                    NestedValue::Str(n) => {
                        found = Some(EachName { text: n.text.clone(), is_ident: n.is_ident });
                    },
                    NestedValue::Missing => {
                        proof { lemma_nested_error_persists(nested@, j + 1); }
                        return Err(BuilderError::EachValueMissing);
                    },
                    NestedValue::NotStr => {
                        proof { lemma_nested_error_persists(nested@, j + 1); }
                        return Err(BuilderError::EachValueNotStr);
                    },
                }
                j = j + 1;
            }
            assert(nested@.take(j as int) =~= nested@);
            return Ok(found);
        }
        i = i + 1;
    }
    Ok(None)
}

proof fn lemma_nested_error_persists(nested: Seq<NestedMeta>, k: int)
    requires
        0 <= k <= nested.len(),
        spec_each_from_nested(nested.take(k)) is Err,
    ensures
        spec_each_from_nested(nested) == spec_each_from_nested(nested.take(k)),
    decreases nested.len() - k,
{
    if k < nested.len() {
        assert(nested.take(k + 1).drop_last() =~= nested.take(k));
        lemma_nested_error_persists(nested, k + 1);
    } else {
        assert(nested.take(k) =~= nested);
    }
}

/// The setter generated for one field.
pub enum Setter {
    /// `fn <field>(&mut self, new_val: <field type>) -> &mut Self` that replaces the field.
    Replace { field: String },
    /// `fn <method>(&mut self, new_val: <element type>) -> &mut Self` that pushes onto the field.
    Push { method: String, field: String },
}

/// What the macro does with one field: the error it stops on, or the kind
/// of setter (`Some(method)` for a pushing setter).
pub open spec fn spec_field_plan(f: BuilderField) -> Result<Option<Seq<char>>, BuilderError> {
    if f.name is None {
        Err(BuilderError::UnnamedField)
    } else {
        match spec_each_name(f.attrs@) {
            Err(e) => Err(e),
            Ok(None) => Ok(None),
            Ok(Some(m)) => if !m.is_ident {
                Err(BuilderError::InvalidIdent)
            } else if spec_vec_element_type(f.ty) {
                Ok(Some(m.text@))
            } else {
                Err(BuilderError::NotVec)
            },
        }
    }
}

/// `s` is the setter planned for field `f`.
pub open spec fn setter_of(s: Setter, f: BuilderField) -> bool {
    &&& f.name is Some
    &&& match s {
        Setter::Replace { field } => field@ == f.name->0@ && spec_field_plan(f) == Ok::<
            Option<Seq<char>>,
            BuilderError,
        >(None),
        Setter::Push { method, field } => field@ == f.name->0@ && spec_field_plan(f) == Ok::<
            Option<Seq<char>>,
            BuilderError,
        >(Some(method@)),
    }
}

/// Field `i` is the first that stops the macro, with error `e`.
pub open spec fn is_first_field_error(fields: Seq<BuilderField>, i: int, e: BuilderError) -> bool {
    &&& 0 <= i < fields.len()
    &&& forall|j: int| 0 <= j < i ==> #[trigger] spec_field_plan(fields[j]) is Ok
    &&& spec_field_plan(fields[i]) == Err::<Option<Seq<char>>, BuilderError>(e)
}

/// The setters of the fields, one per field in order, or the error of the
/// first field that stops the macro.
pub fn plan_setters(fields: &Vec<BuilderField>) -> (res: Result<Vec<Setter>, BuilderError>)
    ensures
        match res {
            Ok(setters) => {
                &&& setters.len() == fields.len()
                &&& forall|k: int|
                    0 <= k < fields.len() ==> setter_of(#[trigger] setters@[k], fields@[k])
            },
            Err(e) => exists|i: int| #[trigger] is_first_field_error(fields@, i, e),
        },
{
    let mut setters: Vec<Setter> = Vec::new();
    let mut i: usize = 0;
    while i < fields.len()
        invariant
            i <= fields.len(),
            setters.len() == i,
            forall|k: int| 0 <= k < i ==> setter_of(#[trigger] setters@[k], fields@[k]),
        decreases fields.len() - i,
    {
        let field = &fields[i];
        assert(forall|j: int| 0 <= j < i ==> #[trigger] spec_field_plan(fields@[j]) is Ok) by {
            assert(forall|j: int| 0 <= j < i ==> setter_of(setters@[j], fields@[j]));
        }
        let name = match &field.name {
            None => {
                let e = BuilderError::UnnamedField;
                assert(is_first_field_error(fields@, i as int, e));
                return Err(e);
            },
            Some(n) => n,
        };
        match each_name(&field.attrs) {
            Err(e) => {
                assert(is_first_field_error(fields@, i as int, e));
                return Err(e);
            },
            Ok(None) => {
                setters.push(Setter::Replace { field: name.clone() });
            },
            Ok(Some(each)) => {
                if !each.is_ident {
                    let e = BuilderError::InvalidIdent;
                    assert(is_first_field_error(fields@, i as int, e));
                    return Err(e);
                }
                let method = each.text;
                if !vec_element_type(&field.ty) {
                    let e = BuilderError::NotVec;
                    assert(is_first_field_error(fields@, i as int, e));
                    return Err(e);
                }
                setters.push(Setter::Push { method, field: name.clone() });
            },
        }
        i = i + 1;
    }
    Ok(setters)
}

/// Plans the setters of `#[derive(Builder)]`: refused for anything but a
/// struct, otherwise as `plan_setters` gives them.
pub fn derive(input: &BuilderInput) -> (res: Result<Vec<Setter>, BuilderError>)
    ensures
        match input {
            BuilderInput::NotStruct => res == Err::<Vec<Setter>, BuilderError>(
                BuilderError::NotStruct,
            ),
            BuilderInput::Struct(fields) => match res {
                Ok(setters) => {
                    &&& setters.len() == fields.len()
                    &&& forall|k: int|
                        0 <= k < fields.len() ==> setter_of(#[trigger] setters@[k], fields@[k])
                },
                Err(e) => exists|i: int| #[trigger] is_first_field_error(fields@, i, e),
            },
        },
{
    match input {
        BuilderInput::NotStruct => Err(BuilderError::NotStruct),
        BuilderInput::Struct(fields) => plan_setters(fields),
    }
}

/// The value of one field of a struct, as its setters see it: a whole
/// value, or the elements of a `Vec`.
pub enum Slot<T> {
    Whole(T),
    Elements(Seq<T>),
}

/// What a call of a generated setter does to the fields of `self`: the
/// method body `self.<field> = new_val; self` replaces slot `k`, the body
/// `self.<field>.push(new_val); self` appends one element to it; the call
/// hands back `self`, so calls chain on the same value.
pub open spec fn setter_call<T>(s: Setter, k: int, slots: Seq<Slot<T>>, new_val: T) -> Seq<Slot<T>> {
    match s {
        Setter::Replace { .. } => slots.update(k, Slot::Whole(new_val)),
        Setter::Push { .. } => match slots[k] {
            Slot::Elements(elems) => slots.update(k, Slot::Elements(elems.push(new_val))),
            Slot::Whole(_) => slots,
        },
    }
}

/// For every struct that the derive accepts: field `k` gets exactly one
/// setter; without `each` it replaces field `k`, with `each = "m"` it is the
/// method `m`, which appends one element to field `k` (no setter taking the
/// whole `Vec` is made for that field); and either way every other field
/// keeps its value.
pub proof fn lemma_setter_touches_own_field<T>(
    fields: Seq<BuilderField>,
    setters: Seq<Setter>,
    k: int,
    slots: Seq<Slot<T>>,
    new_val: T,
)
    requires
        setters.len() == fields.len(),
        forall|j: int| 0 <= j < fields.len() ==> setter_of(#[trigger] setters[j], fields[j]),
        0 <= k < fields.len(),
        slots.len() == fields.len(),
        setters[k] is Push ==> slots[k] is Elements,
    ensures
        setter_call(setters[k], k, slots, new_val).len() == slots.len(),
        forall|j: int|
            0 <= j < slots.len() && j != k ==> #[trigger] setter_call(setters[k], k, slots, new_val)[j]
                == slots[j],
        spec_field_plan(fields[k]) == Ok::<Option<Seq<char>>, BuilderError>(None) ==> {
            &&& setters[k] matches Setter::Replace { field } && field@ == fields[k].name->0@
            &&& setter_call(setters[k], k, slots, new_val)[k] == Slot::Whole(new_val)
        },
        spec_field_plan(fields[k]) matches Ok(Some(m)) ==> {
            &&& setters[k] matches Setter::Push { method, field } && method@ == m && field@
                == fields[k].name->0@
            &&& setter_call(setters[k], k, slots, new_val)[k] == Slot::Elements(
                slots[k]->Elements_0.push(new_val),
            )
        },
{
    assert(setter_of(setters[k], fields[k]));
}


proof fn lemma_first_builder_shift(a: FieldAttr, attrs: Seq<FieldAttr>, i: int)
    requires
        !a.is_builder,
        0 <= i,
    ensures
        first_builder_attr(seq![a] + attrs, i + 1) == (match first_builder_attr(attrs, i) {
            Some(k) => Some(k + 1),
            None => None::<int>,
        }),
    decreases attrs.len() - i,
{
    let longer = seq![a] + attrs;
    if i < attrs.len() {
        assert(longer[i + 1] == attrs[i]);
        lemma_first_builder_shift(a, attrs, i + 1);
    }
}

/// An attribute whose path is not `builder` (a doc comment, say) does not
/// change the `each` name, wherever it stands before the others.
pub proof fn lemma_other_attr_ignored(a: FieldAttr, attrs: Seq<FieldAttr>)
    requires
        !a.is_builder,
    ensures
        spec_each_name(seq![a] + attrs) == spec_each_name(attrs),
{
    let longer = seq![a] + attrs;
    assert(longer[0] == a);
    lemma_first_builder_shift(a, attrs, 0);
    if let Some(k) = first_builder_attr(attrs, 0) {
        lemma_first_builder_in_range(attrs, 0);
        assert(longer[k + 1] == attrs[k]);
    }
}

proof fn lemma_first_builder_in_range(attrs: Seq<FieldAttr>, i: int)
    requires
        0 <= i,
    ensures
        first_builder_attr(attrs, i) matches Some(k) ==> i <= k < attrs.len() && attrs[k].is_builder
            && forall|j: int| i <= j < k ==> !(#[trigger] attrs[j]).is_builder,
        first_builder_attr(attrs, i) is None ==> forall|j: int|
            i <= j < attrs.len() ==> !(#[trigger] attrs[j]).is_builder,
    decreases attrs.len() - i,
{
    if i < attrs.len() && !attrs[i].is_builder {
        lemma_first_builder_in_range(attrs, i + 1);
    }
}

/// The `each` name is read from the first `#[builder]` attribute, wherever
/// it stands among the field's attributes; with no `#[builder]` attribute
/// there is none.
pub proof fn lemma_first_builder_attr_read(attrs: Seq<FieldAttr>, k: int)
    requires
        0 <= k < attrs.len(),
        attrs[k].is_builder,
        forall|j: int| 0 <= j < k ==> !(#[trigger] attrs[j]).is_builder,
    ensures
        spec_each_name(attrs) == spec_each_from_nested(attrs[k].nested@),
{
    lemma_first_builder_in_range(attrs, 0);
    if let Some(m) = first_builder_attr(attrs, 0) {
        if m != k {
            assert(m < k || k < m);
        }
    }
}

/// Without any `#[builder]` attribute a field has no `each` name.
pub proof fn lemma_no_builder_attr(attrs: Seq<FieldAttr>)
    requires
        forall|j: int| 0 <= j < attrs.len() ==> !(#[trigger] attrs[j]).is_builder,
    ensures
        spec_each_name(attrs) == Ok::<Option<EachName>, BuilderError>(None),
{
    lemma_first_builder_in_range(attrs, 0);
    if let Some(m) = first_builder_attr(attrs, 0) {
        assert(attrs[m].is_builder);
    }
}

} // verus!
