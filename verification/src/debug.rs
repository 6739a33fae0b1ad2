//! Planning of `#[derive(CustomDebug)]`: the optional `#[debug = "..."]`
//! format of each field, the `Debug` bounds that the impl needs (inferred
//! from how the type parameters appear in the field types), and the text
//! that the generated `fmt` writes.
use vstd::prelude::*;
use vstd::string::StringExecFns;

use crate::text::{join_spec, views};

verus! {

/// The value of a `#[path = value]` attribute.
pub enum AttrValue {
    /// A string literal, with its contents.
    Str(String),
    /// A literal of another kind.
    OtherLit,
    /// An expression that is not a literal.
    OtherExpr,
}

/// An attribute of a field, as the `debug` format reader sees it.
pub enum DebugAttr {
    /// `#[path]` or `#[path(...)]`; `is_debug` when the path is `debug`.
    NotNameValue { is_debug: bool },
    /// `#[path = value]`; `is_debug` when the path is `debug`.
    NameValue { is_debug: bool, value: AttrValue },
}

/// Why the `debug` attributes of a field are refused; `index` is the
/// attribute the error points at.
#[derive(PartialEq, Eq, Structural, Debug, Clone, Copy)]
pub enum DebugAttrError {
    /// `#[debug]` or `#[debug(...)]`.
    ExpectedNameValue { index: usize },
    /// A second `#[debug = ...]`.
    Duplicate { index: usize },
    /// `#[debug = value]` whose value is not a string literal; the error
    /// points at the value, which is a literal when `is_lit`.
    NotStrLit { index: usize, is_lit: bool },
}

impl DebugAttrError {
    pub open spec fn spec_message(self) -> Seq<char> {
        match self {
            DebugAttrError::Duplicate { .. } => "duplicate #[debug = \"...\"] attribute"@,
            _ => "expected #[debug = \"...\"]"@,
        }
    }

    /// The diagnostic text of the error.
    pub fn message(&self) -> (m: &'static str)
        ensures
            m@ == self.spec_message(),
    {
        match self {
            DebugAttrError::Duplicate { .. } => "duplicate #[debug = \"...\"] attribute",
            _ => "expected #[debug = \"...\"]",
        }
    }
}

/// The custom format that the attributes of a field give, reading them in
/// order: the first refused attribute stops the reading.
pub open spec fn spec_debug_format(attrs: Seq<DebugAttr>) -> Result<Option<Seq<char>>, DebugAttrError>
    decreases attrs.len(),
{
    if attrs.len() == 0 {
        Ok(None)
    } else {
        let index = (attrs.len() - 1) as usize;
        match spec_debug_format(attrs.drop_last()) {
            Err(e) => Err(e),
            Ok(found) => match attrs.last() {
                DebugAttr::NotNameValue { is_debug } => if is_debug {
                    Err(DebugAttrError::ExpectedNameValue { index })
                } else {
                    Ok(found)
                },
                DebugAttr::NameValue { is_debug, value } => if !is_debug {
                    Ok(found)
                } else if found is Some {
                    Err(DebugAttrError::Duplicate { index })
                } else {
                    match value {
                        AttrValue::Str(s) => Ok(Some(s@)),
                        AttrValue::OtherLit => Err(DebugAttrError::NotStrLit { index, is_lit: true }),
                        AttrValue::OtherExpr => Err(
                            DebugAttrError::NotStrLit { index, is_lit: false },
                        ),
                    }
                },
            },
        }
    }
}

proof fn lemma_format_error_persists(attrs: Seq<DebugAttr>, k: int)
    requires
        0 <= k <= attrs.len(),
        spec_debug_format(attrs.take(k)) is Err,
    ensures
        spec_debug_format(attrs) == spec_debug_format(attrs.take(k)),
    decreases attrs.len() - k,
{
    if k < attrs.len() {
        assert(attrs.take(k + 1).drop_last() =~= attrs.take(k));
        lemma_format_error_persists(attrs, k + 1);
    } else {
        assert(attrs.take(k) =~= attrs);
    }
}

/// Reads the `#[debug = "..."]` format of a field: at most one, and only in
/// that form.
pub fn extract_debug_format(attrs: &Vec<DebugAttr>) -> (res: Result<Option<String>, DebugAttrError>)
    ensures
        match res {
            Ok(None) => spec_debug_format(attrs@) == Ok::<Option<Seq<char>>, DebugAttrError>(None),
            Ok(Some(s)) => spec_debug_format(attrs@) == Ok::<Option<Seq<char>>, DebugAttrError>(
                Some(s@),
            ),
            Err(e) => spec_debug_format(attrs@) == Err::<Option<Seq<char>>, DebugAttrError>(e),
        },
{
    let mut found: Option<String> = None;
    let mut i: usize = 0;
    while i < attrs.len()
        invariant
            i <= attrs.len(),
            match found {
                None => spec_debug_format(attrs@.take(i as int)) == Ok::<
                    Option<Seq<char>>,
                    DebugAttrError,
                >(None),
                Some(s) => spec_debug_format(attrs@.take(i as int)) == Ok::<
                    Option<Seq<char>>,
                    DebugAttrError,
                >(Some(s@)),
            },
        decreases attrs.len() - i,
    {
        assert(attrs@.take(i + 1).drop_last() =~= attrs@.take(i as int));
        assert(attrs@.take(i + 1).last() == attrs@[i as int]);
        match &attrs[i] {
            DebugAttr::NotNameValue { is_debug } => {
                if *is_debug {
                    proof { lemma_format_error_persists(attrs@, i + 1); }
                    return Err(DebugAttrError::ExpectedNameValue { index: i });
                }
            },
            DebugAttr::NameValue { is_debug, value } => {
                if *is_debug {
                    if found.is_some() {
                        proof { lemma_format_error_persists(attrs@, i + 1); }
                        return Err(DebugAttrError::Duplicate { index: i });
                    }
                    match value {
                        AttrValue::Str(s) => {
                            found = Some(s.clone());
                        },
                        AttrValue::OtherLit => {
                            proof { lemma_format_error_persists(attrs@, i + 1); }
                            return Err(DebugAttrError::NotStrLit { index: i, is_lit: true });
                        },
                        AttrValue::OtherExpr => {
                            proof { lemma_format_error_persists(attrs@, i + 1); }
                            return Err(DebugAttrError::NotStrLit { index: i, is_lit: false });
                        },
                    }
                }
            },
        }
        i = i + 1;
    }
    assert(attrs@.take(i as int) =~= attrs@);
    Ok(found)
}

/// What is read of a path type that stands as the single generic argument
/// of another path.
pub struct InnerPath {
    /// No qualified self type and no leading `::`.
    pub plain: bool,
    pub segment_count: usize,
    pub first_ident: String,
    /// The first segment has no generic arguments.
    pub first_bare: bool,
}

/// The generic arguments of the last segment of a path type.
pub enum LastArgs {
    /// No arguments, or arguments in parentheses.
    NotAngle,
    /// Arguments in angle brackets: how many, and, when the first one is a
    /// path type, what is read of it.
    Angle { count: usize, first_path: Option<InnerPath> },
}

/// What is read of a path type (`T`, `T::Value`, `Vec<T>`, `<X as Y>::Z`).
pub struct PathInfo {
    /// No qualified self type and no leading `::`.
    pub plain: bool,
    pub first_ident: String,
    pub segment_count: usize,
    /// The first segment has no generic arguments.
    pub first_bare: bool,
    /// The path as its tokens print, e.g. `T :: Value`.
    pub tokens: String,
    pub last_ident: String,
    pub last_args: LastArgs,
}

/// A field type, as the bound inference walks it: every type node, with the
/// types nested directly in it (generic arguments, element types, the
/// qualified self type, ...) in the order in which they are visited.
pub enum TypeModel {
    Path { info: PathInfo, children: Vec<TypeModel> },
    Other { children: Vec<TypeModel> },
}

/// The type parameter that `ty` carries as `PhantomData<P>`, if it has that
/// exact shape: the plain one-segment path `PhantomData` (so not
/// `crate::PhantomData<P>`) with one angle-bracketed argument, which is a
/// plain one-segment path without arguments.
pub open spec fn phantom_param(ty: TypeModel) -> Option<Seq<char>> {
    match ty {
        TypeModel::Path { info, children } => {
            if info.plain && info.segment_count == 1 && info.last_ident@ == "PhantomData"@ {
                match info.last_args {
                    LastArgs::Angle { count, first_path } => if count == 1 {
                        match first_path {
                            Some(inner) => if inner.plain && inner.segment_count == 1
                                && inner.first_bare {
                                Some(inner.first_ident@)
                            } else {
                                None
                            },
                            None => None,
                        }
                    } else {
                        None
                    },
                    LastArgs::NotAngle => None,
                }
            } else {
                None
            }
        },
        TypeModel::Other { .. } => None,
    }
}

/// `ty` is exactly `PhantomData<param>`.
pub fn is_phantomdata_of_param(ty: &TypeModel, param: &String) -> (res: bool)
    ensures
        res == (phantom_param(*ty) == Some(param@)),
{
    match ty {
        TypeModel::Path { info, children } => {
            if !(info.plain && info.segment_count == 1) {
                return false;
            }
            if !info.last_ident.eq(&String::from_str("PhantomData")) {
                return false;
            }
            match &info.last_args {
                LastArgs::Angle { count, first_path } => {
                    if *count != 1 {
                        return false;
                    }
                    match first_path {
                        Some(inner) => inner.plain && inner.segment_count == 1 && inner.first_bare
                            && inner.first_ident.eq(param),
                        None => false,
                    }
                },
                LastArgs::NotAngle => false,
            }
        },
        TypeModel::Other { .. } => false,
    }
}

/// Two sets of names: the type parameters used bare (`T`), and the paths
/// that start with a type parameter and go on (`T::Value`), by their tokens.
pub type Uses = (Set<Seq<char>>, Set<Seq<char>>);

pub open spec fn no_uses() -> Uses {
    (Set::empty(), Set::empty())
}

pub open spec fn union_uses(a: Uses, b: Uses) -> Uses {
    (a.0 + b.0, a.1 + b.1)
}

/// What one path type node contributes, given the type parameter names.
pub open spec fn own_uses(info: PathInfo, params: Set<Seq<char>>) -> Uses {
    if info.plain && params.contains(info.first_ident@) {
        if info.segment_count == 1 && info.first_bare {
            (Set::empty().insert(info.first_ident@), Set::empty())
        } else if info.segment_count > 1 {
            (Set::empty(), Set::empty().insert(info.tokens@))
        } else {
            no_uses()
        }
    } else {
        no_uses()
    }
}

/// What the node `t` itself contributes, without its nested types.
pub open spec fn node_uses(t: TypeModel, params: Set<Seq<char>>) -> Uses {
    match t {
        TypeModel::Path { info, .. } => own_uses(info, params),
        TypeModel::Other { .. } => no_uses(),
    }
}

/// All uses of type parameters in a type, its nested types included.
pub open spec fn type_uses(t: TypeModel, params: Set<Seq<char>>) -> Uses
    decreases t,
{
    match t {
        TypeModel::Path { info, children } => union_uses(
            own_uses(info, params),
            forest_uses(children@, params),
        ),
        TypeModel::Other { children } => forest_uses(children@, params),
    }
}

/// All uses of type parameters in a list of types.
pub open spec fn forest_uses(ts: Seq<TypeModel>, params: Set<Seq<char>>) -> Uses
    decreases ts,
{
    if ts.len() == 0 {
        no_uses()
    } else {
        union_uses(forest_uses(ts.drop_last(), params), type_uses(ts.last(), params))
    }
}

/// The strings of `v`, as a set, when no two are equal.
pub open spec fn distinct_set(v: Seq<String>) -> Set<Seq<char>> {
    views(v).to_set()
}

fn contains_name(v: &Vec<String>, s: &String) -> (res: bool)
    ensures
        res == views(v@).contains(s@),
{
    let mut i: usize = 0;
    while i < v.len()
        invariant
            i <= v.len(),
            forall|k: int| 0 <= k < i ==> v@[k]@ != s@,
        decreases v.len() - i,
    {
        if v[i].eq(s) {
            assert(views(v@)[i as int] == s@);
            return true;
        }
        i = i + 1;
    }
    assert(!views(v@).contains(s@)) by {
        assert forall|k: int| 0 <= k < views(v@).len() implies views(v@)[k] != s@ by {
            assert(views(v@)[k] == v@[k]@);
        }
    }
    false
}

fn insert_unique(v: &mut Vec<String>, s: &String)
    requires
        views(old(v)@).no_duplicates(),
    ensures
        views(final(v)@).no_duplicates(),
        distinct_set(final(v)@) == distinct_set(old(v)@).insert(s@),
{
    if !contains_name(v, s) {
        let ghost before = views(v@);
        v.push(s.clone());
        assert(views(v@) =~= before.push(s@));
        assert(views(v@).no_duplicates()) by {
            assert forall|a: int, b: int|
                0 <= a < views(v@).len() && 0 <= b < views(v@).len() && a != b implies views(
                v@,
            )[a] != views(v@)[b] by {
                if a == before.len() {
                    assert(views(v@)[b] == before[b]);
                    assert(before.contains(before[b]));
                } else if b == before.len() {
                    assert(views(v@)[a] == before[a]);
                    assert(before.contains(before[a]));
                }
            }
        }
        assert(distinct_set(v@) =~= distinct_set(old(v)@).insert(s@)) by {
            assert forall|x: Seq<char>| distinct_set(v@).contains(x) implies distinct_set(
                old(v)@,
            ).insert(s@).contains(x) by {
                let k = choose|k: int| 0 <= k < views(v@).len() && views(v@)[k] == x;
                if k < before.len() {
                    assert(before[k] == x);
                }
            }
            assert forall|x: Seq<char>| distinct_set(old(v)@).insert(s@).contains(x) implies distinct_set(
                v@,
            ).contains(x) by {
                if x == s@ {
                    assert(views(v@)[before.len() as int] == x);
                } else {
                    let k = choose|k: int| 0 <= k < before.len() && before[k] == x;
                    assert(views(v@)[k] == x);
                }
            }
        }
    } else {
        assert(distinct_set(v@) =~= distinct_set(old(v)@).insert(s@));
    }
}

/// Adds the uses of type parameters in `t` to `direct` and `assoc`.
fn collect_type_uses(
    t: &TypeModel,
    params: &Vec<String>,
    direct: &mut Vec<String>,
    assoc: &mut Vec<String>,
)
    requires
        views(old(direct)@).no_duplicates(),
        views(old(assoc)@).no_duplicates(),
    ensures
        views(final(direct)@).no_duplicates(),
        views(final(assoc)@).no_duplicates(),
        distinct_set(final(direct)@) == distinct_set(old(direct)@) + type_uses(
            *t,
            distinct_set(params@),
        ).0,
        distinct_set(final(assoc)@) == distinct_set(old(assoc)@) + type_uses(
            *t,
            distinct_set(params@),
        ).1,
    decreases t,
{
    let ghost ps = distinct_set(params@);
    let children = match t {
        TypeModel::Path { info, children } => {
            if info.plain && contains_name(params, &info.first_ident) {
                if info.segment_count == 1 && info.first_bare {
                    insert_unique(direct, &info.first_ident);
                } else if info.segment_count > 1 {
                    insert_unique(assoc, &info.tokens);
                }
            }
            proof {
                assert(decreases_to!(*t => *children));
            }
            children
        },
        TypeModel::Other { children } => {
            proof {
                assert(decreases_to!(*t => *children));
            }
            children
        },
    };
    let ghost own = node_uses(*t, ps);
    assert(distinct_set(direct@) =~= distinct_set(old(direct)@) + own.0);
    assert(distinct_set(assoc@) =~= distinct_set(old(assoc)@) + own.1);
    let ghost d0 = distinct_set(direct@);
    let ghost a0 = distinct_set(assoc@);
    let mut i: usize = 0;
    while i < children.len()
        invariant
            i <= children.len(),
            ps == distinct_set(params@),
            decreases_to!(*t => *children),
            views(direct@).no_duplicates(),
            views(assoc@).no_duplicates(),
            distinct_set(direct@) == d0 + forest_uses(children@.take(i as int), ps).0,
            distinct_set(assoc@) == a0 + forest_uses(children@.take(i as int), ps).1,
        decreases children.len() - i,
    {
        assert(children@.take(i + 1).drop_last() =~= children@.take(i as int));
        assert(children@.take(i + 1).last() == children@[i as int]);
        proof {
            assert(decreases_to!(*children => children@));
            assert(decreases_to!(children@ => children@[i as int]));
        }
        collect_type_uses(&children[i], params, direct, assoc);
        i = i + 1;
        assert(distinct_set(direct@) =~= d0 + forest_uses(children@.take(i as int), ps).0);
        assert(distinct_set(assoc@) =~= a0 + forest_uses(children@.take(i as int), ps).1);
    }
    assert(children@.take(i as int) =~= children@);
    assert(distinct_set(direct@) =~= distinct_set(old(direct)@) + type_uses(*t, ps).0);
    assert(distinct_set(assoc@) =~= distinct_set(old(assoc)@) + type_uses(*t, ps).1);
}

/// A generic parameter of the struct.
pub enum GenericParamModel {
    /// A type parameter, by name.
    Type { name: String },
    /// A lifetime or const parameter.
    Other,
}

/// A field of the struct: its name (none for a tuple field), type and
/// attributes.
pub struct DebugField {
    pub name: Option<String>,
    pub ty: TypeModel,
    pub attrs: Vec<DebugAttr>,
}

/// Generic parameter `k` is the type parameter named `n`.
pub open spec fn is_type_param_at(g: Seq<GenericParamModel>, k: int, n: Seq<char>) -> bool {
    g[k] matches GenericParamModel::Type { name } && name@ == n
}

/// The names of the type parameters.
pub open spec fn type_param_names(g: Seq<GenericParamModel>) -> Set<Seq<char>> {
    Set::new(|n: Seq<char>| exists|k: int| 0 <= k < g.len() && #[trigger] is_type_param_at(g, k, n))
}

/// The field's type is `PhantomData<P>` for one of the type parameters.
pub open spec fn is_phantom_field(ty: TypeModel, params: Set<Seq<char>>) -> bool {
    phantom_param(ty) matches Some(p) && params.contains(p)
}

/// The uses of type parameters in the fields' types, skipping the fields
/// of type `PhantomData<P>` for a type parameter `P`.
pub open spec fn fields_uses(fields: Seq<DebugField>, params: Set<Seq<char>>) -> Uses
    decreases fields.len(),
{
    if fields.len() == 0 {
        no_uses()
    } else {
        let f = fields.last();
        union_uses(
            fields_uses(fields.drop_last(), params),
            if is_phantom_field(f.ty, params) {
                no_uses()
            } else {
                type_uses(f.ty, params)
            },
        )
    }
}

/// Generic parameter `k` gets a `Debug` bound: it is a type parameter used
/// bare in some field type that is not its `PhantomData`.
pub open spec fn gets_debug_bound(g: Seq<GenericParamModel>, fields: Seq<DebugField>, k: int) -> bool {
    g[k] matches GenericParamModel::Type { name } && fields_uses(
        fields,
        type_param_names(g),
    ).0.contains(name@)
}

/// The bounds that the generated impl adds: for each generic parameter in
/// order, whether it gets `: Debug`, and the types (by their tokens) that
/// get a `: Debug` predicate in the `where` clause.
pub struct BoundsPlan {
    pub bounded: Vec<bool>,
    pub where_types: Vec<String>,
}

/// `plan` adds exactly the bounds that the fields call for; no `where`
/// predicate is repeated (their order is not fixed).
pub open spec fn bounds_of(plan: BoundsPlan, g: Seq<GenericParamModel>, fields: Seq<DebugField>) -> bool {
    &&& plan.bounded.len() == g.len()
    &&& forall|k: int| 0 <= k < g.len() ==> #[trigger] plan.bounded@[k] == gets_debug_bound(g, fields, k)
    &&& views(plan.where_types@).no_duplicates()
    &&& distinct_set(plan.where_types@) == fields_uses(fields, type_param_names(g)).1
}

/// Infers the `Debug` bounds of the generated impl from the field types.
pub fn add_trait_bounds(generics: &Vec<GenericParamModel>, fields: &Vec<DebugField>) -> (res: BoundsPlan)
    ensures
        bounds_of(res, generics@, fields@),
{
    let ghost ps = type_param_names(generics@);
    let mut type_params: Vec<String> = Vec::new();
    let mut k: usize = 0;
    while k < generics.len()
        invariant
            k <= generics.len(),
            forall|n: Seq<char>|
                views(type_params@).contains(n) <==> exists|j: int|
                    0 <= j < k && #[trigger] is_type_param_at(generics@, j, n),
        decreases generics.len() - k,
    {
        let ghost before = views(type_params@);
        match &generics[k] {
            GenericParamModel::Type { name } => {
                type_params.push(name.clone());
                assert(views(type_params@) =~= before.push(name@));
                assert(is_type_param_at(generics@, k as int, name@));
                assert forall|n: Seq<char>|
                    views(type_params@).contains(n) <==> exists|j: int|
                        0 <= j < k + 1 && #[trigger] is_type_param_at(generics@, j, n) by {
                    if views(type_params@).contains(n) && n != name@ {
                        let i = choose|i: int|
                            0 <= i < views(type_params@).len() && views(type_params@)[i] == n;
                        assert(before[i] == n);
                        assert(before.contains(n));
                        let j = choose|j: int| 0 <= j < k && #[trigger] is_type_param_at(generics@, j, n);
                        assert(is_type_param_at(generics@, j, n));
                    }
                    if n == name@ {
                        assert(views(type_params@)[before.len() as int] == n);
                    }
                    if exists|j: int| 0 <= j < k + 1 && #[trigger] is_type_param_at(generics@, j, n) {
                        let j = choose|j: int| 0 <= j < k + 1 && #[trigger] is_type_param_at(generics@, j, n);
                        if j < k {
                            assert(exists|j: int| 0 <= j < k && #[trigger] is_type_param_at(generics@, j, n));
                            assert(before.contains(n));
                            let i = choose|i: int| 0 <= i < before.len() && before[i] == n;
                            assert(views(type_params@)[i] == n);
                        }
                    }
                }
            },
            GenericParamModel::Other => {
                assert forall|n: Seq<char>|
                    views(type_params@).contains(n) <==> exists|j: int|
                        0 <= j < k + 1 && #[trigger] is_type_param_at(generics@, j, n) by {
                    if exists|j: int| 0 <= j < k + 1 && #[trigger] is_type_param_at(generics@, j, n) {
                        let j = choose|j: int| 0 <= j < k + 1 && #[trigger] is_type_param_at(generics@, j, n);
                        assert(j < k);
                    }
                }
            },
        }
        k = k + 1;
    }
    assert(distinct_set(type_params@) =~= ps);

    let mut direct: Vec<String> = Vec::new();
    let mut assoc: Vec<String> = Vec::new();
    assert(views(direct@) =~= Seq::<Seq<char>>::empty());
    assert(views(assoc@) =~= Seq::<Seq<char>>::empty());
    assert(distinct_set(direct@) =~= Set::<Seq<char>>::empty());
    assert(distinct_set(assoc@) =~= Set::<Seq<char>>::empty());
    let mut i: usize = 0;
    while i < fields.len()
        invariant
            i <= fields.len(),
            distinct_set(type_params@) == ps,
            ps == type_param_names(generics@),
            views(direct@).no_duplicates(),
            views(assoc@).no_duplicates(),
            distinct_set(direct@) == fields_uses(fields@.take(i as int), ps).0,
            distinct_set(assoc@) == fields_uses(fields@.take(i as int), ps).1,
        decreases fields.len() - i,
    {
        assert(fields@.take(i + 1).drop_last() =~= fields@.take(i as int));
        assert(fields@.take(i + 1).last() == fields@[i as int]);
        let field = &fields[i];
        let mut is_phantom = false;
        let mut j: usize = 0;
        while j < type_params.len() && !is_phantom
            invariant
                j <= type_params.len(),
                is_phantom == exists|m: int|
                    0 <= m < j && phantom_param(field.ty) == Some(#[trigger] type_params@[m]@),
            decreases type_params.len() - j,
        {
            if is_phantomdata_of_param(&field.ty, &type_params[j]) {
                is_phantom = true;
            }
            j = j + 1;
        }
        assert(is_phantom == is_phantom_field(field.ty, ps)) by {
            if is_phantom_field(field.ty, ps) {
                let p = phantom_param(field.ty)->0;
                assert(views(type_params@).contains(p));
                let m = choose|m: int| 0 <= m < views(type_params@).len() && views(type_params@)[m] == p;
                assert(type_params@[m]@ == p);
            }
            if is_phantom {
                let m = choose|m: int|
                    0 <= m < type_params.len() && phantom_param(field.ty) == Some(#[trigger] type_params@[m]@);
                assert(views(type_params@)[m] == type_params@[m]@);
            }
        }
        if !is_phantom {
            collect_type_uses(&field.ty, &type_params, &mut direct, &mut assoc);
        }
        i = i + 1;
        assert(distinct_set(direct@) =~= fields_uses(fields@.take(i as int), ps).0);
        assert(distinct_set(assoc@) =~= fields_uses(fields@.take(i as int), ps).1);
    }
    assert(fields@.take(i as int) =~= fields@);

    let mut bounded: Vec<bool> = Vec::new();
    let mut k: usize = 0;
    while k < generics.len()
        invariant
            k <= generics.len(),
            bounded.len() == k,
            ps == type_param_names(generics@),
            distinct_set(direct@) == fields_uses(fields@, ps).0,
            forall|m: int| 0 <= m < k ==> #[trigger] bounded@[m] == gets_debug_bound(generics@, fields@, m),
        decreases generics.len() - k,
    {
        match &generics[k] {
            GenericParamModel::Type { name } => {
                bounded.push(contains_name(&direct, name));
            },
            GenericParamModel::Other => {
                bounded.push(false);
            },
        }
        k = k + 1;
    }
    BoundsPlan { bounded, where_types: assoc }
}

/// What `#[derive(CustomDebug)]` reads of the item.
pub enum DebugInput {
    /// A struct with named fields.
    NamedStruct { generics: Vec<GenericParamModel>, fields: Vec<DebugField> },
    /// A tuple struct or a unit struct.
    OtherStruct,
    /// An enum or a union.
    NotStruct,
}

/// Why `#[derive(CustomDebug)]` refuses an item.
#[derive(PartialEq, Eq, Structural, Debug, Clone, Copy)]
pub enum DebugError {
    NotStruct,
    NotNamedFields,
    /// A field without a name.
    UnnamedField,
    /// The attributes of field `field` are refused.
    Attr { field: usize, error: DebugAttrError },
}

impl DebugError {
    pub open spec fn spec_message(self) -> Seq<char> {
        match self {
            DebugError::NotStruct => "CustomDebug can only be implemented on structs"@,
            DebugError::NotNamedFields => "CustomDebug expects a struct with named fields"@,
            DebugError::UnnamedField => "CustomDebug expects named fields"@,
            DebugError::Attr { field, error } => error.spec_message(),
        }
    }

    /// The diagnostic text of the error.
    pub fn message(&self) -> (m: &'static str)
        ensures
            m@ == self.spec_message(),
    {
        match self {
            DebugError::NotStruct => "CustomDebug can only be implemented on structs",
            DebugError::NotNamedFields => "CustomDebug expects a struct with named fields",
            DebugError::UnnamedField => "CustomDebug expects named fields",
            DebugError::Attr { field, error } => error.message(),
        }
    }
}

/// A field as the generated `fmt` writes it: its label and its custom
/// format, if any (otherwise `{:?}`).
pub struct FieldFormat {
    pub name: String,
    pub format: Option<String>,
}

/// The plan of the generated impl: its bounds and its fields in order.
pub struct DebugPlan {
    pub bounds: BoundsPlan,
    pub fields: Vec<FieldFormat>,
}

/// What the macro makes of field `i`: its error, or its custom format.
pub open spec fn spec_field_format(f: DebugField, i: int) -> Result<Option<Seq<char>>, DebugError> {
    if f.name is None {
        Err(DebugError::UnnamedField)
    } else {
        match spec_debug_format(f.attrs@) {
            Err(error) => Err(DebugError::Attr { field: i as usize, error }),
            Ok(fmt) => Ok(fmt),
        }
    }
}

/// `ff` is how field `f` (at position `i`) is written.
pub open spec fn format_of(ff: FieldFormat, f: DebugField, i: int) -> bool {
    &&& f.name matches Some(n) && ff.name@ == n@
    &&& match ff.format {
        None => spec_field_format(f, i) == Ok::<Option<Seq<char>>, DebugError>(None),
        Some(s) => spec_field_format(f, i) == Ok::<Option<Seq<char>>, DebugError>(Some(s@)),
    }
}

/// Field `i` is the first one the macro refuses, with error `e`.
pub open spec fn is_first_field_error(fields: Seq<DebugField>, i: int, e: DebugError) -> bool {
    &&& 0 <= i < fields.len()
    &&& forall|j: int| 0 <= j < i ==> #[trigger] spec_field_format(fields[j], j) is Ok
    &&& spec_field_format(fields[i], i) == Err::<Option<Seq<char>>, DebugError>(e)
}

/// The formats of the fields in order, or the error of the first field
/// that is refused.
pub fn plan_fields(fields: &Vec<DebugField>) -> (res: Result<Vec<FieldFormat>, DebugError>)
    ensures
        match res {
            Ok(formats) => {
                &&& formats.len() == fields.len()
                &&& forall|k: int| 0 <= k < fields.len() ==> format_of(#[trigger] formats@[k], fields@[k], k)
            },
            Err(e) => exists|i: int| #[trigger] is_first_field_error(fields@, i, e),
        },
{
    let mut formats: Vec<FieldFormat> = Vec::new();
    let mut i: usize = 0;
    while i < fields.len()
        invariant
            i <= fields.len(),
            formats.len() == i,
            forall|k: int| 0 <= k < i ==> format_of(#[trigger] formats@[k], fields@[k], k),
        decreases fields.len() - i,
    {
        let field = &fields[i];
        assert(forall|j: int| 0 <= j < i ==> #[trigger] spec_field_format(fields@[j], j) is Ok) by {
            assert(forall|j: int| 0 <= j < i ==> format_of(formats@[j], fields@[j], j));
        }
        let name = match &field.name {
            None => {
                let e = DebugError::UnnamedField;
                assert(is_first_field_error(fields@, i as int, e));
                return Err(e);
            },
            Some(n) => n,
        };
        match extract_debug_format(&field.attrs) {
            Err(error) => {
                let e = DebugError::Attr { field: i, error };
                assert(is_first_field_error(fields@, i as int, e));
                return Err(e);
            },
            Ok(format) => {
                formats.push(FieldFormat { name: name.clone(), format });
            },
        }
        i = i + 1;
    }
    Ok(formats)
}

/// Plans the `Debug` impl that `#[derive(CustomDebug)]` generates.
pub fn derive(input: &DebugInput) -> (res: Result<DebugPlan, DebugError>)
    ensures
        match input {
            DebugInput::NotStruct => res == Err::<DebugPlan, DebugError>(DebugError::NotStruct),
            DebugInput::OtherStruct => res == Err::<DebugPlan, DebugError>(
                DebugError::NotNamedFields,
            ),
            DebugInput::NamedStruct { generics, fields } => match res {
                Ok(plan) => {
                    &&& bounds_of(plan.bounds, generics@, fields@)
                    &&& plan.fields.len() == fields.len()
                    &&& forall|k: int|
                        0 <= k < fields.len() ==> format_of(#[trigger] plan.fields@[k], fields@[k], k)
                },
                Err(e) => exists|i: int| #[trigger] is_first_field_error(fields@, i, e),
            },
        },
{
    match input {
        DebugInput::NotStruct => Err(DebugError::NotStruct),
        DebugInput::OtherStruct => Err(DebugError::NotNamedFields),
        DebugInput::NamedStruct { generics, fields } => {
            let bounds = add_trait_bounds(generics, fields);
            match plan_fields(fields) {
                Ok(formats) => Ok(DebugPlan { bounds, fields: formats }),
                Err(e) => Err(e),
            }
        },
    }
}

/// The text that the generated `fmt` writes: the struct's name, ` { `, the
/// fields as `label: value` separated by `, `, and ` }`.
pub open spec fn debug_text(name: Seq<char>, fields: Seq<(Seq<char>, Seq<char>)>) -> Seq<char> {
    name + " { "@ + join_spec(
        fields.map_values(|f: (Seq<char>, Seq<char>)| f.0 + ": "@ + f.1),
        ", "@,
    ) + " }"@
}

/// Writes a struct as the generated `fmt` does, given each field's label and
/// its already formatted value.
pub fn render_debug(name: &str, fields: &Vec<(String, String)>) -> (res: String)
    ensures
        res@ == debug_text(
            name@,
            fields@.map_values(|f: (String, String)| (f.0@, f.1@)),
        ),
{
    let ghost parts = fields@.map_values(|f: (String, String)| (f.0@, f.1@)).map_values(
        |f: (Seq<char>, Seq<char>)| f.0 + ": "@ + f.1,
    );
    let mut res = String::from_str(name);
    res.append(" { ");
    let ghost start = res@;
    let mut i: usize = 0;
    while i < fields.len()
        invariant
            i <= fields.len(),
            start == name@ + " { "@,
            parts == fields@.map_values(|f: (String, String)| (f.0@, f.1@)).map_values(
                |f: (Seq<char>, Seq<char>)| f.0 + ": "@ + f.1,
            ),
            res@ == start + join_spec(parts.take(i as int), ", "@),
        decreases fields.len() - i,
    {
        assert(parts.take(i + 1).drop_last() =~= parts.take(i as int));
        assert(parts.take(i + 1).last() == fields@[i as int].0@ + ": "@ + fields@[i as int].1@);
        if i != 0 {
            res.append(", ");
        } else {
            assert(parts.take(0) =~= Seq::<Seq<char>>::empty());
        }
        res.append(fields[i].0.as_str());
        res.append(": ");
        res.append(fields[i].1.as_str());
        i = i + 1;
        assert(res@ =~= start + join_spec(parts.take(i as int), ", "@));
    }
    assert(parts.take(i as int) =~= parts);
    res.append(" }");
    assert(res@ =~= debug_text(name@, fields@.map_values(|f: (String, String)| (f.0@, f.1@))));
    res
}

/// The generated `fmt` always starts with the struct's name followed by
/// ` { `, and ends with ` }`.
pub proof fn lemma_debug_text_frame(name: Seq<char>, fields: Seq<(Seq<char>, Seq<char>)>)
    ensures
        debug_text(name, fields).take(name.len() + 3int) == name + " { "@,
        debug_text(name, fields).skip(debug_text(name, fields).len() - 2) == " }"@,
{
    let body = join_spec(
        fields.map_values(|f: (Seq<char>, Seq<char>)| f.0 + ": "@ + f.1),
        ", "@,
    );
    reveal_strlit(" { ");
    reveal_strlit(" }");
    let t = debug_text(name, fields);
    assert(t =~= (name + " { "@) + (body + " }"@));
    assert(t.take(name.len() + 3int) =~= name + " { "@);
    assert(t =~= (name + " { "@ + body) + " }"@);
    assert(t.skip(t.len() - 2) =~= " }"@);
}

/// A field of type `PhantomData<P>`, for a type parameter `P`, changes
/// nothing in the bounds: adding it to the fields leaves every `Debug` bound
/// and every `where` predicate as it was.
pub proof fn lemma_phantom_field_adds_no_bound(
    generics: Seq<GenericParamModel>,
    fields: Seq<DebugField>,
    f: DebugField,
)
    requires
        is_phantom_field(f.ty, type_param_names(generics)),
    ensures
        fields_uses(fields.push(f), type_param_names(generics)) == fields_uses(
            fields,
            type_param_names(generics),
        ),
        forall|k: int|
            0 <= k < generics.len() ==> gets_debug_bound(generics, fields.push(f), k)
                == gets_debug_bound(generics, fields, k),
{
    let ps = type_param_names(generics);
    assert(fields.push(f).drop_last() =~= fields);
    let u = fields_uses(fields, ps);
    assert(union_uses(u, no_uses()).0 =~= u.0);
    assert(union_uses(u, no_uses()).1 =~= u.1);
}


proof fn lemma_forest_includes(ts: Seq<TypeModel>, params: Set<Seq<char>>, i: int)
    requires
        0 <= i < ts.len(),
    ensures
        type_uses(ts[i], params).0.subset_of(forest_uses(ts, params).0),
        type_uses(ts[i], params).1.subset_of(forest_uses(ts, params).1),
    decreases ts.len(),
{
    if i < ts.len() - 1 {
        lemma_forest_includes(ts.drop_last(), params, i);
        assert(ts.drop_last()[i] == ts[i]);
    }
}

/// Every type nested in a field type counts: whatever uses of type
/// parameters a nested type has (under a reference, a tuple, an array, a
/// slice, a generic argument, ...), the enclosing type has them too.
pub proof fn lemma_nested_uses_included(t: TypeModel, params: Set<Seq<char>>, i: int)
    requires
        0 <= i < (match t {
            TypeModel::Path { children, .. } => children.len(),
            TypeModel::Other { children } => children.len(),
        }),
    ensures
        ({
            let child = match t {
                TypeModel::Path { children, .. } => children@[i],
                TypeModel::Other { children } => children@[i],
            };
            &&& type_uses(child, params).0.subset_of(type_uses(t, params).0)
            &&& type_uses(child, params).1.subset_of(type_uses(t, params).1)
        }),
{
    match t {
        TypeModel::Path { info, children } => lemma_forest_includes(children@, params, i),
        TypeModel::Other { children } => lemma_forest_includes(children@, params, i),
    }
}

/// A bare type parameter `P` (a plain one-segment path without arguments
/// that names a type parameter) is a use of `P`.
pub proof fn lemma_bare_param_is_used(t: TypeModel, params: Set<Seq<char>>)
    requires
        t matches TypeModel::Path { info, .. } && info.plain && info.segment_count == 1
            && info.first_bare && params.contains(info.first_ident@),
    ensures
        type_uses(t, params).0.contains(t->Path_info.first_ident@),
{
}

proof fn lemma_fields_include(fields: Seq<DebugField>, params: Set<Seq<char>>, k: int)
    requires
        0 <= k < fields.len(),
        !is_phantom_field(fields[k].ty, params),
    ensures
        type_uses(fields[k].ty, params).0.subset_of(fields_uses(fields, params).0),
        type_uses(fields[k].ty, params).1.subset_of(fields_uses(fields, params).1),
    decreases fields.len(),
{
    if k < fields.len() - 1 {
        lemma_fields_include(fields.drop_last(), params, k);
        assert(fields.drop_last()[k] == fields[k]);
    }
}

/// A type parameter used bare anywhere in the type of a field that is not
/// its own or another parameter's `PhantomData` gets a `Debug` bound, and
/// every path through a type parameter that such a field uses (`T::Value`)
/// gets a `where` predicate.
pub proof fn lemma_used_param_gets_bound(
    generics: Seq<GenericParamModel>,
    fields: Seq<DebugField>,
    k: int,
    j: int,
)
    requires
        0 <= k < fields.len(),
        0 <= j < generics.len(),
        !is_phantom_field(fields[k].ty, type_param_names(generics)),
        generics[j] matches GenericParamModel::Type { name } && type_uses(
            fields[k].ty,
            type_param_names(generics),
        ).0.contains(name@),
    ensures
        gets_debug_bound(generics, fields, j),
        type_uses(fields[k].ty, type_param_names(generics)).1.subset_of(
            fields_uses(fields, type_param_names(generics)).1,
        ),
{
    lemma_fields_include(fields, type_param_names(generics), k);
}

/// Adding a field to the text: for a struct with at least one field, the
/// text with one more field is the old text with its closing ` }` replaced
/// by `, `, the new field's label, `: `, its value and ` }`.
pub proof fn lemma_debug_text_push(
    name: Seq<char>,
    fields: Seq<(Seq<char>, Seq<char>)>,
    f: (Seq<char>, Seq<char>),
)
    requires
        fields.len() > 0,
    ensures
        debug_text(name, fields.push(f)) == debug_text(name, fields).take(
            debug_text(name, fields).len() - 2,
        ) + ", "@ + f.0 + ": "@ + f.1 + " }"@,
{
    reveal_strlit(" }");
    let g = |x: (Seq<char>, Seq<char>)| x.0 + ": "@ + x.1;
    let parts = fields.map_values(g);
    let longer = fields.push(f).map_values(g);
    assert(longer =~= parts.push(g(f)));
    assert(longer.drop_last() =~= parts);
    let body = join_spec(parts, ", "@);
    assert(join_spec(longer, ", "@) == body + ", "@ + g(f));
    let t = debug_text(name, fields);
    assert(t =~= (name + " { "@ + body) + " }"@);
    assert(t.take(t.len() - 2) =~= name + " { "@ + body);
    assert(debug_text(name, fields.push(f)) =~= name + " { "@ + body + ", "@ + f.0 + ": "@ + f.1
        + " }"@);
}

/// The text of a struct without fields, and with one field.
pub proof fn lemma_debug_text_small(
    name: Seq<char>,
    f: (Seq<char>, Seq<char>),
)
    ensures
        debug_text(name, Seq::empty()) == name + " { "@ + " }"@,
        debug_text(name, seq![f]) == name + " { "@ + f.0 + ": "@ + f.1 + " }"@,
{
    let g = |x: (Seq<char>, Seq<char>)| x.0 + ": "@ + x.1;
    assert(Seq::<(Seq<char>, Seq<char>)>::empty().map_values(g) =~= Seq::<Seq<char>>::empty());
    assert(seq![f].map_values(g) =~= seq![g(f)]);
    assert(debug_text(name, Seq::empty()) =~= name + " { "@ + " }"@);
    assert(debug_text(name, seq![f]) =~= name + " { "@ + f.0 + ": "@ + f.1 + " }"@);
}

} // verus!
