//! The checks of `#[sorted]` (variant names of an enum in lexicographic
//! order) and of `#[sorted::check]` (arms of each `#[sorted]` match in
//! lexicographic order of their patterns; a wildcard only last, where it
//! counts as greater than every other arm).
use vstd::prelude::*;
use vstd::string::StrSliceExecFns;
use vstd::string::StringExecFns;

use crate::text::{decimal, decimal_spec, join_segments, join_spec, lex_lt, lex_lt_from, str_lt, views};

verus! {

/// Why a `#[sorted]` enum or match is refused.
pub enum SortError {
    /// `#[sorted]` stands on something that is not an enum.
    NotEnum,
    /// Entry `index` (`current`) comes before the entry just above it (`prev`).
    OutOfOrder { index: usize, current: String, prev: String },
    /// The first arm's pattern has no sort key.
    UnsupportedFirst,
    /// The first arm is a wildcard, and other arms follow.
    WildcardFirst,
    /// The pattern of arm `index` has no sort key.
    UnsupportedPattern { index: usize },
    /// A wildcard arm that is not the last one: `ix` counts from the second arm.
    WildcardNotLast { ix: usize, arm_len: usize },
}

impl SortError {
    pub open spec fn spec_message(&self) -> Seq<char> {
        match self {
            SortError::NotEnum => "expected enum or match expression"@,
            SortError::OutOfOrder { index, current, prev } => current@ + " should sort before "@
                + prev@,
            SortError::UnsupportedFirst => "unsupported by #[sorted]"@,
            SortError::WildcardFirst => "wildcard cannot be present before other arms"@,
            SortError::UnsupportedPattern { index } => "unsupported pattern in #[sorted] match"@,
            SortError::WildcardNotLast { ix, arm_len } =>
                "wildcard cannot be present before other arms: ix: "@ + decimal_spec(*ix as nat)
                    + ", arm_len: "@ + decimal_spec(*arm_len as nat),
        }
    }

    /// The diagnostic text of the error.
    pub fn message(&self) -> (m: String)
        ensures
            m@ == self.spec_message(),
    {
        match self {
            SortError::NotEnum => String::from_str("expected enum or match expression"),
            SortError::OutOfOrder { index, current, prev } => {
                let mut m = current.clone();
                m.append(" should sort before ");
                m.append(prev.as_str());
                m
            },
            SortError::UnsupportedFirst => String::from_str("unsupported by #[sorted]"),
            SortError::WildcardFirst => String::from_str(
                "wildcard cannot be present before other arms",
            ),
            SortError::UnsupportedPattern { index } => String::from_str(
                "unsupported pattern in #[sorted] match",
            ),
            SortError::WildcardNotLast { ix, arm_len } => {
                let mut m = String::from_str("wildcard cannot be present before other arms: ix: ");
                let a = decimal(*ix);
                m.append(a.as_str());
                m.append(", arm_len: ");
                let b = decimal(*arm_len);
                m.append(b.as_str());
                m
            },
        }
    }
}

/// `a` does not come after `b`: the non-strict order of `str`.
pub open spec fn lex_le(a: Seq<char>, b: Seq<char>) -> bool {
    !lex_lt(b, a)
}

proof fn lemma_lex_le_trans_from(a: Seq<char>, b: Seq<char>, c: Seq<char>, i: int)
    requires
        0 <= i,
        !lex_lt_from(b, a, i),
        !lex_lt_from(c, b, i),
    ensures
        !lex_lt_from(c, a, i),
    decreases a.len() - i,
{
    if i < a.len() && i < b.len() && i < c.len() {
        if a[i] == b[i] && b[i] == c[i] {
            lemma_lex_le_trans_from(a, b, c, i + 1);
        }
    }
}

/// The non-strict order of `str` is transitive.
pub proof fn lemma_lex_le_transitive(a: Seq<char>, b: Seq<char>, c: Seq<char>)
    requires
        lex_le(a, b),
        lex_le(b, c),
    ensures
        lex_le(a, c),
{
    lemma_lex_le_trans_from(a, b, c, 0);
}

/// Each name is not smaller than the one before it.
pub open spec fn adjacent_sorted(names: Seq<Seq<char>>) -> bool {
    forall|i: int| 1 <= i < names.len() ==> lex_le(#[trigger] names[i - 1], names[i])
}

/// Names that are each not smaller than the one before them are sorted
/// throughout: no name is smaller than any name above it.
pub proof fn lemma_adjacent_sorted_is_sorted(names: Seq<Seq<char>>, i: int, j: int)
    requires
        adjacent_sorted(names),
        0 <= i <= j < names.len(),
    ensures
        lex_le(names[i], names[j]),
    decreases j - i,
{
    if i == j {
        assert(!lex_lt_from(names[i], names[i], 0)) by {
            lemma_lex_irreflexive(names[i], 0);
        }
    } else {
        lemma_adjacent_sorted_is_sorted(names, i, j - 1);
        assert(lex_le(names[j - 1], names[j]));
        lemma_lex_le_transitive(names[i], names[j - 1], names[j]);
    }
}

proof fn lemma_lex_irreflexive(a: Seq<char>, i: int)
    requires
        0 <= i,
    ensures
        !lex_lt_from(a, a, i),
    decreases a.len() - i,
{
    if i < a.len() {
        lemma_lex_irreflexive(a, i + 1);
    }
}

/// `err` reports entry `index` of `names` as smaller than the one before it.
pub open spec fn is_out_of_order_at(err: SortError, names: Seq<Seq<char>>, index: int) -> bool {
    &&& err matches SortError::OutOfOrder { index: ix, current, prev }
    &&& ix == index
    &&& 1 <= index < names.len()
    &&& current@ == names[index]
    &&& prev@ == names[index - 1]
    &&& lex_lt(names[index], names[index - 1])
    &&& adjacent_sorted(names.take(index))
}

/// Checks that the variant names are in lexicographic order, reporting the
/// first variant that is smaller than the one before it.
pub fn are_variants_lexicographically_ordered(variants: &Vec<String>) -> (res: Result<(), SortError>)
    ensures
        res is Ok <==> adjacent_sorted(views(variants@)),
        res matches Err(e) ==> exists|index: int| is_out_of_order_at(e, views(variants@), index),
{
    let ghost names = views(variants@);
    if variants.len() == 0 {
        return Ok(());
    }
    let mut i: usize = 1;
    while i < variants.len()
        invariant
            1 <= i <= variants.len(),
            names == views(variants@),
            adjacent_sorted(names.take(i as int)),
        decreases variants.len() - i,
    {
        assert(names[i as int] == variants@[i as int]@);
        assert(names[i - 1] == variants@[i - 1]@);
        if str_lt(variants[i].as_str(), variants[i - 1].as_str()) {
            let e = SortError::OutOfOrder {
                index: i,
                current: variants[i].clone(),
                prev: variants[i - 1].clone(),
            };
            assert(is_out_of_order_at(e, names, i as int));
            assert(!adjacent_sorted(names)) by {
                assert(!lex_le(names[i - 1], names[i as int]));
            }
            return Err(e);
        }
        assert(adjacent_sorted(names.take(i + 1))) by {
            assert forall|k: int| 1 <= k < i + 1 implies lex_le(
                #[trigger] names.take(i + 1)[k - 1],
                names.take(i + 1)[k],
            ) by {
                if k < i {
                    assert(names.take(i + 1)[k - 1] == names.take(i as int)[k - 1]);
                    assert(names.take(i + 1)[k] == names.take(i as int)[k]);
                }
            }
        }
        i = i + 1;
    }
    assert(names.take(i as int) =~= names);
    Ok(())
}

/// What `#[sorted]` reads of the item it stands on.
pub enum SortedItem {
    /// An enum, with the names of its variants in order.
    Enum(Vec<String>),
    /// Any other item.
    Other,
}

/// The check of `#[sorted]`: the item must be an enum whose variant names
/// are in lexicographic order.
pub fn handle_sorted(item: &SortedItem) -> (res: Result<(), SortError>)
    ensures
        match item {
            SortedItem::Enum(variants) => {
                &&& res is Ok <==> adjacent_sorted(views(variants@))
                &&& res matches Err(e) ==> exists|index: int|
                    is_out_of_order_at(e, views(variants@), index)
            },
            SortedItem::Other => res matches Err(SortError::NotEnum),
        },
{
    match item {
        SortedItem::Enum(variants) => are_variants_lexicographically_ordered(variants),
        SortedItem::Other => Err(SortError::NotEnum),
    }
}

/// What the check reads of a match arm's pattern.
pub enum ArmPattern {
    /// A path pattern such as `Error::Io`, by its segments.
    Path(Vec<String>),
    /// A tuple-struct pattern such as `Error::Io(e)`, by its path's segments.
    TupleStruct(Vec<String>),
    /// A struct pattern such as `Error::Io { .. }`, by its path's segments.
    Struct(Vec<String>),
    /// An identifier pattern, possibly with a `@` sub-pattern.
    Ident { name: String, has_subpattern: bool },
    /// The wildcard `_`.
    Wild,
    /// Any other pattern.
    Other,
}

/// The key of the wildcard arm.
pub open spec fn wild_key() -> Seq<char> {
    seq!['_']
}

/// The text an arm is ordered by: path segments joined by `::`, a bare
/// identifier, or `_`; none for other patterns.
pub open spec fn spec_sort_key(p: ArmPattern) -> Option<Seq<char>> {
    match p {
        ArmPattern::Path(segments) => Some(join_spec(views(segments@), "::"@)),
        ArmPattern::TupleStruct(segments) => Some(join_spec(views(segments@), "::"@)),
        ArmPattern::Struct(segments) => Some(join_spec(views(segments@), "::"@)),
        ArmPattern::Ident { name, has_subpattern } => if has_subpattern {
            None
        } else {
            Some(name@)
        },
        ArmPattern::Wild => Some(wild_key()),
        ArmPattern::Other => None,
    }
}

/// The text that the arm with pattern `pat` is ordered by.
pub fn match_arm_pattern_sort_key(pat: &ArmPattern) -> (res: Option<String>)
    ensures
        res is None <==> spec_sort_key(*pat) is None,
        res matches Some(k) ==> spec_sort_key(*pat) == Some(k@),
{
    match pat {
        ArmPattern::Path(segments) => Some(join_segments(segments, "::")),
        ArmPattern::TupleStruct(segments) => Some(join_segments(segments, "::")),
        ArmPattern::Struct(segments) => Some(join_segments(segments, "::")),
        ArmPattern::Ident { name, has_subpattern } => if *has_subpattern {
            None
        } else {
            Some(name.clone())
        },
        ArmPattern::Wild => {
            proof {
                reveal_strlit("_");
            }
            Some(String::from_str("_"))
        },
        ArmPattern::Other => None,
    }
}

fn is_wild_key(key: &String) -> (b: bool)
    ensures
        b == (key@ == wild_key()),
{
    let s = key.as_str();
    if s.unicode_len() == 1 {
        let c = s.get_char(0);
        if c == '_' {
            assert(key@ =~= wild_key());
        }
        c == '_'
    } else {
        false
    }
}

/// Arm `i` is acceptable where it stands: it has a key; a wildcard is the
/// last arm, and as such counts as greater than every key; any other key is
/// not smaller than the key of the arm before it.
pub open spec fn arm_ok(arms: Seq<ArmPattern>, i: int) -> bool {
    let key = spec_sort_key(arms[i]);
    if i == 0 {
        key is Some && (key->0 == wild_key() ==> arms.len() == 1)
    } else {
        &&& key is Some
        &&& key->0 == wild_key() ==> i == arms.len() - 1
        &&& key->0 != wild_key() ==> lex_le(spec_sort_key(arms[i - 1])->0, key->0)
    }
}

/// The arms before position `n` are all acceptable.
pub open spec fn arms_ok_upto(arms: Seq<ArmPattern>, n: int) -> bool {
    forall|i: int| 0 <= i < n ==> #[trigger] arm_ok(arms, i)
}

/// The arms of a `#[sorted]` match pass the check.
pub open spec fn arms_sorted(arms: Seq<ArmPattern>) -> bool {
    arms_ok_upto(arms, arms.len() as int)
}

/// `err` is the report for arm `i`, the first arm that is not acceptable.
pub open spec fn is_arm_error_at(err: SortError, arms: Seq<ArmPattern>, i: int) -> bool {
    let key = spec_sort_key(arms[i]);
    &&& 0 <= i < arms.len()
    &&& arms_ok_upto(arms, i)
    &&& !arm_ok(arms, i)
    &&& if i == 0 {
        if key is None {
            err is UnsupportedFirst
        } else {
            err is WildcardFirst
        }
    } else if key is None {
        err matches SortError::UnsupportedPattern { index } && index == i
    } else if key->0 == wild_key() && i != arms.len() - 1 {
        err matches SortError::WildcardNotLast { ix, arm_len } && ix == i - 1 && arm_len
            == arms.len()
    } else {
        &&& err matches SortError::OutOfOrder { index, current, prev }
        &&& index == i
        &&& current@ == key->0
        &&& prev@ == spec_sort_key(arms[i - 1])->0
    }
}

/// Checks the arms of one `#[sorted]` match, reporting the first arm that
/// has no key, is a wildcard before other arms, or is out of order.
pub fn check_match_arm_lexicographically_ordered(arms: &Vec<ArmPattern>) -> (res: Result<
    (),
    SortError,
>)
    ensures
        res is Ok <==> arms_sorted(arms@),
        res matches Err(e) ==> exists|i: int| is_arm_error_at(e, arms@, i),
{
    if arms.len() == 0 {
        return Ok(());
    }
    let first = match match_arm_pattern_sort_key(&arms[0]) {
        None => {
            assert(is_arm_error_at(SortError::UnsupportedFirst, arms@, 0));
            return Err(SortError::UnsupportedFirst);
        },
        Some(k) => k,
    };
    if is_wild_key(&first) && arms.len() != 1 {
        assert(is_arm_error_at(SortError::WildcardFirst, arms@, 0));
        return Err(SortError::WildcardFirst);
    }
    assert(arm_ok(arms@, 0));
    let mut prev_name = first;
    let mut ix: usize = 0;
    while ix < arms.len() - 1
        invariant
            1 <= arms.len(),
            ix <= arms.len() - 1,
            arms_ok_upto(arms@, ix + 1),
            spec_sort_key(arms@[ix as int]) == Some(prev_name@),
        decreases arms.len() - 1 - ix,
    {
        let i = ix + 1;
        let current_name = match match_arm_pattern_sort_key(&arms[i]) {
            None => {
                let e = SortError::UnsupportedPattern { index: i };
                assert(is_arm_error_at(e, arms@, i as int));
                return Err(e);
            },
            Some(k) => k,
        };
        if is_wild_key(&current_name) && ix + 1 != arms.len() - 1 {
            let e = SortError::WildcardNotLast { ix, arm_len: arms.len() };
            assert(is_arm_error_at(e, arms@, i as int));
            return Err(e);
        }
        if !is_wild_key(&current_name) && str_lt(current_name.as_str(), prev_name.as_str()) {
            let e = SortError::OutOfOrder { index: i, current: current_name, prev: prev_name };
            assert(is_arm_error_at(e, arms@, i as int));
            return Err(e);
        }
        assert(arm_ok(arms@, i as int));
        prev_name = current_name;
        ix = ix + 1;
    }
    Ok(())
}

/// What `#[sorted::check]` does with the `#[sorted]` matches of a function:
/// how many of them lose their `#[sorted]` attribute (all of them, so that
/// only the macro's own error is reported), and the first failing match
/// with its error, if any.
pub struct CheckOutcome {
    pub stripped: usize,
    pub error: Option<(usize, SortError)>,
}

/// Checks the `#[sorted]` matches of a function body, given in the order in
/// which the body is walked, and reports the first that fails.
pub fn handle_check(matches: &Vec<Vec<ArmPattern>>) -> (res: CheckOutcome)
    ensures
        res.stripped == matches.len(),
        match res.error {
            None => forall|k: int| 0 <= k < matches.len() ==> arms_sorted(#[trigger] matches@[k]@),
            Some((m, e)) => {
                &&& m < matches.len()
                &&& forall|k: int| 0 <= k < m ==> arms_sorted(#[trigger] matches@[k]@)
                &&& !arms_sorted(matches@[m as int]@)
                &&& exists|i: int| #[trigger] is_arm_error_at(e, matches@[m as int]@, i)
            },
        },
{
    let mut k: usize = 0;
    while k < matches.len()
        invariant
            k <= matches.len(),
            forall|j: int| 0 <= j < k ==> arms_sorted(#[trigger] matches@[j]@),
        decreases matches.len() - k,
    {
        match check_match_arm_lexicographically_ordered(&matches[k]) {
            Ok(()) => {},
            Err(e) => {
                return CheckOutcome { stripped: matches.len(), error: Some((k, e)) };
            },
        }
        k = k + 1;
    }
    CheckOutcome { stripped: k, error: None }
}

/// In a match that passes the check, a wildcard arm can only be the last one.
pub proof fn lemma_wildcard_only_last(arms: Seq<ArmPattern>, i: int)
    requires
        arms_sorted(arms),
        0 <= i < arms.len(),
        spec_sort_key(arms[i]) == Some(wild_key()),
    ensures
        i == arms.len() - 1,
{
    assert(arm_ok(arms, i));
}

/// A match whose arms name, in order, the variants of an enum that passes
/// `#[sorted]` (none of them a wildcard) passes `#[sorted::check]` too.
pub proof fn lemma_sorted_variants_sorted_arms(names: Seq<Seq<char>>, arms: Seq<ArmPattern>)
    requires
        adjacent_sorted(names),
        arms.len() == names.len(),
        forall|i: int| 0 <= i < arms.len() ==> spec_sort_key(#[trigger] arms[i]) == Some(names[i]),
        forall|i: int| 0 <= i < names.len() ==> #[trigger] names[i] != wild_key(),
    ensures
        arms_sorted(arms),
{
    assert forall|i: int| 0 <= i < arms.len() implies #[trigger] arm_ok(arms, i) by {
        assert(spec_sort_key(arms[i]) == Some(names[i]));
        if i > 0 {
            assert(spec_sort_key(arms[i - 1]) == Some(names[i - 1]));
            assert(lex_le(names[i - 1], names[i]));
        }
    }
}

/// A wildcard may end any match whose other arms are in order: appending a
/// `_` arm to arms that pass the check gives arms that pass it.
pub proof fn lemma_trailing_wildcard_accepted(arms: Seq<ArmPattern>)
    requires
        arms_sorted(arms),
        arms.len() > 0,
        forall|i: int| 0 <= i < arms.len() ==> spec_sort_key(#[trigger] arms[i]) != Some(wild_key()),
    ensures
        arms_sorted(arms.push(ArmPattern::Wild)),
{
    let longer = arms.push(ArmPattern::Wild);
    assert forall|i: int| 0 <= i < longer.len() implies #[trigger] arm_ok(longer, i) by {
        if i < arms.len() {
            assert(arm_ok(arms, i));
            assert(longer[i] == arms[i]);
            if i > 0 {
                assert(longer[i - 1] == arms[i - 1]);
            }
        } else {
            assert(longer[i] == ArmPattern::Wild);
        }
    }
}


/// In a match that passes the check, every arm other than a trailing
/// wildcard has a key not smaller than the key of the arm right before it.
pub proof fn lemma_sorted_arms_adjacent(arms: Seq<ArmPattern>, i: int)
    requires
        arms_sorted(arms),
        1 <= i < arms.len(),
        spec_sort_key(arms[i]) != Some(wild_key()),
    ensures
        spec_sort_key(arms[i - 1]) is Some,
        spec_sort_key(arms[i]) is Some,
        lex_le(spec_sort_key(arms[i - 1])->0, spec_sort_key(arms[i])->0),
{
    assert(arm_ok(arms, i));
    assert(arm_ok(arms, i - 1));
}

/// In a match that passes the check, the keys of the arms other than a
/// trailing wildcard are in order throughout: no key is smaller than any
/// key above it.
pub proof fn lemma_sorted_arms_ordered(arms: Seq<ArmPattern>, i: int, j: int)
    requires
        arms_sorted(arms),
        0 <= i <= j < arms.len(),
        spec_sort_key(arms[j]) != Some(wild_key()),
    ensures
        lex_le(spec_sort_key(arms[i])->0, spec_sort_key(arms[j])->0),
    decreases j - i,
{
    assert(arm_ok(arms, j));
    if i == j {
        lemma_lex_irreflexive(spec_sort_key(arms[i])->0, 0);
    } else {
        lemma_sorted_arms_adjacent(arms, j);
        assert(spec_sort_key(arms[j - 1]) != Some(wild_key())) by {
            assert(arm_ok(arms, j - 1));
        }
        lemma_sorted_arms_ordered(arms, i, j - 1);
        lemma_lex_le_transitive(
            spec_sort_key(arms[i])->0,
            spec_sort_key(arms[j - 1])->0,
            spec_sort_key(arms[j])->0,
        );
    }
}

} // verus!
