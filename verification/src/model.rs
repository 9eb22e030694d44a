//! The mathematical model of inferred types.
//!
//! A [`TypeModel`] is the spec-level value of one inferred type: the four
//! primitive-kind flags, the accumulated object shape as a sequence of
//! key/type pairs sorted strictly by key, and the optional array element
//! type.  All contracts of the executable types are stated over this model.

use vstd::prelude::*;

verus! {

/// One entry of a modelled object shape: the field key and its type.
pub type EntryModel = (Seq<char>, TypeModel);

/// Spec-level value of an inferred type for one document position.
#[verifier::ext_equal]
pub struct TypeModel {
    /// A null was observed here, or the position was absent from a sibling.
    pub is_null: bool,
    /// A boolean was observed here.
    pub is_bool: bool,
    /// A number was observed here.
    pub is_number: bool,
    /// A string was observed here.
    pub is_string: bool,
    /// Accumulated object shape, sorted strictly by key; empty if no object
    /// was ever observed.
    pub object: Seq<EntryModel>,
    /// Union of all observed array element types; `None` if no array was
    /// ever observed.
    pub array: Option<Box<TypeModel>>,
}

/// The identity element for merging: nothing observed yet.
pub open spec fn empty_model() -> TypeModel {
    TypeModel {
        is_null: false,
        is_bool: false,
        is_number: false,
        is_string: false,
        object: Seq::empty(),
        array: None,
    }
}

/// Strict lexicographic order on key sequences, by Unicode scalar value.
pub open spec fn lex_lt(a: Seq<char>, b: Seq<char>) -> bool
    decreases a.len(),
{
    if b.len() == 0 {
        false
    } else if a.len() == 0 {
        true
    } else if a[0] < b[0] {
        true
    } else if a[0] == b[0] {
        lex_lt(a.subrange(1, a.len() as int), b.subrange(1, b.len() as int))
    } else {
        false
    }
}

/// The keys of the entries are strictly ascending: sorted and free of
/// duplicates.
pub open spec fn entries_sorted(s: Seq<EntryModel>) -> bool {
    forall|i: int, j: int| 0 <= i < j < s.len() ==> lex_lt(s[i].0, s[j].0)
}

/// Every entry's type is well formed.
pub open spec fn entries_wf(s: Seq<EntryModel>) -> bool
    decreases s, 0int,
{
    s.len() == 0 || (type_wf(s[0].1) && entries_wf(s.subrange(1, s.len() as int)))
}

/// Well-formedness of a modelled type: object keys strictly sorted, and
/// every nested type well formed.
pub open spec fn type_wf(t: TypeModel) -> bool
    decreases t, 1int,
{
    &&& entries_sorted(t.object)
    &&& entries_wf(t.object)
    &&& (t.array matches Some(a) ==> type_wf(*a))
}

/// Whether the entries contain the key `k`.
pub open spec fn entries_has(s: Seq<EntryModel>, k: Seq<char>) -> bool {
    exists|i: int| 0 <= i < s.len() && s[i].0 == k
}

/// The type stored under key `k`, scanning from the front.
pub open spec fn entries_get(s: Seq<EntryModel>, k: Seq<char>) -> TypeModel
    decreases s.len(),
{
    if s.len() == 0 {
        arbitrary()
    } else if s[0].0 == k {
        s[0].1
    } else {
        entries_get(s.subrange(1, s.len() as int), k)
    }
}

/// The same type with the nullability marker set: the field was absent
/// from one side of a merge.
pub open spec fn set_null(t: TypeModel) -> TypeModel {
    TypeModel { is_null: true, ..t }
}

/// Every entry's type marked nullable: the whole shape was absent from
/// the other merge operand.
pub open spec fn entries_all_null(s: Seq<EntryModel>) -> Seq<EntryModel> {
    s.map_values(|e: EntryModel| (e.0, set_null(e.1)))
}

/// Merge of two inferred types: the union of what both describe.
///
/// Flags are or-ed; object shapes are merged entry-wise with absence
/// marked as nullability; the array element type is deep-merged whenever
/// at least one side carries one.
pub open spec fn merge_type(a: TypeModel, b: TypeModel) -> TypeModel
    decreases b, 1int, 0nat,
{
    TypeModel {
        is_null: a.is_null || b.is_null,
        is_bool: a.is_bool || b.is_bool,
        is_number: a.is_number || b.is_number,
        is_string: a.is_string || b.is_string,
        object: merge_entries(a.object, b.object),
        array: match (a.array, b.array) {
            (Some(x), Some(y)) => Some(Box::new(merge_type(*x, *y))),
            (Some(x), None) => Some(x),
            (None, Some(y)) => Some(y),
            (None, None) => None,
        },
    }
}

/// Merge of two sorted object shapes, as a sorted merge of the two
/// sequences.
///
/// A key present on one side only keeps its type, marked nullable if the
/// side that lacked it was the incoming one or the present one; a key
/// present on both sides merges the two types without extra nullability.
pub open spec fn merge_entries(s1: Seq<EntryModel>, s2: Seq<EntryModel>) -> Seq<EntryModel>
    decreases s2, 0int, s1.len() + s2.len(),
{
    if s1.len() == 0 {
        s2
    } else if s2.len() == 0 {
        entries_all_null(s1)
    } else if lex_lt(s1[0].0, s2[0].0) {
        seq![(s1[0].0, set_null(s1[0].1))] + merge_entries(s1.subrange(1, s1.len() as int), s2)
    } else if lex_lt(s2[0].0, s1[0].0) {
        seq![s2[0]] + merge_entries(s1, s2.subrange(1, s2.len() as int))
    } else {
        seq![(s1[0].0, merge_type(s1[0].1, s2[0].1))] + merge_entries(
            s1.subrange(1, s1.len() as int),
            s2.subrange(1, s2.len() as int),
        )
    }
}

/// Insertion into a sorted object shape: an existing key is overwritten,
/// a new key takes its ordered place.
pub open spec fn sorted_insert(s: Seq<EntryModel>, k: Seq<char>, t: TypeModel) -> Seq<EntryModel>
    decreases s.len(),
{
    if s.len() == 0 {
        seq![(k, t)]
    } else if lex_lt(s[0].0, k) {
        seq![s[0]] + sorted_insert(s.subrange(1, s.len() as int), k, t)
    } else if s[0].0 == k {
        seq![(k, t)] + s.subrange(1, s.len() as int)
    } else {
        seq![(k, t)] + s
    }
}

} // verus!
