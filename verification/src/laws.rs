//! Proved laws of the merge and of inference.

use vstd::prelude::*;

use crate::model::{
    entries_all_null, entries_get, entries_has, entries_sorted, entries_wf, lex_lt,
    merge_entries, merge_type, set_null, sorted_insert, type_wf, EntryModel, TypeModel,
};
use crate::infer::{infer_elems, infer_fields, infer_model, Value};
use crate::order::{lemma_lex_lt_irrefl, lemma_lex_lt_trans, lemma_lex_lt_trichotomy};
use crate::render::{decls_of, field_decls};

verus! {

/// Entry well-formedness, element by element.
pub proof fn lemma_entries_wf_index(s: Seq<EntryModel>)
    ensures
        entries_wf(s) <==> (forall|i: int| 0 <= i < s.len() ==> type_wf(#[trigger] s[i].1)),
    decreases s.len(),
{
    if s.len() > 0 {
        let rest = s.subrange(1, s.len() as int);
        lemma_entries_wf_index(rest);
        if entries_wf(s) {
            assert forall|i: int| 0 <= i < s.len() implies type_wf(#[trigger] s[i].1) by {
                if i > 0 {
                    assert(rest[i - 1] == s[i]);
                }
            }
        }
        if forall|i: int| 0 <= i < s.len() ==> type_wf(#[trigger] s[i].1) {
            assert forall|i: int| 0 <= i < rest.len() implies type_wf(#[trigger] rest[i].1) by {
                assert(rest[i] == s[i + 1]);
            }
        }
    }
}

/// Marking every entry nullable keeps the keys, the order and the
/// well-formedness of an object shape.
pub proof fn lemma_entries_all_null_wf(s: Seq<EntryModel>)
    requires
        entries_sorted(s),
        entries_wf(s),
    ensures
        entries_sorted(entries_all_null(s)),
        entries_wf(entries_all_null(s)),
        entries_all_null(s).len() == s.len(),
        forall|i: int| 0 <= i < s.len() ==> (#[trigger] entries_all_null(s)[i]) == (
            s[i].0,
            set_null(s[i].1),
        ),
{
    lemma_entries_wf_index(s);
    lemma_entries_wf_index(entries_all_null(s));
}

/// Merging two sorted, well-formed object shapes yields a sorted,
/// well-formed shape, and every key of the result comes from one of the
/// operands.
pub proof fn lemma_merge_entries_wf(s1: Seq<EntryModel>, s2: Seq<EntryModel>)
    requires
        entries_sorted(s1),
        entries_wf(s1),
        entries_sorted(s2),
        entries_wf(s2),
    ensures
        entries_sorted(merge_entries(s1, s2)),
        entries_wf(merge_entries(s1, s2)),
        forall|j: int|
            0 <= j < merge_entries(s1, s2).len() ==> entries_has(
                s1,
                (#[trigger] merge_entries(s1, s2)[j]).0,
            ) || entries_has(s2, merge_entries(s1, s2)[j].0),
    decreases s2, 0int, s1.len() + s2.len(),
{
    let m = merge_entries(s1, s2);
    lemma_entries_wf_index(s1);
    lemma_entries_wf_index(s2);
    if s1.len() == 0 {
        assert forall|j: int| 0 <= j < m.len() implies entries_has(s1, (#[trigger] m[j]).0)
            || entries_has(s2, m[j].0) by {
            assert(s2[j].0 == m[j].0);
        }
    } else if s2.len() == 0 {
        lemma_entries_all_null_wf(s1);
        assert forall|j: int| 0 <= j < m.len() implies entries_has(s1, (#[trigger] m[j]).0)
            || entries_has(s2, m[j].0) by {
            assert(s1[j].0 == m[j].0);
        }
    } else {
        let k1 = s1[0].0;
        let k2 = s2[0].0;
        let r1 = s1.subrange(1, s1.len() as int);
        let r2 = s2.subrange(1, s2.len() as int);
        lemma_entries_wf_index(r1);
        lemma_entries_wf_index(r2);
        lemma_lex_lt_trichotomy(k1, k2);
        let head: EntryModel;
        let rest: Seq<EntryModel>;
        if lex_lt(k1, k2) {
            head = (k1, set_null(s1[0].1));
            rest = merge_entries(r1, s2);
            lemma_merge_entries_wf(r1, s2);
        } else if lex_lt(k2, k1) {
            head = s2[0];
            rest = merge_entries(s1, r2);
            lemma_merge_entries_wf(s1, r2);
        } else {
            head = (k1, merge_type(s1[0].1, s2[0].1));
            rest = merge_entries(r1, r2);
            lemma_merge_type_wf(s1[0].1, s2[0].1);
            lemma_merge_entries_wf(r1, r2);
        }
        assert(m == seq![head] + rest);
        assert(type_wf(head.1));
        // Every key of the tail comes from an operand's tail, so the head's
        // key precedes it.
        assert forall|j: int| 0 <= j < rest.len() implies lex_lt(head.0, (#[trigger] rest[j]).0) by {
            let rk = rest[j].0;
            if lex_lt(k1, k2) {
                assert(entries_has(r1, rk) || entries_has(s2, rk));
                if entries_has(r1, rk) {
                    let i = choose|i: int| 0 <= i < r1.len() && r1[i].0 == rk;
                    assert(s1[i + 1].0 == rk);
                } else {
                    let i = choose|i: int| 0 <= i < s2.len() && s2[i].0 == rk;
                    if i > 0 {
                        lemma_lex_lt_trans(k1, k2, rk);
                    }
                }
            } else if lex_lt(k2, k1) {
                assert(entries_has(s1, rk) || entries_has(r2, rk));
                if entries_has(s1, rk) {
                    let i = choose|i: int| 0 <= i < s1.len() && s1[i].0 == rk;
                    if i > 0 {
                        lemma_lex_lt_trans(k2, k1, rk);
                    } else {
                        assert(lex_lt(k2, rk));
                    }
                } else {
                    let i = choose|i: int| 0 <= i < r2.len() && r2[i].0 == rk;
                    assert(s2[i + 1].0 == rk);
                }
            } else {
                assert(entries_has(r1, rk) || entries_has(r2, rk));
                if entries_has(r1, rk) {
                    let i = choose|i: int| 0 <= i < r1.len() && r1[i].0 == rk;
                    assert(s1[i + 1].0 == rk);
                } else {
                    let i = choose|i: int| 0 <= i < r2.len() && r2[i].0 == rk;
                    assert(s2[i + 1].0 == rk);
                }
            }
        }
        assert forall|i: int, j: int| 0 <= i < j < m.len() implies lex_lt(m[i].0, m[j].0) by {
            if i > 0 {
                assert(m[i] == rest[i - 1]);
                assert(m[j] == rest[j - 1]);
            } else {
                assert(m[j] == rest[j - 1]);
            }
        }
        lemma_entries_wf_index(rest);
        lemma_entries_wf_index(m);
        assert forall|i: int| 0 <= i < m.len() implies type_wf(#[trigger] m[i].1) by {
            if i > 0 {
                assert(m[i] == rest[i - 1]);
            }
        }
        assert forall|j: int| 0 <= j < m.len() implies entries_has(s1, (#[trigger] m[j]).0)
            || entries_has(s2, m[j].0) by {
            if j == 0 {
                if lex_lt(k1, k2) {
                    assert(s1[0].0 == m[0].0);
                } else if lex_lt(k2, k1) {
                    assert(s2[0].0 == m[0].0);
                } else {
                    assert(s1[0].0 == m[0].0);
                }
            } else {
                let rk = rest[j - 1].0;
                assert(m[j].0 == rk);
                if lex_lt(k1, k2) {
                    if entries_has(r1, rk) {
                        let i = choose|i: int| 0 <= i < r1.len() && r1[i].0 == rk;
                        assert(s1[i + 1].0 == rk);
                    }
                } else if lex_lt(k2, k1) {
                    if entries_has(r2, rk) {
                        let i = choose|i: int| 0 <= i < r2.len() && r2[i].0 == rk;
                        assert(s2[i + 1].0 == rk);
                    }
                } else {
                    if entries_has(r1, rk) {
                        let i = choose|i: int| 0 <= i < r1.len() && r1[i].0 == rk;
                        assert(s1[i + 1].0 == rk);
                    } else {
                        let i = choose|i: int| 0 <= i < r2.len() && r2[i].0 == rk;
                        assert(s2[i + 1].0 == rk);
                    }
                }
            }
        }
    }
}

/// Merging an object shape with a copy of itself changes nothing.
pub proof fn lemma_merge_entries_idempotent(s: Seq<EntryModel>)
    ensures
        merge_entries(s, s) == s,
    decreases s, 0int,
{
    if s.len() > 0 {
        let k = s[0].0;
        lemma_lex_lt_irrefl(k);
        let rest = s.subrange(1, s.len() as int);
        lemma_merge_type_idempotent(s[0].1);
        lemma_merge_entries_idempotent(rest);
        assert(merge_entries(s, s) =~= s);
    }
}

/// Merging a type with a copy of itself changes nothing: the same
/// flags, the same fields with the same nullability, the same array
/// element type.
pub proof fn lemma_merge_type_idempotent(t: TypeModel)
    ensures
        merge_type(t, t) == t,
    decreases t, 1int,
{
    lemma_merge_entries_idempotent(t.object);
    if t.array is Some {
        lemma_merge_type_idempotent(*t.array->0);
    }
    assert(merge_type(t, t) =~= t);
}

/// When does merging read the same both ways?  A field both shapes
/// carry must be symmetric in turn; a field only one shape carries must
/// already be nullable, since the side that lacks it would mark it so.
pub open spec fn entries_symmetric(s1: Seq<EntryModel>, s2: Seq<EntryModel>) -> bool
    decreases s2, 0int, s1.len() + s2.len(),
{
    if s1.len() == 0 {
        forall|i: int| 0 <= i < s2.len() ==> (#[trigger] s2[i].1).is_null
    } else if s2.len() == 0 {
        forall|i: int| 0 <= i < s1.len() ==> (#[trigger] s1[i].1).is_null
    } else if lex_lt(s1[0].0, s2[0].0) {
        s1[0].1.is_null && entries_symmetric(s1.subrange(1, s1.len() as int), s2)
    } else if lex_lt(s2[0].0, s1[0].0) {
        s2[0].1.is_null && entries_symmetric(s1, s2.subrange(1, s2.len() as int))
    } else {
        type_symmetric(s1[0].1, s2[0].1) && entries_symmetric(
            s1.subrange(1, s1.len() as int),
            s2.subrange(1, s2.len() as int),
        )
    }
}

/// The condition under which merging two types is commutative: their
/// object shapes are symmetric at every level.  A field present on one
/// side only is marked nullable by the merge that lacks it and kept as
/// it is by the other, so it must already be nullable for the two
/// orders to agree.
pub open spec fn type_symmetric(a: TypeModel, b: TypeModel) -> bool
    decreases b, 1int, 0nat,
{
    entries_symmetric(a.object, b.object) && if a.array is Some && b.array is Some {
        type_symmetric(*a.array->0, *b.array->0)
    } else {
        true
    }
}

/// Merging symmetric object shapes is commutative.
pub proof fn lemma_merge_entries_commutative(s1: Seq<EntryModel>, s2: Seq<EntryModel>)
    requires
        entries_symmetric(s1, s2),
    ensures
        merge_entries(s1, s2) == merge_entries(s2, s1),
    decreases s2, 0int, s1.len() + s2.len(),
{
    if s1.len() == 0 && s2.len() == 0 {
        assert(merge_entries(s1, s2) =~= merge_entries(s2, s1));
    } else if s1.len() == 0 {
        assert forall|i: int| 0 <= i < s2.len() implies (#[trigger] entries_all_null(s2)[i])
            == s2[i] by {
            assert(set_null(s2[i].1) =~= s2[i].1);
        }
        assert(merge_entries(s1, s2) =~= merge_entries(s2, s1));
    } else if s2.len() == 0 {
        assert forall|i: int| 0 <= i < s1.len() implies (#[trigger] entries_all_null(s1)[i])
            == s1[i] by {
            assert(set_null(s1[i].1) =~= s1[i].1);
        }
        assert(merge_entries(s1, s2) =~= merge_entries(s2, s1));
    } else {
        let k1 = s1[0].0;
        let k2 = s2[0].0;
        let r1 = s1.subrange(1, s1.len() as int);
        let r2 = s2.subrange(1, s2.len() as int);
        lemma_lex_lt_trichotomy(k1, k2);
        if lex_lt(k1, k2) {
            lemma_merge_entries_commutative(r1, s2);
            assert(set_null(s1[0].1) =~= s1[0].1);
            assert(merge_entries(s1, s2) =~= merge_entries(s2, s1));
        } else if lex_lt(k2, k1) {
            lemma_merge_entries_commutative(s1, r2);
            assert(set_null(s2[0].1) =~= s2[0].1);
            assert(merge_entries(s1, s2) =~= merge_entries(s2, s1));
        } else {
            lemma_merge_type_commutative(s1[0].1, s2[0].1);
            lemma_merge_entries_commutative(r1, r2);
            assert(k1 == k2);
            assert(merge_entries(s1, s2) =~= merge_entries(s2, s1));
        }
    }
}

/// Merging two symmetric types is commutative: the flags set, the field
/// set with its nullability, and the array element union are the same
/// in either order.  One-sided fields that are not yet nullable are the
/// one exception, which the symmetry condition leaves out.
pub proof fn lemma_merge_type_commutative(a: TypeModel, b: TypeModel)
    requires
        type_symmetric(a, b),
    ensures
        merge_type(a, b) == merge_type(b, a),
    decreases b, 1int, 0nat,
{
    lemma_merge_entries_commutative(a.object, b.object);
    if a.array is Some && b.array is Some {
        lemma_merge_type_commutative(*a.array->0, *b.array->0);
    }
    assert(merge_type(a, b) =~= merge_type(b, a));
}

/// A field present in one merge operand and absent from the other is
/// nullable in the merged shape, with its type otherwise kept.
pub proof fn lemma_merge_absent_nullable(s1: Seq<EntryModel>, s2: Seq<EntryModel>, k: Seq<char>)
    requires
        entries_has(s1, k),
        !entries_has(s2, k),
    ensures
        entries_has(merge_entries(s1, s2), k),
        entries_get(merge_entries(s1, s2), k) == set_null(entries_get(s1, k)),
    decreases s2, 0int, s1.len() + s2.len(),
{
    let m = merge_entries(s1, s2);
    let r1 = s1.subrange(1, s1.len() as int);
    if s2.len() == 0 {
        lemma_entries_all_null_index_get(s1, k);
    } else {
        let k1 = s1[0].0;
        let k2 = s2[0].0;
        let r2 = s2.subrange(1, s2.len() as int);
        lemma_lex_lt_trichotomy(k1, k2);
        assert(k2 != k) by {
            assert(s2[0].0 == k2);
        }
        if lex_lt(k1, k2) {
            if k1 == k {
                assert(m[0] == (k1, set_null(s1[0].1)));
            } else {
                assert(entries_has(r1, k)) by {
                    let i = choose|i: int| 0 <= i < s1.len() && s1[i].0 == k;
                    assert(r1[i - 1].0 == k);
                }
                lemma_merge_absent_nullable(r1, s2, k);
                let mr = merge_entries(r1, s2);
                assert(entries_has(m, k)) by {
                    let i = choose|i: int| 0 <= i < mr.len() && mr[i].0 == k;
                    assert(m[i + 1].0 == k);
                }
                assert(m.subrange(1, m.len() as int) =~= mr);
            }
        } else if lex_lt(k2, k1) {
            assert(!entries_has(r2, k)) by {
                if entries_has(r2, k) {
                    let i = choose|i: int| 0 <= i < r2.len() && r2[i].0 == k;
                    assert(s2[i + 1].0 == k);
                }
            }
            lemma_merge_absent_nullable(s1, r2, k);
            let mr = merge_entries(s1, r2);
            assert(entries_has(m, k)) by {
                let i = choose|i: int| 0 <= i < mr.len() && mr[i].0 == k;
                assert(m[i + 1].0 == k);
            }
            assert(m.subrange(1, m.len() as int) =~= mr);
        } else {
            assert(k1 == k2);
            assert(k1 != k);
            assert(entries_has(r1, k)) by {
                let i = choose|i: int| 0 <= i < s1.len() && s1[i].0 == k;
                assert(r1[i - 1].0 == k);
            }
            assert(!entries_has(r2, k)) by {
                if entries_has(r2, k) {
                    let i = choose|i: int| 0 <= i < r2.len() && r2[i].0 == k;
                    assert(s2[i + 1].0 == k);
                }
            }
            lemma_merge_absent_nullable(r1, r2, k);
            let mr = merge_entries(r1, r2);
            assert(entries_has(m, k)) by {
                let i = choose|i: int| 0 <= i < mr.len() && mr[i].0 == k;
                assert(m[i + 1].0 == k);
            }
            assert(m.subrange(1, m.len() as int) =~= mr);
        }
    }
}

/// In a shape with every entry marked nullable, looking a key up finds
/// the original type, marked nullable.
proof fn lemma_entries_all_null_index_get(s: Seq<EntryModel>, k: Seq<char>)
    requires
        entries_has(s, k),
    ensures
        entries_has(entries_all_null(s), k),
        entries_get(entries_all_null(s), k) == set_null(entries_get(s, k)),
    decreases s.len(),
{
    let n = entries_all_null(s);
    let i = choose|i: int| 0 <= i < s.len() && s[i].0 == k;
    assert(n[i].0 == k);
    if s[0].0 != k {
        let r = s.subrange(1, s.len() as int);
        assert(entries_has(r, k)) by {
            assert(r[i - 1].0 == k);
        }
        lemma_entries_all_null_index_get(r, k);
        assert(entries_all_null(r) =~= n.subrange(1, n.len() as int));
    }
}

/// Merging two well-formed types yields a well-formed type: the merge
/// preserves the sorted-shape invariant.
pub proof fn lemma_merge_type_wf(a: TypeModel, b: TypeModel)
    requires
        type_wf(a),
        type_wf(b),
    ensures
        type_wf(merge_type(a, b)),
    decreases b, 1int, 0nat,
{
    lemma_merge_entries_wf(a.object, b.object);
    if a.array is Some && b.array is Some {
        lemma_merge_type_wf(*a.array->0, *b.array->0);
    }
}

/// Inserting a well-formed type under a key keeps an object shape
/// sorted and well formed, and adds no key but the inserted one.
pub proof fn lemma_sorted_insert_wf(s: Seq<EntryModel>, k: Seq<char>, t: TypeModel)
    requires
        entries_sorted(s),
        entries_wf(s),
        type_wf(t),
    ensures
        entries_sorted(sorted_insert(s, k, t)),
        entries_wf(sorted_insert(s, k, t)),
        forall|j: int|
            0 <= j < sorted_insert(s, k, t).len() ==> (#[trigger] sorted_insert(s, k, t)[j]).0 == k
                || entries_has(s, sorted_insert(s, k, t)[j].0),
    decreases s.len(),
{
    let m = sorted_insert(s, k, t);
    lemma_entries_wf_index(s);
    if s.len() == 0 {
        lemma_entries_wf_index(m);
    } else {
        let k0 = s[0].0;
        let r = s.subrange(1, s.len() as int);
        lemma_entries_wf_index(r);
        lemma_lex_lt_trichotomy(k0, k);
        if lex_lt(k0, k) {
            lemma_sorted_insert_wf(r, k, t);
            let mr = sorted_insert(r, k, t);
            assert(m == seq![s[0]] + mr);
            assert forall|j: int| 0 <= j < mr.len() implies lex_lt(k0, (#[trigger] mr[j]).0) by {
                if mr[j].0 != k {
                    let i = choose|i: int| 0 <= i < r.len() && r[i].0 == mr[j].0;
                    assert(s[i + 1].0 == mr[j].0);
                }
            }
            assert forall|i: int, j: int| 0 <= i < j < m.len() implies lex_lt(m[i].0, m[j].0) by {
                if i > 0 {
                    assert(m[i] == mr[i - 1]);
                }
                assert(m[j] == mr[j - 1]);
            }
            lemma_entries_wf_index(mr);
            lemma_entries_wf_index(m);
            assert forall|i: int| 0 <= i < m.len() implies type_wf(#[trigger] m[i].1) by {
                if i > 0 {
                    assert(m[i] == mr[i - 1]);
                }
            }
            assert forall|j: int| 0 <= j < m.len() implies (#[trigger] m[j]).0 == k
                || entries_has(s, m[j].0) by {
                if j > 0 && m[j].0 != k {
                    let i = choose|i: int| 0 <= i < r.len() && r[i].0 == m[j].0;
                    assert(s[i + 1].0 == m[j].0);
                }
            }
        } else if k0 == k {
            assert(m == seq![(k, t)] + r);
            assert forall|i: int, j: int| 0 <= i < j < m.len() implies lex_lt(m[i].0, m[j].0) by {
                if i > 0 {
                    assert(m[i] == s[i]);
                }
                assert(m[j] == s[j]);
            }
            lemma_entries_wf_index(m);
            assert forall|j: int| 0 <= j < m.len() implies (#[trigger] m[j]).0 == k
                || entries_has(s, m[j].0) by {
                if j > 0 {
                    assert(m[j] == s[j]);
                }
            }
        } else {
            assert(m == seq![(k, t)] + s);
            assert forall|i: int, j: int| 0 <= i < j < m.len() implies lex_lt(m[i].0, m[j].0) by {
                if i > 0 {
                    assert(m[i] == s[i - 1]);
                    assert(m[j] == s[j - 1]);
                } else {
                    assert(m[j] == s[j - 1]);
                    if j > 1 {
                        lemma_lex_lt_trans(k, k0, s[j - 1].0);
                    }
                }
            }
            lemma_entries_wf_index(m);
            assert forall|j: int| 0 <= j < m.len() implies (#[trigger] m[j]).0 == k
                || entries_has(s, m[j].0) by {
                if j > 0 {
                    assert(m[j] == s[j - 1]);
                }
            }
        }
    }
}

/// Every inferred type is well formed: object shapes come out sorted by
/// key at every level.
pub proof fn lemma_infer_wf(v: Value)
    ensures
        type_wf(infer_model(v)),
    decreases v, 1int,
{
    match v {
        Value::Object(fields) => {
            lemma_infer_fields_wf(fields@);
            let m = infer_model(v);
            assert(m.object == infer_fields(fields@));
            assert(entries_sorted(m.object));
            assert(entries_wf(m.object));
            assert(m.array is None);
            assert(type_wf(m));
        }
        Value::Array(elems) => {
            lemma_infer_elems_wf(elems@);
            let m = infer_model(v);
            assert(m.object.len() == 0);
            assert(entries_wf(m.object));
            assert(type_wf(m));
        }
        _ => {
            let m = infer_model(v);
            assert(m.object.len() == 0);
            assert(entries_wf(m.object));
            assert(type_wf(m));
        }
    }
}

/// The shape inferred from an object's fields is sorted and well
/// formed.
pub proof fn lemma_infer_fields_wf(s: Seq<(String, Value)>)
    ensures
        entries_sorted(infer_fields(s)),
        entries_wf(infer_fields(s)),
    decreases s, 0int,
{
    if s.len() > 0 {
        lemma_infer_fields_wf(s.subrange(0, s.len() - 1));
        lemma_infer_wf(s[s.len() - 1].1);
        lemma_sorted_insert_wf(
            infer_fields(s.subrange(0, s.len() - 1)),
            s[s.len() - 1].0@,
            infer_model(s[s.len() - 1].1),
        );
    }
}

/// The union of an array's element types is well formed.
pub proof fn lemma_infer_elems_wf(s: Seq<Value>)
    ensures
        type_wf(infer_elems(s)),
    decreases s, 0int,
{
    if s.len() > 0 {
        lemma_infer_elems_wf(s.subrange(0, s.len() - 1));
        lemma_infer_wf(s[s.len() - 1]);
        lemma_merge_type_wf(infer_elems(s.subrange(0, s.len() - 1)), infer_model(s[s.len() - 1]));
    } else {
        let m = infer_elems(s);
        assert(m.object.len() == 0);
        assert(entries_wf(m.object));
        assert(type_wf(m));
    }
}

/// A type that never observed an object or an array yields no
/// declarations at all, whatever its identifier: a bare primitive
/// renders as an empty sequence.
pub proof fn lemma_no_shape_no_decls(ident: Seq<char>, t: TypeModel)
    requires
        t.object.len() == 0,
        t.array is None,
    ensures
        decls_of(ident, t) == Seq::<Seq<char>>::empty(),
{
    assert(field_decls(ident, t.object) =~= Seq::<Seq<char>>::empty());
    assert(decls_of(ident, t) =~= Seq::<Seq<char>>::empty());
}

} // verus!
