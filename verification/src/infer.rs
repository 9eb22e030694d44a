//! Inference of a type descriptor from one decoded document value.

use vstd::prelude::*;

use crate::model::{empty_model, merge_type, sorted_insert, EntryModel, TypeModel};
use crate::order::str_lt;
use crate::types::{entries_model, lemma_entries_model, union_model, ObjectType, UnionType};

verus! {

/// One decoded document value, as handed in by the caller.
///
/// The inferred type of a leaf depends only on its kind, never on the
/// particular boolean, number or text observed, so leaves carry only
/// their kind here; a caller converts its decoded tree into this shape.
pub enum Value {
    /// A null.
    Null,
    /// A boolean.
    Bool,
    /// A number; integers and floats collapse into one numeric kind.
    Number,
    /// A text string.
    String,
    /// A mapping from field name to value.
    Object(Vec<(String, Value)>),
    /// A sequence of values.
    Array(Vec<Value>),
}

/// The type inferred for one value.
pub open spec fn infer_model(v: Value) -> TypeModel
    decreases v, 1int,
{
    match v {
        Value::Null => TypeModel { is_null: true, ..empty_model() },
        Value::Bool => TypeModel { is_bool: true, ..empty_model() },
        Value::Number => TypeModel { is_number: true, ..empty_model() },
        Value::String => TypeModel { is_string: true, ..empty_model() },
        Value::Object(fields) => TypeModel { object: infer_fields(fields@), ..empty_model() },
        Value::Array(elems) => TypeModel {
            array: Some(Box::new(infer_elems(elems@))),
            ..empty_model()
        },
    }
}

/// The object shape inferred from a sequence of fields: each field's
/// type, keyed and sorted by name; a repeated name keeps its last value.
pub open spec fn infer_fields(s: Seq<(String, Value)>) -> Seq<EntryModel>
    decreases s, 0int,
{
    if s.len() == 0 {
        Seq::empty()
    } else {
        sorted_insert(
            infer_fields(s.subrange(0, s.len() - 1)),
            s[s.len() - 1].0@,
            infer_model(s[s.len() - 1].1),
        )
    }
}

/// The union of the types of all elements of an array, folded in order
/// onto the empty type.
pub open spec fn infer_elems(s: Seq<Value>) -> TypeModel
    decreases s, 0int,
{
    if s.len() == 0 {
        empty_model()
    } else {
        merge_type(infer_elems(s.subrange(0, s.len() - 1)), infer_model(s[s.len() - 1]))
    }
}

/// Insert one inferred field into a shape kept sorted by name.
#[verifier::loop_isolation(false)]
fn insert_entry(entries: &mut Vec<(String, UnionType)>, k: String, t: UnionType)
    ensures
        entries_model(final(entries)@) == sorted_insert(
            entries_model(old(entries)@),
            k@,
            union_model(t),
        ),
{
    let ghost em0 = entries_model(old(entries)@);
    let ghost km = k@;
    let ghost tm = union_model(t);
    let len = entries.len();
    proof {
        lemma_entries_model(entries@);
        assert(entries@.subrange(0, 0) =~= Seq::<(String, UnionType)>::empty());
        assert(entries_model(entries@.subrange(0, 0)) =~= Seq::<EntryModel>::empty());
        assert(entries@.subrange(0, len as int) =~= entries@);
    }
    let mut pos: usize = 0;
    while pos < len && str_lt(entries[pos].0.as_str(), k.as_str())
        invariant
            pos <= len,
            sorted_insert(em0, km, tm) == entries_model(entries@.subrange(0, pos as int))
                + sorted_insert(
                entries_model(entries@.subrange(pos as int, len as int)),
                km,
                tm,
            ),
        decreases len - pos,
    {
        proof {
            let pre = entries@.subrange(pos as int, len as int);
            lemma_entries_model(pre);
            lemma_entries_model(entries@.subrange(0, pos as int));
            lemma_entries_model(entries@);
            assert(entries_model(pre)[0] == (entries@[pos as int].0@, union_model(
                entries@[pos as int].1,
            )));
            assert(entries_model(pre).subrange(1, entries_model(pre).len() as int)
                =~= entries_model(entries@.subrange(pos + 1, len as int))) by {
                lemma_entries_model(entries@.subrange(pos + 1, len as int));
                assert forall|j: int|
                    0 <= j < len - pos - 1 implies #[trigger] pre.subrange(1, pre.len() as int)[j]
                    == entries@.subrange(pos + 1, len as int)[j] by {}
                assert(pre.subrange(1, pre.len() as int) =~= entries@.subrange(
                    pos + 1,
                    len as int,
                ));
            }
            assert(entries_model(entries@.subrange(0, pos + 1)) =~= entries_model(
                entries@.subrange(0, pos as int),
            ).push((entries@[pos as int].0@, union_model(entries@[pos as int].1)))) by {
                lemma_entries_model(entries@.subrange(0, pos + 1));
                lemma_entries_model(entries@.subrange(0, pos as int));
            }
        }
        pos = pos + 1;
    }
    let ghost head = entries_model(entries@.subrange(0, pos as int));
    let ghost tail = entries_model(entries@.subrange(pos as int, len as int));
    proof {
        lemma_entries_model(entries@);
        lemma_entries_model(entries@.subrange(0, pos as int));
        lemma_entries_model(entries@.subrange(pos as int, len as int));
    }
    if pos == len {
        entries.push((k, t));
        proof {
            assert(tail.len() == 0);
            assert(sorted_insert(tail, km, tm) == seq![(km, tm)]);
            assert(entries@.subrange(0, entries@.len() - 1) =~= old(entries)@);
            assert(entries_model(entries@) =~= em0.push((km, tm)));
            assert(em0 =~= head);
            assert(entries_model(entries@) =~= head + sorted_insert(tail, km, tm));
        }
    } else {
        let same = entries[pos].0 == k;
        proof {
            assert(tail[0] == (entries@[pos as int].0@, union_model(entries@[pos as int].1)));
            assert(!crate::model::lex_lt(tail[0].0, km));
        }
        if same {
            let ghost pre = entries@;
            entries.remove(pos);
            entries.insert(pos, (k, t));
            proof {
                assert(entries@ =~= pre.subrange(0, pos as int) + seq![(k, t)] + pre.subrange(
                    pos + 1,
                    len as int,
                ));
                lemma_entries_model(entries@);
                lemma_entries_model(pre.subrange(pos + 1, len as int));
                assert(sorted_insert(tail, km, tm) == seq![(km, tm)] + tail.subrange(
                    1,
                    tail.len() as int,
                ));
                assert(tail.subrange(1, tail.len() as int) =~= entries_model(
                    pre.subrange(pos + 1, len as int),
                )) by {
                    assert forall|j: int|
                        0 <= j < len - pos - 1 implies #[trigger] entries_model(
                        pre.subrange(pos + 1, len as int),
                    )[j] == tail[j + 1] by {
                        assert(pre.subrange(pos + 1, len as int)[j] == pre.subrange(
                            pos as int,
                            len as int,
                        )[j + 1]);
                    }
                }
                assert(entries_model(entries@) =~= head + sorted_insert(tail, km, tm));
            }
        } else {
            let ghost pre = entries@;
            entries.insert(pos, (k, t));
            proof {
                assert(entries@ =~= pre.subrange(0, pos as int) + seq![(k, t)] + pre.subrange(
                    pos as int,
                    len as int,
                ));
                lemma_entries_model(entries@);
                assert(tail[0].0 != km);
                assert(sorted_insert(tail, km, tm) == seq![(km, tm)] + tail);
                assert(entries_model(entries@) =~= head + sorted_insert(tail, km, tm));
            }
        }
    }
}

/// Infer the type of one document value.
///
/// A null, boolean, number or string sets exactly its own kind flag; an
/// object contributes its field shape; an array contributes the union of
/// its element types, the empty type if it has no elements.
#[verifier::loop_isolation(false)]
pub fn value_to_type(value: &Value) -> (t: UnionType)
    ensures
        t@ == infer_model(*value),
        crate::model::type_wf(t@),
    decreases value,
{
    proof {
        crate::laws::lemma_infer_wf(*value);
    }
    match value {
        Value::Null => UnionType::null(),
        Value::Bool => UnionType::bool(),
        Value::Number => UnionType::number(),
        Value::String => UnionType::string(),
        Value::Object(fields) => {
            let mut entries: Vec<(String, UnionType)> = Vec::new();
            proof {
                assert(entries_model(entries@) =~= Seq::<EntryModel>::empty());
                assert(fields@.subrange(0, 0) =~= Seq::<(String, Value)>::empty());
            }
            let mut i: usize = 0;
            while i < fields.len()
                invariant
                    i <= fields.len(),
                    entries_model(entries@) == infer_fields(fields@.subrange(0, i as int)),
                decreases fields.len() - i,
            {
                let k = fields[i].0.clone();
                let ft = value_to_type(&fields[i].1);
                insert_entry(&mut entries, k, ft);
                proof {
                    assert(fields@.subrange(0, i + 1).subrange(0, i as int) =~= fields@.subrange(
                        0,
                        i as int,
                    ));
                    assert(fields@.subrange(0, i + 1)[i as int] == fields@[i as int]);
                }
                i = i + 1;
            }
            proof {
                assert(fields@.subrange(0, fields@.len() as int) =~= fields@);
            }
            UnionType::object(ObjectType(entries))
        }
        Value::Array(elems) => {
            let mut state = UnionType::default();
            proof {
                assert(elems@.subrange(0, 0) =~= Seq::<Value>::empty());
            }
            let mut i: usize = 0;
            while i < elems.len()
                invariant
                    i <= elems.len(),
                    state@ == infer_elems(elems@.subrange(0, i as int)),
                decreases elems.len() - i,
            {
                let et = value_to_type(&elems[i]);
                state.merge(et);
                proof {
                    assert(elems@.subrange(0, i + 1).subrange(0, i as int) =~= elems@.subrange(
                        0,
                        i as int,
                    ));
                    assert(elems@.subrange(0, i + 1)[i as int] == elems@[i as int]);
                }
                i = i + 1;
            }
            proof {
                assert(elems@.subrange(0, elems@.len() as int) =~= elems@);
            }
            UnionType::array(state)
        }
    }
}

} // verus!
