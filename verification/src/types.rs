//! The executable type descriptors and their merge.

use vstd::prelude::*;

use crate::model::{
    empty_model, entries_sorted, entries_wf, merge_entries, merge_type, type_wf, EntryModel,
    TypeModel,
};
use crate::order::str_lt;

verus! {

/// Accumulated shape of the objects observed at one position: field name
/// to inferred type, kept sorted strictly by name.
pub struct ObjectType(pub Vec<(String, UnionType)>);

/// Inferred type of one position in the document.
pub struct UnionType {
    /// A null was observed, or the position was absent from a sibling.
    pub is_null: bool,
    /// A boolean was observed.
    pub is_bool: bool,
    /// A number was observed.
    pub is_number: bool,
    /// A string was observed.
    pub is_string: bool,
    /// Accumulated object shape; empty if no object was ever observed.
    pub object_type: ObjectType,
    /// Union of array element types; `None` if no array was ever observed.
    pub array_type: Option<Box<UnionType>>,
}

/// The model of one executable type descriptor.
pub open spec fn union_model(t: UnionType) -> TypeModel
    decreases t, 1int,
{
    TypeModel {
        is_null: t.is_null,
        is_bool: t.is_bool,
        is_number: t.is_number,
        is_string: t.is_string,
        object: entries_model(t.object_type.0@),
        array: match t.array_type {
            Some(a) => Some(Box::new(union_model(*a))),
            None => None,
        },
    }
}

/// The model of a sequence of object entries.
pub open spec fn entries_model(s: Seq<(String, UnionType)>) -> Seq<EntryModel>
    decreases s, 0int,
{
    if s.len() == 0 {
        Seq::empty()
    } else {
        entries_model(s.subrange(0, s.len() - 1)).push(
            (s[s.len() - 1].0@, union_model(s[s.len() - 1].1)),
        )
    }
}

impl View for UnionType {
    type V = TypeModel;

    open spec fn view(&self) -> TypeModel {
        union_model(*self)
    }
}

impl View for ObjectType {
    type V = Seq<EntryModel>;

    open spec fn view(&self) -> Seq<EntryModel> {
        entries_model(self.0@)
    }
}

/// The modelled entries mirror the vector element-wise.
pub proof fn lemma_entries_model(s: Seq<(String, UnionType)>)
    ensures
        entries_model(s).len() == s.len(),
        forall|i: int|
            0 <= i < s.len() ==> #[trigger] entries_model(s)[i] == (
                s[i].0@,
                union_model(s[i].1),
            ),
    decreases s.len(),
{
    if s.len() > 0 {
        lemma_entries_model(s.subrange(0, s.len() - 1));
        assert forall|i: int| 0 <= i < s.len() implies #[trigger] entries_model(s)[i] == (
            s[i].0@,
            union_model(s[i].1),
        ) by {
            if i < s.len() - 1 {
                assert(s.subrange(0, s.len() - 1)[i] == s[i]);
            }
        }
    }
}

impl ObjectType {
    /// Accumulate another observed object shape into this one.
    ///
    /// A field of this shape that the other lacks becomes nullable; a
    /// field of both shapes has its two types merged; a field only of the
    /// other shape is inserted as it is.
    #[verifier::loop_isolation(false)]
    pub fn merge(&mut self, other: ObjectType)
        ensures
            final(self)@ == merge_entries(old(self)@, other@),
            entries_sorted(old(self)@) && entries_wf(old(self)@) && entries_sorted(other@)
                && entries_wf(other@) ==> entries_sorted(final(self)@) && entries_wf(
                final(self)@,
            ),
        decreases other@, 0int,
    {
        let ghost target = merge_entries(old(self)@, other@);
        let ghost bm = other@;
        let mut a: Vec<(String, UnionType)> = Vec::new();
        core::mem::swap(&mut self.0, &mut a);
        let mut b = other.0;
        proof {
            lemma_entries_model(b@);
            assert(entries_model(self.0@) =~= Seq::<EntryModel>::empty());
            assert(entries_model(b@) =~= bm.subrange(bm.len() - b@.len(), bm.len() as int));
        }
        while a.len() > 0 || b.len() > 0
            invariant
                target == entries_model(self.0@) + merge_entries(
                    entries_model(a@),
                    entries_model(b@),
                ),
                b@.len() <= bm.len(),
                entries_model(b@) == bm.subrange(bm.len() - b@.len(), bm.len() as int),
            decreases a.len() + b.len(),
        {
            proof {
                lemma_entries_model(a@);
                lemma_entries_model(b@);
                lemma_entries_model(self.0@);
            }
            let ghost am_pre = entries_model(a@);
            let ghost bm_pre = entries_model(b@);
            let ghost out_pre = entries_model(self.0@);
            if b.len() == 0 || (a.len() > 0 && str_lt(a[0].0.as_str(), b[0].0.as_str())) {
                // A field of this shape that the other side lacks, or whose
                // key comes first: keep it, marked nullable.
                let mut ea = a.remove(0);
                ea.1.is_null = true;
                proof {
                    assert(union_model(ea.1) =~= crate::model::set_null(am_pre[0].1));
                }
                self.0.push(ea);
                proof {
                    lemma_entries_model(a@);
                    assert(entries_model(a@) =~= am_pre.subrange(1, am_pre.len() as int));
                    if bm_pre.len() == 0 {
                        assert(merge_entries(am_pre, bm_pre) =~= crate::model::entries_all_null(
                            am_pre,
                        ));
                        assert(crate::model::entries_all_null(am_pre) =~= seq![
                            (am_pre[0].0, crate::model::set_null(am_pre[0].1)),
                        ] + crate::model::entries_all_null(
                            am_pre.subrange(1, am_pre.len() as int),
                        ));
                        assert(merge_entries(entries_model(a@), bm_pre)
                            =~= crate::model::entries_all_null(
                            am_pre.subrange(1, am_pre.len() as int),
                        ));
                    }
                }
            } else if a.len() == 0 || str_lt(b[0].0.as_str(), a[0].0.as_str()) {
                // A field only of the other shape, or whose key comes
                // first: insert it as it is.
                let eb = b.remove(0);
                self.0.push(eb);
                proof {
                    lemma_entries_model(b@);
                    assert(entries_model(b@) =~= bm_pre.subrange(1, bm_pre.len() as int));
                    if am_pre.len() == 0 {
                        assert(merge_entries(am_pre, bm_pre) == bm_pre);
                        assert(bm_pre =~= seq![bm_pre[0]] + bm_pre.subrange(
                            1,
                            bm_pre.len() as int,
                        ));
                        assert(merge_entries(am_pre, entries_model(b@)) == entries_model(b@));
                    }
                }
            } else {
                // The same field on both sides: merge the two types.
                proof {
                    crate::order::lemma_lex_lt_trichotomy(a@[0].0@, b@[0].0@);
                }
                let mut ea = a.remove(0);
                let eb = b.remove(0);
                proof {
                    lemma_entries_model(a@);
                    lemma_entries_model(b@);
                    assert(entries_model(a@) =~= am_pre.subrange(1, am_pre.len() as int));
                    assert(entries_model(b@) =~= bm_pre.subrange(1, bm_pre.len() as int));
                    let idx = bm.len() - bm_pre.len();
                    assert(bm_pre[0] == (eb.0@, union_model(eb.1)));
                    assert(bm.subrange(idx as int, bm.len() as int)[0] == bm[idx as int]);
                    assert(union_model(eb.1) == bm[idx as int].1);
                    assert(decreases_to!(bm => bm[idx as int]));
                    assert(decreases_to!(bm[idx as int] => bm[idx as int].1));
                    assert(decreases_to!(bm => union_model(eb.1)));
                }
                ea.1.merge(eb.1);
                self.0.push(ea);
            }
            proof {
                lemma_entries_model(self.0@);
                assert(self.0@.subrange(0, self.0@.len() - 1) =~= self.0@.subrange(
                    0,
                    out_pre.len() as int,
                ));
                assert(entries_model(self.0@) =~= out_pre.push(
                    entries_model(self.0@)[out_pre.len() as int],
                ));
                assert(target =~= entries_model(self.0@) + merge_entries(
                    entries_model(a@),
                    entries_model(b@),
                ));
            }
        }
        proof {
            assert(entries_model(a@) =~= Seq::<EntryModel>::empty());
            assert(entries_model(b@) =~= Seq::<EntryModel>::empty());
            assert(merge_entries(entries_model(a@), entries_model(b@)).len() == 0);
            assert(target =~= entries_model(self.0@));
            if entries_sorted(old(self)@) && entries_wf(old(self)@) && entries_sorted(bm)
                && entries_wf(bm) {
                crate::laws::lemma_merge_entries_wf(old(self)@, bm);
            }
        }
    }
}

impl Default for UnionType {
    /// The identity element for merging: nothing observed yet.
    fn default() -> (r: UnionType)
        ensures
            r@ == empty_model(),
    {
        let r = UnionType {
            is_null: false,
            is_bool: false,
            is_number: false,
            is_string: false,
            object_type: ObjectType(Vec::new()),
            array_type: None,
        };
        proof {
            assert(entries_model(r.object_type.0@) =~= Seq::<EntryModel>::empty());
            assert(r@ =~= empty_model());
        }
        r
    }
}

impl UnionType {
    /// The type of an observed null value.
    pub fn null() -> (r: UnionType)
        ensures
            r@ == (TypeModel { is_null: true, ..empty_model() }),
    {
        let r = UnionType { is_null: true, ..Default::default() };
        proof {
            assert(r@ =~= (TypeModel { is_null: true, ..empty_model() }));
        }
        r
    }

    /// The type of an observed boolean value.
    pub fn bool() -> (r: UnionType)
        ensures
            r@ == (TypeModel { is_bool: true, ..empty_model() }),
    {
        let r = UnionType { is_bool: true, ..Default::default() };
        proof {
            assert(r@ =~= (TypeModel { is_bool: true, ..empty_model() }));
        }
        r
    }

    /// The type of an observed numeric value.
    pub fn number() -> (r: UnionType)
        ensures
            r@ == (TypeModel { is_number: true, ..empty_model() }),
    {
        let r = UnionType { is_number: true, ..Default::default() };
        proof {
            assert(r@ =~= (TypeModel { is_number: true, ..empty_model() }));
        }
        r
    }

    /// The type of an observed string value.
    pub fn string() -> (r: UnionType)
        ensures
            r@ == (TypeModel { is_string: true, ..empty_model() }),
    {
        let r = UnionType { is_string: true, ..Default::default() };
        proof {
            assert(r@ =~= (TypeModel { is_string: true, ..empty_model() }));
        }
        r
    }

    /// The type of an observed object with the given shape.
    pub fn object(object_type: ObjectType) -> (r: UnionType)
        ensures
            r@ == (TypeModel { object: object_type@, ..empty_model() }),
    {
        let ghost shape = object_type@;
        let r = UnionType { object_type, ..Default::default() };
        proof {
            assert(r@ =~= (TypeModel { object: shape, ..empty_model() }));
        }
        r
    }

    /// Accumulate another observation of the same position into this type.
    ///
    /// Flags are or-ed, the object shapes are merged with absence marked
    /// as nullability, and the array element types are deep-merged
    /// whenever at least one side carries one.
    pub fn merge(&mut self, other: UnionType)
        ensures
            final(self)@ == merge_type(old(self)@, other@),
            type_wf(old(self)@) && type_wf(other@) ==> type_wf(final(self)@),
        decreases other@, 1int,
    {
        self.is_null = self.is_null || other.is_null;
        self.is_bool = self.is_bool || other.is_bool;
        self.is_number = self.is_number || other.is_number;
        self.is_string = self.is_string || other.is_string;
        proof {
            assert(decreases_to!(other@ => other@.object));
        }
        self.object_type.merge(other.object_type);
        let mut own: Option<Box<UnionType>> = None;
        core::mem::swap(&mut self.array_type, &mut own);
        match (own, other.array_type) {
            (Some(ax), Some(bx)) => {
                let mut elem: UnionType = *ax;
                elem.merge(*bx);
                self.array_type = Some(Box::new(elem));
            }
            (None, Some(bx)) => {
                self.array_type = Some(Box::new(*bx));
            }
            (prev, None) => {
                self.array_type = prev;
            }
        }
        proof {
            assert(self@ =~= merge_type(old(self)@, other@));
            if type_wf(old(self)@) && type_wf(other@) {
                crate::laws::lemma_merge_type_wf(old(self)@, other@);
            }
        }
    }

    /// The type of an observed array whose elements have the given type.
    pub fn array(array_type: UnionType) -> (r: UnionType)
        ensures
            r@ == (TypeModel { array: Some(Box::new(array_type@)), ..empty_model() }),
    {
        let ghost elem = array_type@;
        let r = UnionType { array_type: Some(Box::new(array_type)), ..Default::default() };
        proof {
            assert(r@ =~= (TypeModel { array: Some(Box::new(elem)), ..empty_model() }));
        }
        r
    }
}

} // verus!
