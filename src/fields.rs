use crate::dict::{entry_of, extract_tag_vr_from_str, DictEntry};
use crate::record::{
    has_tag, lookup, no_private, remove_spec, tags_unique, Element, Record, Tag,
};
use crate::transform::{purge_private, purged};
use crate::value::{dicom_vr_corrected_value, is_typed_value, typed_value_exists, ValueError};
use vstd::prelude::*;

verus! {

/// Why a record could not be transformed.
#[derive(Clone, Copy, Debug, PartialEq, Eq, Structural)]
pub enum TransformError {
    /// A literal could not be turned into a value of the field's type.
    Value(ValueError),
    /// A rule names a field missing from the dictionary.
    UnknownField,
    /// A field that the transformation reads is absent.
    MissingField,
    /// A field that the transformation reads holds no text.
    NotText,
    /// A unique identifier has fewer than eight components.
    ShortUid,
}

/// The field that records prior de-identification operations.
pub open spec fn spec_original_attributes_sequence() -> Tag {
    Tag { group: 0x0400, element: 0x0561 }
}

pub fn original_attributes_sequence() -> (r: Tag)
    ensures
        r == spec_original_attributes_sequence(),
{
    Tag { group: 0x0400, element: 0x0561 }
}

/// The position in `list[..n]` of the last entry with tag `t`, or -1.
pub open spec fn last_entry_for(list: Seq<DictEntry>, t: Tag, n: int) -> int
    decreases n,
{
    if n <= 0 {
        -1
    } else if list[n - 1].tag == t {
        n - 1
    } else {
        last_entry_for(list, t, n - 1)
    }
}

/// The state after masking the fields of `list[..n]` in `old`: each listed
/// field present in `old` holds `id` typed for the last entry naming it;
/// every other field is as in `old`.
pub open spec fn masked_fields(old: Seq<Element>, new: Seq<Element>, list: Seq<DictEntry>, id: Seq<char>, n: int) -> bool {
    &&& tags_unique(new)
    &&& forall|t: Tag| #[trigger] has_tag(new, t) == has_tag(old, t)
    &&& forall|t: Tag| {
        let k = #[trigger] last_entry_for(list, t, n);
        if k >= 0 && has_tag(old, t) {
            lookup(new, t) matches Some(y) && y.tag == t && y.vr == list[k].vr && is_typed_value(
                list[k].vr,
                id,
                y.value,
            )
        } else {
            lookup(new, t) == lookup(old, t)
        }
    }
}

/// Every listed field present in `old` can take `id` as a value of its type.
pub open spec fn mask_possible(old: Seq<Element>, list: Seq<DictEntry>, id: Seq<char>) -> bool {
    forall|k: int|
        0 <= k < list.len() && has_tag(old, #[trigger] list[k].tag) ==> typed_value_exists(list[k].vr, id)
}

proof fn lemma_has_lookup(s: Seq<Element>, t: Tag)
    ensures
        has_tag(s, t) <==> lookup(s, t) is Some,
{
}

/// Sets each listed field that the record holds to the subject's substitute
/// identity, typed for the field; absent fields are left absent.
pub fn tags_to_mask(dcm_obj: Record, patient_deid: &String, mask_config_list: &Vec<DictEntry>) -> (r:
    Result<Record, TransformError>)
    requires
        dcm_obj.wf(),
    ensures
        r is Ok <==> mask_possible(dcm_obj.elements@, mask_config_list@, patient_deid@),
        r matches Ok(new) ==> masked_fields(
            dcm_obj.elements@,
            new.elements@,
            mask_config_list@,
            patient_deid@,
            mask_config_list@.len() as int,
        ),
        r matches Err(e) ==> e is Value,
{
    let ghost orig = dcm_obj.elements@;
    let ghost list = mask_config_list@;
    let mut rec = dcm_obj;
    let mut i: usize = 0;
    while i < mask_config_list.len()
        invariant
            i <= list.len(),
            list == mask_config_list@,
            orig == dcm_obj.elements@,
            rec.wf(),
            masked_fields(orig, rec.elements@, list, patient_deid@, i as int),
            forall|k: int|
                0 <= k < i && has_tag(orig, #[trigger] list[k].tag) ==> typed_value_exists(list[k].vr, patient_deid@),
        decreases list.len() - i,
    {
        let entry = mask_config_list[i];
        assert(has_tag(rec.elements@, entry.tag) == has_tag(orig, entry.tag));
        if rec.contains(entry.tag) {
            match dicom_vr_corrected_value(entry.vr, patient_deid) {
                Ok(value) => {
                    let ghost before = rec.elements@;
                    let e = Element { tag: entry.tag, vr: entry.vr, value };
                    rec.put(e);
                    proof {
                        assert forall|t: Tag| #[trigger] has_tag(rec.elements@, t) == has_tag(orig, t) by {
                            lemma_has_lookup(rec.elements@, t);
                            lemma_has_lookup(before, t);
                        }
                        assert forall|t: Tag| true implies {
                            let k = #[trigger] last_entry_for(list, t, i + 1);
                            if k >= 0 && has_tag(orig, t) {
                                lookup(rec.elements@, t) matches Some(y) && y.tag == t && y.vr == list[k].vr
                                    && is_typed_value(list[k].vr, patient_deid@, y.value)
                            } else {
                                lookup(rec.elements@, t) == lookup(orig, t)
                            }
                        } by {
                            let _ = last_entry_for(list, t, i as int);
                        }
                    }
                },
                Err(e) => {
                    assert(has_tag(orig, list[i as int].tag) && !typed_value_exists(list[i as int].vr, patient_deid@));
                    return Err(TransformError::Value(e));
                },
            }
        } else {
            proof {
                assert forall|t: Tag| true implies {
                    let k = #[trigger] last_entry_for(list, t, i + 1);
                    if k >= 0 && has_tag(orig, t) {
                        lookup(rec.elements@, t) matches Some(y) && y.tag == t && y.vr == list[k].vr
                            && is_typed_value(list[k].vr, patient_deid@, y.value)
                    } else {
                        lookup(rec.elements@, t) == lookup(orig, t)
                    }
                } by {
                    let _ = last_entry_for(list, t, i as int);
                }
            }
        }
        i = i + 1;
    }
    Ok(rec)
}

/// The position in `pairs[..n]` of the last pair whose name resolves to tag `t`, or -1.
pub open spec fn last_add_for(pairs: Seq<(Seq<char>, Seq<char>)>, t: Tag, n: int) -> int
    decreases n,
{
    if n <= 0 {
        -1
    } else if entry_of(pairs[n - 1].0) matches Some(e) && e.tag == t {
        n - 1
    } else {
        last_add_for(pairs, t, n - 1)
    }
}

/// Every pair names a known field and holds a literal of that field's type.
pub open spec fn add_possible(pairs: Seq<(Seq<char>, Seq<char>)>) -> bool {
    forall|k: int|
        0 <= k < pairs.len() ==> (entry_of(#[trigger] pairs[k].0) matches Some(e) && typed_value_exists(
            e.vr,
            pairs[k].1,
        ))
}

/// The state after adding `pairs[..n]` to `old`: each named field holds the
/// literal of the last pair naming it, typed for the field; other fields are
/// as in `old`.
pub open spec fn added_fields(old: Seq<Element>, new: Seq<Element>, pairs: Seq<(Seq<char>, Seq<char>)>, n: int) -> bool {
    &&& tags_unique(new)
    &&& forall|t: Tag| {
        let k = #[trigger] last_add_for(pairs, t, n);
        if k >= 0 {
            lookup(new, t) matches Some(y) && y.tag == t && entry_of(pairs[k].0) == Some(
                DictEntry { tag: t, vr: y.vr },
            ) && is_typed_value(y.vr, pairs[k].1, y.value)
        } else {
            lookup(new, t) == lookup(old, t)
        }
    }
}

/// Sets each named field to its literal value, typed for the field,
/// overwriting any prior value.
pub fn tags_to_add(dcm_obj: Record, add_config_list: &Vec<(String, String)>) -> (r: Result<
    Record,
    TransformError,
>)
    requires
        dcm_obj.wf(),
    ensures
        r is Ok <==> add_possible(crate::text::pair_views(add_config_list@)),
        r matches Ok(new) ==> added_fields(
            dcm_obj.elements@,
            new.elements@,
            crate::text::pair_views(add_config_list@),
            add_config_list@.len() as int,
        ),
        r matches Err(e) ==> e is UnknownField || e is Value,
{
    let ghost orig = dcm_obj.elements@;
    let ghost pairs = crate::text::pair_views(add_config_list@);
    let mut rec = dcm_obj;
    let mut i: usize = 0;
    while i < add_config_list.len()
        invariant
            i <= add_config_list@.len(),
            pairs == crate::text::pair_views(add_config_list@),
            orig == dcm_obj.elements@,
            rec.wf(),
            added_fields(orig, rec.elements@, pairs, i as int),
            forall|k: int|
                0 <= k < i ==> (entry_of(#[trigger] pairs[k].0) matches Some(e) && typed_value_exists(
                    e.vr,
                    pairs[k].1,
                )),
        decreases add_config_list@.len() - i,
    {
        let (name, literal) = &add_config_list[i];
        assert(pairs[i as int] == (name@, literal@));
        let entry = match extract_tag_vr_from_str(name) {
            Ok(e) => e,
            Err(_) => {
                assert(entry_of(pairs[i as int].0) is None);
                return Err(TransformError::UnknownField);
            },
        };
        let value = match dicom_vr_corrected_value(entry.vr, literal) {
            Ok(v) => v,
            Err(e) => {
                assert(!typed_value_exists(entry.vr, pairs[i as int].1));
                return Err(TransformError::Value(e));
            },
        };
        rec.put(Element { tag: entry.tag, vr: entry.vr, value });
        proof {
            assert forall|t: Tag| true implies {
                let k = #[trigger] last_add_for(pairs, t, i + 1);
                if k >= 0 {
                    lookup(rec.elements@, t) matches Some(y) && y.tag == t && entry_of(pairs[k].0) == Some(
                        DictEntry { tag: t, vr: y.vr },
                    ) && is_typed_value(y.vr, pairs[k].1, y.value)
                } else {
                    lookup(rec.elements@, t) == lookup(orig, t)
                }
            } by {
                let _ = last_add_for(pairs, t, i as int);
            }
        }
        i = i + 1;
    }
    Ok(rec)
}

/// The state after deleting the fields of `list` from `old`.
pub open spec fn deleted_fields(old: Seq<Element>, new: Seq<Element>, list: Seq<DictEntry>) -> bool {
    &&& tags_unique(new)
    &&& forall|t: Tag|
        #![trigger lookup(new, t)]
        if exists|k: int| 0 <= k < list.len() && #[trigger] list[k].tag == t {
            lookup(new, t) is None
        } else {
            lookup(new, t) == lookup(old, t)
        }
}

/// Removes each listed field if present.
pub fn tags_to_delete(dcm_obj: Record, delete_config_list: &Vec<DictEntry>) -> (r: Record)
    requires
        dcm_obj.wf(),
    ensures
        deleted_fields(dcm_obj.elements@, r.elements@, delete_config_list@),
{
    let ghost orig = dcm_obj.elements@;
    let ghost list = delete_config_list@;
    let mut rec = dcm_obj;
    let mut i: usize = 0;
    while i < delete_config_list.len()
        invariant
            i <= list.len(),
            list == delete_config_list@,
            orig == dcm_obj.elements@,
            rec.wf(),
            forall|t: Tag|
                #![trigger lookup(rec.elements@, t)]
                if exists|k: int| 0 <= k < i && #[trigger] list[k].tag == t {
                    lookup(rec.elements@, t) is None
                } else {
                    lookup(rec.elements@, t) == lookup(orig, t)
                },
        decreases list.len() - i,
    {
        let entry = delete_config_list[i];
        let ghost before = rec.elements@;
        let _ = rec.remove(entry.tag);
        proof {
            assert forall|t: Tag| true implies #[trigger] lookup(rec.elements@, t) == (if exists|k: int|
                0 <= k < i + 1 && #[trigger] list[k].tag == t {
                None
            } else {
                lookup(orig, t)
            }) by {
                if t == entry.tag {
                    assert(list[i as int].tag == t);
                } else {
                    assert(lookup(rec.elements@, t) == lookup(before, t));
                    if exists|k: int| 0 <= k < i + 1 && #[trigger] list[k].tag == t {
                        let k = choose|k: int| 0 <= k < i + 1 && #[trigger] list[k].tag == t;
                        assert(k < i);
                    }
                }
            }
        }
        i = i + 1;
    }
    rec
}

proof fn lemma_remove_keeps_no_private(r: Record, n: Record, t: Tag)
    requires
        no_private(r),
        n.elements@ == remove_spec(r.elements@, t),
    ensures
        no_private(n),
{
    if has_tag(r.elements@, t) {
        let k = crate::record::tag_index(r.elements@, t);
        assert forall|i: int| 0 <= i < n.elements@.len() implies crate::record::no_private_elem(
            #[trigger] n.elements@[i],
        ) by {
            let i2 = if i < k { i } else { i + 1 };
            assert(n.elements@[i] == r.elements@[i2]);
        }
    } else {
        assert forall|i: int| 0 <= i < n.elements@.len() implies crate::record::no_private_elem(
            #[trigger] n.elements@[i],
        ) by {
            assert(n.elements@[i] == r.elements@[i]);
        }
    }
    crate::record::lemma_no_private_intro(n);
}

/// Removes every private field at every nesting level, then the field that
/// records prior de-identification operations.
pub fn delete_private_tags(dcm_obj: Record) -> (r: Record)
    requires
        dcm_obj.wf(),
    ensures
        exists|p: Record|
            purged(dcm_obj, p) && r.elements@ == remove_spec(
                p.elements@,
                spec_original_attributes_sequence(),
            ),
        no_private(r),
        r.wf(),
        !has_tag(r.elements@, spec_original_attributes_sequence()),
{
    let mut p = purge_private(dcm_obj);
    let ghost pv = p;
    let _ = p.remove(original_attributes_sequence());
    proof {
        lemma_remove_keeps_no_private(pv, p, spec_original_attributes_sequence());
    }
    p
}

/// A record of unique tags is well formed.
pub proof fn lemma_uids_wf(r: Record)
    requires
        tags_unique(r.elements@),
    ensures
        r.wf(),
{
}

/// Deleting private fields keeps every public top-level field other than the
/// prior-operations field, with the same tag, type and value, and its nested
/// records purged the same way at every depth.
pub proof fn law_delete_private_keeps_public(a: Record, p: Record, r: Record, i: int)
    requires
        a.wf(),
        crate::transform::purged(a, p),
        r.elements@ == remove_spec(p.elements@, spec_original_attributes_sequence()),
        0 <= i < a.elements@.len(),
        !a.elements@[i].tag.spec_is_private(),
        a.elements@[i].tag != spec_original_attributes_sequence(),
    ensures
        exists|j: int| 0 <= j < r.elements@.len() && crate::transform::elem_purged(a.elements@[i], #[trigger] r.elements@[j]),
{
    crate::transform::law_purge_keeps_public(a.elements@, p.elements@, i);
    let j = choose|j: int| 0 <= j < p.elements@.len() && crate::transform::elem_purged(a.elements@[i], #[trigger] p.elements@[j]);
    let o = spec_original_attributes_sequence();
    if has_tag(p.elements@, o) {
        let q = crate::record::tag_index(p.elements@, o);
        assert(p.elements@[q].tag == o);
        assert(j != q);
        let j2 = if j < q { j } else { j - 1 };
        assert(r.elements@[j2] == p.elements@[j]);
    } else {
        assert(r.elements@[j] == p.elements@[j]);
    }
}

} // verus!
