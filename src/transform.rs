use crate::record::{DateParts, Element, Record, TimeParts, Value, Vr};
use crate::text::views;
use vstd::prelude::*;

verus! {

/// What a plain value holds, as mathematical values.
pub enum Plain {
    Texts(Seq<Seq<char>>),
    Text(Seq<char>),
    Date(DateParts),
    Time(TimeParts),
    DateTime(DateParts, TimeParts),
    /// Nested records or an opaque value.
    Other,
}

/// The contents of `v`.
pub open spec fn plain_of(v: Value) -> Plain {
    match v {
        Value::Strs(l) => Plain::Texts(views(l@)),
        Value::Str(t) => Plain::Text(t@),
        Value::Date(d) => Plain::Date(d),
        Value::Time(t) => Plain::Time(t),
        Value::DateTime(d, t) => Plain::DateTime(d, t),
        _ => Plain::Other,
    }
}

/// A value that holds no nested records and nothing opaque.
pub open spec fn is_plain(v: Value) -> bool {
    !(plain_of(v) is Other)
}

/// A copy of a plain value.
pub fn duplicate(v: &Value) -> (r: Value)
    requires
        is_plain(*v),
    ensures
        plain_of(r) == plain_of(*v),
{
    match v {
        Value::Strs(l) => {
            let mut out: Vec<String> = Vec::new();
            let mut i: usize = 0;
            while i < l.len()
                invariant
                    i <= l@.len(),
                    views(out@) == views(l@.subrange(0, i as int)),
                decreases l@.len() - i,
            {
                let ghost before = out@;
                out.push(l[i].clone());
                assert(views(out@) == views(before).push(l@[i as int]@));
                assert(l@.subrange(0, i + 1) == l@.subrange(0, i as int).push(l@[i as int]));
                i = i + 1;
            }
            assert(l@.subrange(0, l@.len() as int) == l@);
            Value::Strs(out)
        },
        Value::Str(t) => Value::Str(t.clone()),
        Value::Date(d) => Value::Date(*d),
        Value::Time(t) => Value::Time(*t),
        Value::DateTime(d, t) => Value::DateTime(*d, *t),
        _ => {
            assert(false);
            Value::Str(String::new())
        },
    }
}

/// `b` is `a` with the value of every field whose type is in `vrs`, at every
/// nesting level, replaced by a value holding `val`.
pub open spec fn masked_vrs(a: Record, b: Record, vrs: Seq<Vr>, val: Plain) -> bool
    decreases a,
{
    &&& a.elements@.len() == b.elements@.len()
    &&& forall|i: int|
        #![trigger a.elements@[i]]
        0 <= i < a.elements@.len() ==> {
            let x = a.elements@[i];
            let y = b.elements@[i];
            &&& y.tag == x.tag
            &&& y.vr == x.vr
            &&& if vrs.contains(x.vr) {
                plain_of(y.value) == val
            } else if x.value is Items {
                &&& y.value is Items
                &&& x.value->Items_0@.len() == y.value->Items_0@.len()
                &&& forall|k: int|
                    0 <= k < x.value->Items_0@.len() ==> masked_vrs(
                        #[trigger] x.value->Items_0@[k],
                        y.value->Items_0@[k],
                        vrs,
                        val,
                    )
            } else {
                y.value == x.value
            }
        }
}

fn contains_vr(vrs: &Vec<Vr>, vr: Vr) -> (r: bool)
    ensures
        r == vrs@.contains(vr),
{
    let mut i: usize = 0;
    while i < vrs.len()
        invariant
            i <= vrs@.len(),
            forall|k: int| 0 <= k < i ==> vrs@[k] != vr,
        decreases vrs@.len() - i,
    {
        if vrs[i] == vr {
            return true;
        }
        i = i + 1;
    }
    false
}

/// Replaces the value of every field whose type is in `vrs`, at every nesting
/// level, by a copy of `val`.
pub fn mask_vrs_in(record: Record, vrs: &Vec<Vr>, val: &Value) -> (r: Record)
    requires
        is_plain(*val),
    ensures
        masked_vrs(record, r, vrs@, plain_of(*val)),
    decreases record,
{
    let ghost orig = record.elements@;
    let mut src = record.elements;
    let mut out: Vec<Element> = Vec::new();
    while src.len() > 0
        invariant
            is_plain(*val),
            orig == record.elements@,
            out@.len() + src@.len() == orig.len(),
            src@ == orig.subrange(out@.len() as int, orig.len() as int),
            forall|i: int|
                #![trigger orig[i]]
                0 <= i < out@.len() ==> {
                    let x = orig[i];
                    let y = out@[i];
                    &&& y.tag == x.tag
                    &&& y.vr == x.vr
                    &&& if vrs@.contains(x.vr) {
                        plain_of(y.value) == plain_of(*val)
                    } else if x.value is Items {
                        &&& y.value is Items
                        &&& x.value->Items_0@.len() == y.value->Items_0@.len()
                        &&& forall|k: int|
                            0 <= k < x.value->Items_0@.len() ==> masked_vrs(
                                #[trigger] x.value->Items_0@[k],
                                y.value->Items_0@[k],
                                vrs@,
                                plain_of(*val),
                            )
                    } else {
                        y.value == x.value
                    }
                },
        decreases src@.len(),
    {
        let ghost at = out@.len() as int;
        let e = src.remove(0);
        assert(e == orig[at]);
        let Element { tag, vr: evr, value } = e;
        if contains_vr(vrs, evr) {
            out.push(Element { tag, vr: evr, value: duplicate(val) });
        } else {
            match value {
                Value::Items(items) => {
                    let ghost iorig = items@;
                    let mut isrc = items;
                    let mut iout: Vec<Record> = Vec::new();
                    while isrc.len() > 0
                        invariant
                            is_plain(*val),
                            iout@.len() + isrc@.len() == iorig.len(),
                            isrc@ == iorig.subrange(iout@.len() as int, iorig.len() as int),
                            forall|k: int|
                                0 <= k < iout@.len() ==> masked_vrs(
                                    #[trigger] iorig[k],
                                    iout@[k],
                                    vrs@,
                                    plain_of(*val),
                                ),
                            orig[at].value is Items,
                            orig[at].value->Items_0@ == iorig,
                            0 <= at < orig.len(),
                            orig == record.elements@,
                        decreases isrc@.len(),
                    {
                        let ghost k = iout@.len() as int;
                        let item = isrc.remove(0);
                        assert(item == iorig[k]);
                        assert(decreases_to!(record => item)) by {
                            assert(decreases_to!(record => record.elements));
                            assert(decreases_to!(record.elements => record.elements@));
                            assert(decreases_to!(record.elements@ => record.elements@[at]));
                            assert(decreases_to!(record.elements@[at] => record.elements@[at].value));
                            assert(decreases_to!(record.elements@[at].value => record.elements@[at].value->Items_0));
                            assert(decreases_to!(record.elements@[at].value->Items_0 => record.elements@[at].value->Items_0@));
                            assert(decreases_to!(record.elements@[at].value->Items_0@ => record.elements@[at].value->Items_0@[k]));
                        }
                        let m = mask_vrs_in(item, vrs, val);
                        iout.push(m);
                    }
                    out.push(Element { tag, vr: evr, value: Value::Items(iout) });
                },
                other => {
                    out.push(Element { tag, vr: evr, value: other });
                },
            }
        }
    }
    Record { elements: out }
}

/// Replaces the value of every field of type `vr`, at every nesting level, by `val`.
pub fn mask_all_vr(record: Record, vr: Vr, val: &Value) -> (r: Record)
    requires
        is_plain(*val),
    ensures
        masked_vrs(record, r, seq![vr], plain_of(*val)),
{
    let vrs = vec![vr];
    assert(vrs@ == seq![vr]);
    mask_vrs_in(record, &vrs, val)
}

/// Replaces the value of every field whose type is in `vr_list`, at every
/// nesting level, by the one-string list `[val]`.
pub fn mask_vr(record: Record, vr_list: &Vec<Vr>, val: &String) -> (r: Record)
    ensures
        masked_vrs(record, r, vr_list@, Plain::Texts(seq![val@])),
{
    let copy = val.clone();
    let texts = vec![copy];
    assert(views(texts@) == seq![val@]) by {
        assert(views(texts@)[0] == val@);
    }
    let p_value = Value::Strs(texts);
    mask_vrs_in(record, vr_list, &p_value)
}

} // verus!

verus! {

/// `b` is the field list `a` without private fields at any nesting level:
/// public fields are kept in order, with the same tag, type and value, except
/// that the records nested in a sequence are purged the same way.
pub open spec fn purged_seq(a: Seq<Element>, b: Seq<Element>) -> bool
    decreases a,
{
    if a.len() == 0 {
        b.len() == 0
    } else {
        let x = a[a.len() - 1];
        if x.tag.spec_is_private() {
            purged_seq(a.subrange(0, a.len() - 1), b)
        } else {
            &&& b.len() > 0
            &&& purged_seq(a.subrange(0, a.len() - 1), b.subrange(0, b.len() - 1))
            &&& {
                let y = b[b.len() - 1];
                &&& y.tag == x.tag
                &&& y.vr == x.vr
                &&& if x.value is Items {
                    &&& y.value is Items
                    &&& x.value->Items_0@.len() == y.value->Items_0@.len()
                    &&& forall|k: int|
                        0 <= k < x.value->Items_0@.len() ==> purged_seq(
                            #[trigger] x.value->Items_0@[k].elements@,
                            y.value->Items_0@[k].elements@,
                        )
                } else {
                    y.value == x.value
                }
            }
        }
    }
}

/// `b` is the record `a` with its private fields purged at every level.
pub open spec fn purged(a: Record, b: Record) -> bool {
    purged_seq(a.elements@, b.elements@)
}

/// `y` is the public field `x` with private fields purged from its nested records.
pub open spec fn elem_purged(x: Element, y: Element) -> bool {
    &&& y.tag == x.tag
    &&& y.vr == x.vr
    &&& if x.value is Items {
        &&& y.value is Items
        &&& x.value->Items_0@.len() == y.value->Items_0@.len()
        &&& forall|k: int|
            0 <= k < x.value->Items_0@.len() ==> purged_seq(
                #[trigger] x.value->Items_0@[k].elements@,
                y.value->Items_0@[k].elements@,
            )
    } else {
        y.value == x.value
    }
}

/// Every field kept by a purge carries the tag of a field of the input,
/// in the same order; so tags stay unique.
pub proof fn lemma_purged_tags(a: Seq<Element>, b: Seq<Element>)
    requires
        purged_seq(a, b),
    ensures
        forall|j: int|
            #![trigger b[j]]
            0 <= j < b.len() ==> exists|i: int|
                #![trigger a[i]]
                0 <= i < a.len() && b[j].tag == a[i].tag && !a[i].tag.spec_is_private(),
        crate::record::tags_unique(a) ==> crate::record::tags_unique(b),
    decreases a.len(),
{
    if a.len() > 0 {
        let a0 = a.subrange(0, a.len() - 1);
        let x = a[a.len() - 1];
        if x.tag.spec_is_private() {
            lemma_purged_tags(a0, b);
            assert forall|j: int| #![trigger b[j]] 0 <= j < b.len() implies exists|i: int|
                #![trigger a[i]]
                0 <= i < a.len() && b[j].tag == a[i].tag && !a[i].tag.spec_is_private() by {
                let i = choose|i: int| #![trigger a0[i]] 0 <= i < a0.len() && b[j].tag == a0[i].tag && !a0[i].tag.spec_is_private();
                assert(a0[i] == a[i]);
            }
            if crate::record::tags_unique(a) {
                assert(crate::record::tags_unique(a0)) by {
                    assert forall|i: int, j: int|
                        0 <= i < a0.len() && 0 <= j < a0.len() && i != j implies #[trigger] a0[i].tag
                        != #[trigger] a0[j].tag by {
                        assert(a0[i] == a[i] && a0[j] == a[j]);
                    }
                }
            }
        } else {
            let b0 = b.subrange(0, b.len() - 1);
            lemma_purged_tags(a0, b0);
            assert forall|j: int| #![trigger b[j]] 0 <= j < b.len() implies exists|i: int|
                #![trigger a[i]]
                0 <= i < a.len() && b[j].tag == a[i].tag && !a[i].tag.spec_is_private() by {
                if j == b.len() - 1 {
                    assert(b[j].tag == a[a.len() - 1].tag);
                } else {
                    assert(b[j] == b0[j]);
                    let i = choose|i: int| #![trigger a0[i]] 0 <= i < a0.len() && b0[j].tag == a0[i].tag && !a0[i].tag.spec_is_private();
                    assert(a0[i] == a[i]);
                }
            }
            if crate::record::tags_unique(a) {
                assert(crate::record::tags_unique(a0)) by {
                    assert forall|i: int, j: int|
                        0 <= i < a0.len() && 0 <= j < a0.len() && i != j implies #[trigger] a0[i].tag
                        != #[trigger] a0[j].tag by {
                        assert(a0[i] == a[i] && a0[j] == a[j]);
                    }
                }
                assert forall|i: int, j: int|
                    0 <= i < b.len() && 0 <= j < b.len() && i != j implies #[trigger] b[i].tag
                    != #[trigger] b[j].tag by {
                    if i == b.len() - 1 || j == b.len() - 1 {
                        let o = if i == b.len() - 1 { j } else { i };
                        assert(b[o] == b0[o]);
                        let k = choose|k: int| #![trigger a0[k]] 0 <= k < a0.len() && b0[o].tag == a0[k].tag && !a0[k].tag.spec_is_private();
                        assert(a0[k] == a[k]);
                        assert(a[k].tag != a[a.len() - 1].tag);
                    } else {
                        assert(b[i] == b0[i] && b[j] == b0[j]);
                    }
                }
            }
        }
    }
}

/// Purges private fields from the nested records of the public field `e`.
fn purge_element(e: Element) -> (r: Element)
    ensures
        elem_purged(e, r),
        !e.tag.spec_is_private() ==> crate::record::no_private_elem(r),
    decreases e,
{

    let Element { tag, vr, value } = e;
    match value {
        Value::Items(items) => {
            assert(decreases_to!(e => items)) by {
                assert(decreases_to!(e => e.value));
                assert(decreases_to!(e.value => e.value->Items_0));
            }
            let ghost iv = items@;
            let w = purge_items(items);
            let r = Element { tag, vr, value: Value::Items(w) };
            assert forall|k: int| 0 <= k < e.value->Items_0@.len() implies purged_seq(
                #[trigger] e.value->Items_0@[k].elements@,
                r.value->Items_0@[k].elements@,
            ) by {
                assert(e.value->Items_0@[k] == iv[k]);
                assert(r.value->Items_0@[k] == w@[k]);
            }
            assert(forall|k: int| 0 <= k < w@.len() ==> crate::record::no_private(#[trigger] w@[k]));
            assert(forall|k: int| 0 <= k < r.value->Items_0@.len() ==> crate::record::no_private(#[trigger] r.value->Items_0@[k]));
            r
        },
        other => Element { tag, vr, value: other },
    }
}

/// Purges private fields from each record of `items`.
fn purge_items(items: Vec<Record>) -> (r: Vec<Record>)
    ensures
        r@.len() == items@.len(),
        forall|k: int| 0 <= k < items@.len() ==> purged(#[trigger] items@[k], r@[k]),
        forall|k: int| 0 <= k < r@.len() ==> crate::record::no_private(#[trigger] r@[k]),
    decreases items,
{
    let ghost iorig = items@;
    let mut isrc = items;
    let mut iout: Vec<Record> = Vec::new();
    while isrc.len() > 0
        invariant
            iorig == items@,
            iout@.len() + isrc@.len() == iorig.len(),
            isrc@ == iorig.subrange(iout@.len() as int, iorig.len() as int),
            forall|k: int| 0 <= k < iout@.len() ==> purged(#[trigger] iorig[k], iout@[k]),
            forall|k: int| 0 <= k < iout@.len() ==> crate::record::no_private(#[trigger] iout@[k]),
        decreases isrc@.len(),
    {
        let ghost k = iout@.len() as int;
        let item = isrc.remove(0);
        assert(item == iorig[k]);
        assert(decreases_to!(items => item)) by {
            assert(decreases_to!(items => items@));
            assert(decreases_to!(items@ => items@[k]));
        }
        let m = purge_private(item);
        iout.push(m);
    }
    iout
}

/// Removes every private field (odd group number) at every nesting level,
/// keeping all other fields in order.
pub fn purge_private(record: Record) -> (r: Record)
    ensures
        purged(record, r),
        crate::record::no_private(r),
        record.wf() ==> r.wf(),
    decreases record,
{
    let ghost orig = record.elements@;
    let total = record.elements.len();
    let mut src = record.elements;
    let mut out: Vec<Element> = Vec::new();
    let mut done: usize = 0;
    while src.len() > 0
        invariant
            orig == record.elements@,
            total == orig.len(),
            done <= orig.len(),
            src@ == orig.subrange(done as int, orig.len() as int),
            purged_seq(orig.subrange(0, done as int), out@),
            forall|j: int| 0 <= j < out@.len() ==> crate::record::no_private_elem(#[trigger] out@[j]),
        decreases src@.len(),
    {
        let ghost at = done as int;
        let e = src.remove(0);
        assert(e == orig[at]);
        done = done + 1;
        let ghost pre = orig.subrange(0, done as int);
        assert(pre.subrange(0, pre.len() - 1) == orig.subrange(0, at));
        assert(pre[pre.len() - 1] == e);
        if !e.tag.is_private() {
            assert(decreases_to!(record => e)) by {
                assert(decreases_to!(record => record.elements));
                assert(decreases_to!(record.elements => record.elements@));
                assert(decreases_to!(record.elements@ => record.elements@[at]));
            }
            let ghost before = out@;
            let ne = purge_element(e);
            out.push(ne);
            assert(out@.subrange(0, out@.len() - 1) == before);
            assert(out@[out@.len() - 1] == ne);
        }
    }
    assert(orig.subrange(0, done as int) == orig);
    let r = Record { elements: out };
    proof {
        assert forall|i: int| 0 <= i < r.elements@.len() implies crate::record::no_private_elem(
            #[trigger] r.elements@[i],
        ) by {
            assert(r.elements@[i] == out@[i]);
        }
        crate::record::lemma_no_private_intro(r);
        lemma_purged_tags(orig, r.elements@);
    }
    r
}

/// Purging private fields keeps every public field, at every nesting level:
/// same tag and type, the same value unless it is a sequence, and for a
/// sequence as many nested records, each purged the same way.
pub proof fn law_purge_keeps_public(a: Seq<Element>, b: Seq<Element>, i: int)
    requires
        purged_seq(a, b),
        0 <= i < a.len(),
        !a[i].tag.spec_is_private(),
    ensures
        exists|j: int| 0 <= j < b.len() && elem_purged(a[i], #[trigger] b[j]),
    decreases a.len(),
{
    let a0 = a.subrange(0, a.len() - 1);
    if i == a.len() - 1 {
        assert(elem_purged(a[i], b[b.len() - 1]));
    } else {
        assert(a[i] == a0[i]);
        if a[a.len() - 1].tag.spec_is_private() {
            law_purge_keeps_public(a0, b, i);
        } else {
            let b0 = b.subrange(0, b.len() - 1);
            law_purge_keeps_public(a0, b0, i);
            let j = choose|j: int| 0 <= j < b0.len() && elem_purged(a0[i], #[trigger] b0[j]);
            assert(b0[j] == b[j]);
        }
    }
}

/// Masking by type leaves a top-level field of another type, holding no
/// nested records, as it was; a field of a masked type gets the mask value.
pub proof fn lemma_masked_lookup(a: Record, b: Record, vrs: Seq<Vr>, val: Plain, t: crate::record::Tag)
    requires
        masked_vrs(a, b, vrs, val),
        a.wf(),
        crate::record::lookup(a.elements@, t) is Some,
    ensures
        b.wf(),
        ({
            let x = crate::record::lookup(a.elements@, t)->Some_0;
            &&& !vrs.contains(x.vr) && !(x.value is Items) ==> crate::record::lookup(b.elements@, t)
                == crate::record::lookup(a.elements@, t)
            &&& vrs.contains(x.vr) ==> (crate::record::lookup(b.elements@, t) matches Some(y) && y.tag == t
                && y.vr == x.vr && plain_of(y.value) == val)
        }),
{
    crate::anon::lemma_masked_keeps_tags(a, b, vrs, val);
    let i = crate::record::tag_index(a.elements@, t);
    let _ = a.elements@[i];
    assert(b.elements@[i].tag == t);
    crate::record::lemma_tag_index_unique(b.elements@, t, i);
}

/// Purging keeps a public top-level field that holds no nested records.
pub proof fn lemma_purged_lookup(a: Record, b: Record, t: crate::record::Tag)
    requires
        purged(a, b),
        a.wf(),
        crate::record::lookup(a.elements@, t) matches Some(x) && !x.tag.spec_is_private() && !(x.value is Items),
    ensures
        crate::record::lookup(b.elements@, t) == crate::record::lookup(a.elements@, t),
        b.wf(),
{
    let i = crate::record::tag_index(a.elements@, t);
    lemma_purged_tags(a.elements@, b.elements@);
    law_purge_keeps_public(a.elements@, b.elements@, i);
    let j = choose|j: int| 0 <= j < b.elements@.len() && elem_purged(a.elements@[i], #[trigger] b.elements@[j]);
    assert(b.elements@[j] == a.elements@[i]);
    crate::record::lemma_tag_index_unique(b.elements@, t, j);
}

} // verus!
