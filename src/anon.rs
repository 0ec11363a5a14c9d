use crate::dict::DictEntry;
use crate::fields::{last_entry_for, TransformError};
use crate::record::{has_tag, lookup, tags_unique, DateParts, Element, Record, Tag, TimeParts, Value, Vr};
use crate::text::{push_chars, push_str, split_chars, split_on, string_of};
use crate::transform::{mask_all_vr, masked_vrs, plain_of, Plain};
use crate::value::{dicom_vr_corrected_value, is_typed_value, value_text};
use vstd::prelude::*;
use vstd::string::StringExecFns;

verus! {

/// Masking keeps every field's tag in place, so tags stay unique.
pub proof fn lemma_masked_keeps_tags(a: Record, b: Record, vrs: Seq<Vr>, val: Plain)
    requires
        masked_vrs(a, b, vrs, val),
        a.wf(),
    ensures
        b.wf(),
        forall|t: Tag| #[trigger] has_tag(b.elements@, t) == has_tag(a.elements@, t),
{
    assert forall|i: int| 0 <= i < b.elements@.len() implies #[trigger] b.elements@[i].tag
        == a.elements@[i].tag by {
        let _ = a.elements@[i];
    }
    assert forall|t: Tag| #[trigger] has_tag(b.elements@, t) == has_tag(a.elements@, t) by {
        if has_tag(a.elements@, t) {
            let i = choose|i: int| 0 <= i < a.elements@.len() && #[trigger] a.elements@[i].tag == t;
            assert(b.elements@[i].tag == t);
        }
        if has_tag(b.elements@, t) {
            let i = choose|i: int| 0 <= i < b.elements@.len() && #[trigger] b.elements@[i].tag == t;
            assert(a.elements@[i].tag == t);
        }
    }
}

/// The fields that carry the subject's identity, with their types.
pub open spec fn identity_fields() -> Seq<DictEntry> {
    seq![
        DictEntry { tag: Tag { group: 0x0010, element: 0x0020 }, vr: Vr::LO },
        DictEntry { tag: Tag { group: 0x0010, element: 0x0010 }, vr: Vr::PN },
        DictEntry { tag: Tag { group: 0x0008, element: 0x0080 }, vr: Vr::LO },
        DictEntry { tag: Tag { group: 0x0008, element: 0x0081 }, vr: Vr::ST },
        DictEntry { tag: Tag { group: 0x0008, element: 0x0050 }, vr: Vr::SH },
        DictEntry { tag: Tag { group: 0x0020, element: 0x0010 }, vr: Vr::SH },
        DictEntry { tag: Tag { group: 0x0010, element: 0x4000 }, vr: Vr::LT },
        DictEntry { tag: Tag { group: 0x0012, element: 0x0063 }, vr: Vr::LO },
        DictEntry { tag: Tag { group: 0x0012, element: 0x0062 }, vr: Vr::CS },
    ]
}

fn identity_field_list() -> (r: Vec<DictEntry>)
    ensures
        r@ == identity_fields(),
{
    let r = vec![
        DictEntry { tag: Tag { group: 0x0010, element: 0x0020 }, vr: Vr::LO },
        DictEntry { tag: Tag { group: 0x0010, element: 0x0010 }, vr: Vr::PN },
        DictEntry { tag: Tag { group: 0x0008, element: 0x0080 }, vr: Vr::LO },
        DictEntry { tag: Tag { group: 0x0008, element: 0x0081 }, vr: Vr::ST },
        DictEntry { tag: Tag { group: 0x0008, element: 0x0050 }, vr: Vr::SH },
        DictEntry { tag: Tag { group: 0x0020, element: 0x0010 }, vr: Vr::SH },
        DictEntry { tag: Tag { group: 0x0010, element: 0x4000 }, vr: Vr::LT },
        DictEntry { tag: Tag { group: 0x0012, element: 0x0063 }, vr: Vr::LO },
        DictEntry { tag: Tag { group: 0x0012, element: 0x0062 }, vr: Vr::CS },
    ];
    assert(r@ == identity_fields());
    r
}

/// `new` is `old` with each field of `list[..n]` set (present or not) to `id`
/// typed for the field; other fields as in `old`.
pub open spec fn set_fields(old: Seq<Element>, new: Seq<Element>, list: Seq<DictEntry>, id: Seq<char>, n: int) -> bool {
    &&& tags_unique(new)
    &&& forall|t: Tag| {
        let k = #[trigger] last_entry_for(list, t, n);
        if k >= 0 {
            lookup(new, t) matches Some(y) && y.tag == t && y.vr == list[k].vr && is_typed_value(
                list[k].vr,
                id,
                y.value,
            )
        } else {
            lookup(new, t) == lookup(old, t)
        }
    }
}

/// Replaces every person-name value, at every level, by the substitute
/// identity, then sets the identity-bearing fields and the
/// de-identification markers to it.
pub fn mask_tags_with_id(dcm_obj: Record, patient_deid: &String) -> (r: Record)
    requires
        dcm_obj.wf(),
    ensures
        exists|m: Record|
            masked_vrs(dcm_obj, m, seq![Vr::PN], Plain::Texts(seq![patient_deid@])) && set_fields(
                m.elements@,
                r.elements@,
                identity_fields(),
                patient_deid@,
                9,
            ),
        r.wf(),
{
    let p_value = match dicom_vr_corrected_value(Vr::PN, patient_deid) {
        Ok(v) => v,
        Err(_) => {
            assert(false);
            Value::Str(String::new())
        },
    };
    assert(plain_of(p_value) == Plain::Texts(seq![patient_deid@])) by {
        let l = p_value->Strs_0;
        assert(crate::text::views(l@) =~= seq![patient_deid@]);
    }
    let masked = mask_all_vr(dcm_obj, Vr::PN, &p_value);
    proof {
        lemma_masked_keeps_tags(dcm_obj, masked, seq![Vr::PN], plain_of(p_value));
    }
    let ghost m = masked;
    let list = identity_field_list();
    let mut rec = masked;
    let mut i: usize = 0;
    while i < list.len()
        invariant
            i <= list@.len(),
            list@ == identity_fields(),
            rec.wf(),
            set_fields(m.elements@, rec.elements@, list@, patient_deid@, i as int),
        decreases list@.len() - i,
    {
        let entry = list[i];
        match dicom_vr_corrected_value(entry.vr, patient_deid) {
            Ok(value) => {
                rec.put(Element { tag: entry.tag, vr: entry.vr, value });
                proof {
                    assert forall|t: Tag| true implies {
                        let k = #[trigger] last_entry_for(list@, t, i + 1);
                        if k >= 0 {
                            lookup(rec.elements@, t) matches Some(y) && y.tag == t && y.vr == list@[k].vr
                                && is_typed_value(list@[k].vr, patient_deid@, y.value)
                        } else {
                            lookup(rec.elements@, t) == lookup(m.elements@, t)
                        }
                    } by {
                        let _ = last_entry_for(list@, t, i as int);
                    }
                }
            },
            Err(_) => {
                assert(false);
            },
        }
        i = i + 1;
    }
    rec
}

/// The fixed date written into every date field.
pub open spec fn epoch_date() -> DateParts {
    DateParts { year: 1900, month: 1, day: 1 }
}

/// The fixed time written into every time field.
pub open spec fn epoch_time() -> TimeParts {
    TimeParts { hour: 9, minute: 0, second: 0 }
}

pub open spec fn patient_age_tag() -> Tag {
    Tag { group: 0x0010, element: 0x1010 }
}

pub open spec fn patient_sex_tag() -> Tag {
    Tag { group: 0x0010, element: 0x0040 }
}

/// Overwrites every date, time and date-time value at every level with a
/// fixed epoch, sets the age to `099Y` and the sex to `O` (unknown).
pub fn dicom_anon_date_time(dcm_obj: Record) -> (r: Record)
    requires
        dcm_obj.wf(),
    ensures
        exists|a: Record, b: Record, c: Record|
            {
                &&& masked_vrs(dcm_obj, a, seq![Vr::DA], Plain::Date(epoch_date()))
                &&& masked_vrs(a, b, seq![Vr::TM], Plain::Time(epoch_time()))
                &&& masked_vrs(b, c, seq![Vr::DT], Plain::DateTime(epoch_date(), epoch_time()))
                &&& forall|t: Tag|
                    t != patient_age_tag() && t != patient_sex_tag() ==> #[trigger] lookup(r.elements@, t)
                        == lookup(c.elements@, t)
            },
        r.wf(),
        lookup(r.elements@, patient_age_tag()) matches Some(y) && y.vr == Vr::AS && plain_of(y.value)
            == Plain::Texts(seq!["099Y"@]),
        lookup(r.elements@, patient_sex_tag()) matches Some(y) && y.vr == Vr::CS && plain_of(y.value)
            == Plain::Texts(seq!["O"@]),
{
    let d = DateParts { year: 1900, month: 1, day: 1 };
    let t = TimeParts { hour: 9, minute: 0, second: 0 };
    let a = mask_all_vr(dcm_obj, Vr::DA, &Value::Date(d));
    let ghost ga = a;
    proof {
        lemma_masked_keeps_tags(dcm_obj, a, seq![Vr::DA], Plain::Date(d));
    }
    let b = mask_all_vr(a, Vr::TM, &Value::Time(t));
    proof {
        lemma_masked_keeps_tags(a, b, seq![Vr::TM], Plain::Time(t));
    }
    let ghost gb = b;
    let mut c = mask_all_vr(b, Vr::DT, &Value::DateTime(d, t));
    proof {
        lemma_masked_keeps_tags(gb, c, seq![Vr::DT], Plain::DateTime(d, t));
    }
    let ghost gc = c;
    let age = String::from_str("099Y");
    let ages = vec![age];
    assert(crate::text::views(ages@) =~= seq!["099Y"@]);
    c.put(Element { tag: Tag { group: 0x0010, element: 0x1010 }, vr: Vr::AS, value: Value::Strs(ages) });
    let sex = String::from_str("O");
    let sexes = vec![sex];
    assert(crate::text::views(sexes@) =~= seq!["O"@]);
    c.put(Element { tag: Tag { group: 0x0010, element: 0x0040 }, vr: Vr::CS, value: Value::Strs(sexes) });
    assert(forall|t: Tag|
        t != patient_age_tag() && t != patient_sex_tag() ==> #[trigger] lookup(c.elements@, t) == lookup(
            gc.elements@,
            t,
        ));
    assert(masked_vrs(dcm_obj, ga, seq![Vr::DA], Plain::Date(epoch_date())));
    assert(masked_vrs(ga, gb, seq![Vr::TM], Plain::Time(epoch_time())));
    assert(masked_vrs(gb, gc, seq![Vr::DT], Plain::DateTime(epoch_date(), epoch_time())));
    c
}

/// The dot-separated components of `s` (at least one, possibly empty).
pub open spec fn split_dots(s: Seq<char>) -> Seq<Seq<char>> {
    split_on(s, '.')
}

/// Each component preceded by a dot.
pub open spec fn dotted(parts: Seq<Seq<char>>) -> Seq<char>
    decreases parts.len(),
{
    if parts.len() == 0 {
        Seq::empty()
    } else {
        dotted(parts.drop_last()).push('.') + parts.last()
    }
}

/// The last eight components of `s`.
pub open spec fn last_eight(s: Seq<char>) -> Seq<Seq<char>> {
    let p = split_dots(s);
    p.subrange(p.len() - 8, p.len() as int)
}

/// The non-identifying root that replaces the leading components.
pub open spec fn uid_root() -> Seq<char> {
    "1.2.999.999999.9999.9.9.9.9999"@
}

/// `s` with all but its last eight components replaced by the fixed root.
pub open spec fn remapped_uid(s: Seq<char>) -> Seq<char> {
    uid_root() + dotted(last_eight(s))
}

/// The remapped identifier for `s`, if it has at least eight components.
pub fn remap_uid(s: &Vec<char>) -> (r: Option<Vec<char>>)
    ensures
        r is Some <==> split_dots(s@).len() >= 8,
        r matches Some(t) ==> t@ == remapped_uid(s@),
{
    let parts = split_chars(s, '.');
    let n = parts.len();
    if n < 8 {
        return None;
    }
    let ghost tail = split_dots(s@).subrange(n - 8, n as int);
    let mut out: Vec<char> = Vec::new();
    push_str(&mut out, "1.2.999.999999.9999.9.9.9.9999");
    let mut k: usize = n - 8;
    while k < n
        invariant
            n == parts@.len(),
            n == split_dots(s@).len(),
            n >= 8,
            n - 8 <= k <= n,
            tail == split_dots(s@).subrange(n - 8, n as int),
            forall|j: int| 0 <= j < parts@.len() ==> #[trigger] parts@[j]@ == split_dots(s@)[j],
            out@ == uid_root() + dotted(tail.subrange(0, k - (n - 8))),
        decreases n - k,
    {
        let ghost pre = tail.subrange(0, k - (n - 8));
        let ghost next = tail.subrange(0, k + 1 - (n - 8));
        assert(next.drop_last() == pre);
        assert(next.last() == parts@[k as int]@);
        out.push('.');
        push_chars(&mut out, &parts[k]);
        assert(out@ == uid_root() + dotted(next));
        k = k + 1;
    }
    assert(tail.subrange(0, 8) == tail);
    Some(out)
}

/// The unique-identifier fields that are remapped.
pub open spec fn uid_tags() -> Seq<Tag> {
    seq![
        Tag { group: 0x0008, element: 0x0018 },
        Tag { group: 0x0020, element: 0x000D },
        Tag { group: 0x0020, element: 0x000E },
        Tag { group: 0x0020, element: 0x0052 },
    ]
}

/// The field `t` is present, holds text, and has at least eight components.
pub open spec fn uid_remappable(old: Seq<Element>, t: Tag) -> bool {
    match lookup(old, t) {
        Some(e) => match value_text(e.value) {
            Some(s) => split_dots(s).len() >= 8,
            None => false,
        },
        None => false,
    }
}

/// The field `t` of `new` holds the remapped identifier of the field `t` of `old`.
pub open spec fn uid_remapped(old: Seq<Element>, new: Seq<Element>, t: Tag) -> bool {
    match (lookup(new, t), lookup(old, t)) {
        (Some(y), Some(e)) => match value_text(e.value) {
            Some(s) => y.vr == Vr::UI && plain_of(y.value) == Plain::Texts(seq![remapped_uid(s)]),
            None => false,
        },
        _ => false,
    }
}

/// Each identifier field is present, holds text, and has at least eight components.
pub open spec fn uids_remappable(old: Seq<Element>) -> bool {
    forall|k: int| 0 <= k < 4 ==> uid_remappable(old, #[trigger] uid_tags()[k])
}

/// `new` is `old` with the first `n` identifier fields remapped.
pub open spec fn uids_remapped(old: Seq<Element>, new: Seq<Element>, n: int) -> bool {
    &&& tags_unique(new)
    &&& forall|k: int| 0 <= k < n ==> uid_remapped(old, new, #[trigger] uid_tags()[k])
    &&& forall|t: Tag|
        (forall|k: int| 0 <= k < n ==> uid_tags()[k] != t) ==> #[trigger] lookup(new, t) == lookup(old, t)
}

/// Replaces all but the last eight components of the instance, study, series
/// and frame-of-reference identifiers with a fixed root.
pub fn anon_dicom_uids(dcm_obj: Record) -> (r: Result<Record, TransformError>)
    requires
        dcm_obj.wf(),
    ensures
        r is Ok <==> uids_remappable(dcm_obj.elements@),
        r matches Ok(new) ==> uids_remapped(dcm_obj.elements@, new.elements@, 4),
        r matches Err(e) ==> e is MissingField || e is NotText || e is ShortUid,
{
    let ghost orig = dcm_obj.elements@;
    let tags = vec![
        Tag { group: 0x0008, element: 0x0018 },
        Tag { group: 0x0020, element: 0x000D },
        Tag { group: 0x0020, element: 0x000E },
        Tag { group: 0x0020, element: 0x0052 },
    ];
    assert(tags@ == uid_tags());
    let mut rec = dcm_obj;
    let mut i: usize = 0;
    while i < 4
        invariant
            i <= 4,
            tags@ == uid_tags(),
            orig == dcm_obj.elements@,
            rec.wf(),
            uids_remapped(orig, rec.elements@, i as int),
            forall|k: int| 0 <= k < i ==> uid_remappable(orig, #[trigger] uid_tags()[k]),
        decreases 4 - i,
    {
        let tag = tags[i];
        assert(lookup(rec.elements@, tag) == lookup(orig, tag));
        let text = match rec.get(tag) {
            Some(e) => match crate::value::element_text(e) {
                Some(t) => t,
                None => return Err(TransformError::NotText),
            },
            None => return Err(TransformError::MissingField),
        };
        let new_text = match remap_uid(&text) {
            Some(t) => t,
            None => return Err(TransformError::ShortUid),
        };
        let uid = string_of(&new_text);
        let ghost before = rec.elements@;
        let texts = vec![uid];
        assert(crate::text::views(texts@) =~= seq![new_text@]);
        rec.put(Element { tag, vr: Vr::UI, value: Value::Strs(texts) });
        proof {
            assert forall|k: int| 0 <= k < i implies uid_tags()[k] != tag by {}
        }
        i = i + 1;
    }
    Ok(rec)
}

/// No component of `s` holds a dot.
pub proof fn lemma_split_parts_dotless(s: Seq<char>)
    ensures
        forall|k: int, j: int|
            0 <= k < split_dots(s).len() && 0 <= j < split_dots(s)[k].len() ==> #[trigger] split_dots(s)[k][j] != '.',
    decreases s.len(),
{
    crate::text::lemma_split_nonempty(s, '.');
    if s.len() > 0 {
        lemma_split_parts_dotless(s.drop_last());
        crate::text::lemma_split_nonempty(s.drop_last(), '.');
        let p = split_dots(s.drop_last());
        if s.last() != '.' {
            assert forall|k: int, j: int|
                0 <= k < split_dots(s).len() && 0 <= j < split_dots(s)[k].len() implies #[trigger] split_dots(s)[k][j]
                != '.' by {
                if k == p.len() - 1 {
                    if j < p.last().len() {
                        assert(split_dots(s)[k][j] == p[k][j]);
                    }
                } else {
                    assert(split_dots(s)[k] == p[k]);
                }
            }
        } else {
            assert forall|k: int, j: int|
                0 <= k < split_dots(s).len() && 0 <= j < split_dots(s)[k].len() implies #[trigger] split_dots(s)[k][j]
                != '.' by {
                if k < p.len() {
                    assert(split_dots(s)[k] == p[k]);
                }
            }
        }
    }
}

proof fn lemma_split_append_part(s: Seq<char>, w: Seq<char>)
    requires
        forall|j: int| 0 <= j < w.len() ==> #[trigger] w[j] != '.',
    ensures
        split_dots(s.push('.') + w) == split_dots(s).push(w),
    decreases w.len(),
{
    if w.len() == 0 {
        assert(s.push('.') + w =~= s.push('.'));
        assert((s.push('.')).drop_last() =~= s);
        assert(w =~= Seq::<char>::empty());
        assert(split_on(s.push('.'), '.') == split_on(s, '.').push(Seq::empty()));
    } else {
        let w0 = w.drop_last();
        assert forall|j: int| 0 <= j < w0.len() implies #[trigger] w0[j] != '.' by {
            assert(w0[j] == w[j]);
        }
        lemma_split_append_part(s, w0);
        let x = s.push('.') + w;
        assert(x.drop_last() =~= s.push('.') + w0);
        assert(x.last() == w.last());
        assert(w.last() != '.');
        crate::text::lemma_split_nonempty(s.push('.') + w0, '.');
        assert(w0.push(w.last()) =~= w);
        assert(split_on(s, '.').push(w0).update(split_on(s, '.').len() as int, w0.push(w.last())) =~= split_on(
            s,
            '.',
        ).push(w));
        assert(split_on(x, '.') == split_on(x.drop_last(), '.').update(
            split_on(x.drop_last(), '.').len() - 1,
            split_on(x.drop_last(), '.').last().push(x.last()),
        ));
    }
}

proof fn lemma_split_dotted(x: Seq<char>, parts: Seq<Seq<char>>)
    requires
        forall|k: int, j: int| 0 <= k < parts.len() && 0 <= j < parts[k].len() ==> #[trigger] parts[k][j] != '.',
    ensures
        split_dots(x + dotted(parts)) == split_dots(x) + parts,
    decreases parts.len(),
{
    if parts.len() == 0 {
        assert(x + dotted(parts) == x);
        assert(split_dots(x) + parts == split_dots(x));
    } else {
        let init = parts.drop_last();
        lemma_split_dotted(x, init);
        let last = parts.last();
        assert forall|j: int| 0 <= j < last.len() implies #[trigger] last[j] != '.' by {
            assert(last[j] == parts[parts.len() - 1][j]);
        }
        lemma_split_append_part(x + dotted(init), last);
        assert(x + dotted(parts) == (x + dotted(init)).push('.') + last);
        assert(split_dots(x) + parts == (split_dots(x) + init).push(last));
    }
}

/// Two identifiers that share their last eight components are remapped to
/// identifiers that share them too, as their own last eight components,
/// behind the fixed root in place of their own leading components.
pub proof fn law_uid_remap_stability(a: Seq<char>, b: Seq<char>)
    requires
        split_dots(a).len() >= 8,
        split_dots(b).len() >= 8,
        last_eight(a) == last_eight(b),
    ensures
        remapped_uid(a) == remapped_uid(b),
        last_eight(remapped_uid(a)) == last_eight(a),
        last_eight(remapped_uid(b)) == last_eight(b),
        split_dots(remapped_uid(a)) == split_dots(uid_root()) + last_eight(a),
        split_dots(a).subrange(0, split_dots(a).len() - 8) != split_dots(uid_root()) ==> remapped_uid(a) != a,
{
    lemma_remap_split(a);
    lemma_remap_split(b);
    let p = split_dots(a);
    if remapped_uid(a) == a {
        assert(p.subrange(0, p.len() - 8) =~= split_dots(uid_root()));
    }
}

/// The components of a remapped identifier: those of the root, then the
/// last eight of the input identifier.
pub proof fn lemma_remap_split(a: Seq<char>)
    requires
        split_dots(a).len() >= 8,
    ensures
        split_dots(remapped_uid(a)) == split_dots(uid_root()) + last_eight(a),
        last_eight(remapped_uid(a)) == last_eight(a),
{
    let p = split_dots(a);
    let t = last_eight(a);
    lemma_split_parts_dotless(a);
    assert forall|k: int, j: int| 0 <= k < t.len() && 0 <= j < t[k].len() implies #[trigger] t[k][j] != '.' by {
        assert(t[k] == p[p.len() - 8 + k]);
    }
    lemma_split_dotted(uid_root(), t);
    let q = split_dots(remapped_uid(a));
    assert(q.subrange(q.len() - 8, q.len() as int) =~= t);
}

/// `b` is `a` after identity masking with `id`.
pub open spec fn identity_masked(a: Record, b: Record, id: Seq<char>) -> bool {
    exists|m: Record|
        masked_vrs(a, m, seq![Vr::PN], Plain::Texts(seq![id])) && set_fields(
            m.elements@,
            b.elements@,
            identity_fields(),
            id,
            9,
        )
}

/// `r` is `a` after the date, time, age and sex scrub.
pub open spec fn scrubbed(dcm_obj: Record, r: Record) -> bool {
    &&& r.wf()
    &&& exists|a: Record, b: Record, c: Record|
        {
            &&& masked_vrs(dcm_obj, a, seq![Vr::DA], Plain::Date(epoch_date()))
            &&& masked_vrs(a, b, seq![Vr::TM], Plain::Time(epoch_time()))
            &&& masked_vrs(b, c, seq![Vr::DT], Plain::DateTime(epoch_date(), epoch_time()))
            &&& forall|t: Tag|
                t != patient_age_tag() && t != patient_sex_tag() ==> #[trigger] lookup(r.elements@, t)
                    == lookup(c.elements@, t)
        }
    &&& lookup(r.elements@, patient_age_tag()) matches Some(y) && y.vr == Vr::AS && plain_of(y.value)
        == Plain::Texts(seq!["099Y"@])
    &&& lookup(r.elements@, patient_sex_tag()) matches Some(y) && y.vr == Vr::CS && plain_of(y.value)
        == Plain::Texts(seq!["O"@])
}

/// `b` is `a` with private fields and the prior-operations field removed.
pub open spec fn private_deleted(a: Record, b: Record) -> bool {
    &&& exists|p: Record|
        crate::transform::purged(a, p) && b.elements@ == crate::record::remove_spec(
            p.elements@,
            crate::fields::spec_original_attributes_sequence(),
        )
    &&& crate::record::no_private(b)
}

/// `r3` is `a` after the steps that precede the identifier remap: identity
/// masking with `id`, date and time scrub, private purge.
pub open spec fn anon_prefix_steps(a: Record, r1: Record, r2: Record, r3: Record, id: Seq<char>) -> bool {
    &&& identity_masked(a, r1, id)
    &&& scrubbed(r1, r2)
    &&& private_deleted(r2, r3)
}

/// `out` is `a` anonymized with the substitute identity `id`: identity
/// masking, date and time scrub, private purge, identifier remap.
pub open spec fn anonymized(a: Record, out: Record, id: Seq<char>) -> bool {
    exists|r1: Record, r2: Record, r3: Record|
        #[trigger] anon_prefix_steps(a, r1, r2, r3, id) && uids_remapped(r3.elements@, out.elements@, 4)
}

} // verus!
