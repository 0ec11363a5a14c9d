use crate::fields::TransformError;
use crate::naming::{sanitized_chars, replace_non_alphanumeric, zero_pad, TagValues};
use crate::record::{has_tag, Record, Tag};
use crate::text::{
    chars_of, push_chars, push_str, split_chars, split_on, string_of, text_eq, trim_white,
    trimmed, views,
};
use vstd::prelude::*;
use vstd::string::StringExecFns;

verus! {

/// What `str::to_uppercase` makes of `s`.
pub uninterp spec fn upper_of(s: Seq<char>) -> Seq<char>;

/// Relies on `str::to_uppercase`: the upper-case mapping of Unicode, which
/// depends on the characters alone.
#[verifier::external_body]
fn to_upper(s: &str) -> (r: String)
    ensures
        r@ == upper_of(s@),
{
    s.to_uppercase()
}

/// The naming field chosen by an upper-case sort-order letter:
/// `I` patient identifier, `N` patient name, `M` modality.
pub open spec fn sort_key_of(c: char) -> Option<Seq<char>> {
    if c == 'I' {
        Some("PatientID"@)
    } else if c == 'N' {
        Some("PatientName"@)
    } else if c == 'M' {
        Some("Modality"@)
    } else {
        None
    }
}

/// The fields named by the letters of `s`, in order; other letters ignored.
pub open spec fn sort_keys(s: Seq<char>) -> Seq<Seq<char>>
    decreases s.len(),
{
    if s.len() == 0 {
        Seq::empty()
    } else {
        match sort_key_of(s.last()) {
            Some(k) => sort_keys(s.drop_last()).push(k),
            None => sort_keys(s.drop_last()),
        }
    }
}

/// The directory levels of the sort mode: the fields named by the letters of
/// `ord_input` once upper-cased, or the patient identifier alone when it
/// names none.
pub fn generate_sort_order(ord_input: String) -> (r: Vec<String>)
    ensures
        sort_keys(upper_of(ord_input@)).len() > 0 ==> views(r@) == sort_keys(upper_of(ord_input@)),
        sort_keys(upper_of(ord_input@)).len() == 0 ==> views(r@) == seq!["PatientID"@],
{
    let upper = to_upper(ord_input.as_str());
    let s = chars_of(upper.as_str());
    let mut out: Vec<String> = Vec::new();
    let mut i: usize = 0;
    while i < s.len()
        invariant
            s@ == upper_of(ord_input@),
            i <= s@.len(),
            views(out@) == sort_keys(s@.subrange(0, i as int)),
        decreases s@.len() - i,
    {
        assert(s@.subrange(0, i + 1).drop_last() == s@.subrange(0, i as int));
        let c = s[i];
        let ghost before = out@;
        if c == 'I' {
            out.push(String::from_str("PatientID"));
        } else if c == 'N' {
            out.push(String::from_str("PatientName"));
        } else if c == 'M' {
            out.push(String::from_str("Modality"));
        }
        assert(views(out@) == sort_keys(s@.subrange(0, i + 1))) by {
            if sort_key_of(c) is Some {
                assert(views(out@) == views(before).push(out@.last()@));
            }
        }
        i = i + 1;
    }
    assert(s@.subrange(0, s@.len() as int) == s@);
    if out.len() == 0 {
        out.push(String::from_str("PatientID"));
        assert(views(out@) =~= seq!["PatientID"@]);
    }
    out
}

/// The tag and sanitized value of a sort field.
pub open spec fn sort_field(name: Seq<char>, v: TagValues) -> Option<(Tag, Seq<char>)> {
    if name == "PatientID"@ {
        Some((Tag { group: 0x0010, element: 0x0020 }, v.patient_id@))
    } else if name == "PatientName"@ {
        Some((Tag { group: 0x0010, element: 0x0010 }, v.patient_name@))
    } else if name == "Modality"@ {
        Some((Tag { group: 0x0008, element: 0x0060 }, v.modality@))
    } else {
        None
    }
}

/// The directory levels for `names`: each field's value, trimmed and
/// sanitized, followed by `/`.
pub open spec fn order_level_of(names: Seq<Seq<char>>, v: TagValues) -> Seq<char>
    decreases names.len(),
{
    if names.len() == 0 {
        Seq::empty()
    } else {
        match sort_field(names.last(), v) {
            Some(f) => order_level_of(names.drop_last(), v) + sanitized_chars(trim_white(f.1)) + "/"@,
            None => order_level_of(names.drop_last(), v),
        }
    }
}

/// Every sort field is known and present in the record.
pub open spec fn sort_fields_present(names: Seq<Seq<char>>, v: TagValues, rec: Seq<crate::record::Element>) -> bool {
    forall|k: int|
        0 <= k < names.len() ==> (sort_field(#[trigger] names[k], v) matches Some(f) && has_tag(rec, f.0))
}

/// The directory levels of a record for the sort order `order_level_vec`;
/// fails when a named field is unknown or absent from the record.
pub fn generate_order_level(order_level_vec: &Vec<String>, dicom_tags_values: &TagValues, dcm_obj: &Record) -> (r:
    Result<String, TransformError>)
    ensures
        r is Ok <==> sort_fields_present(views(order_level_vec@), *dicom_tags_values, dcm_obj.elements@),
        r matches Ok(s) ==> s@ == order_level_of(views(order_level_vec@), *dicom_tags_values),
{
    let v = dicom_tags_values;
    let ghost names = views(order_level_vec@);
    let mut out: Vec<char> = Vec::new();
    let mut i: usize = 0;
    while i < order_level_vec.len()
        invariant
            i <= order_level_vec@.len(),
            names == views(order_level_vec@),
            out@ == order_level_of(names.subrange(0, i as int), *v),
            forall|k: int|
                0 <= k < i ==> (sort_field(#[trigger] names[k], *v) matches Some(f) && has_tag(dcm_obj.elements@, f.0)),
        decreases order_level_vec@.len() - i,
    {
        assert(names.subrange(0, i + 1).drop_last() == names.subrange(0, i as int));
        assert(names[i as int] == order_level_vec@[i as int]@);
        let name = order_level_vec[i].as_str();
        let (tag, value) = if text_eq(name, "PatientID") {
            (Tag { group: 0x0010, element: 0x0020 }, v.patient_id.as_str())
        } else if text_eq(name, "PatientName") {
            (Tag { group: 0x0010, element: 0x0010 }, v.patient_name.as_str())
        } else if text_eq(name, "Modality") {
            (Tag { group: 0x0008, element: 0x0060 }, v.modality.as_str())
        } else {
            return Err(TransformError::UnknownField);
        };
        if !dcm_obj.contains(tag) {
            return Err(TransformError::MissingField);
        }
        let t = trimmed(&chars_of(value));
        let clean = replace_non_alphanumeric(string_of(&t).as_str());
        push_str(&mut out, clean.as_str());
        push_str(&mut out, "/");
        i = i + 1;
    }
    assert(names.subrange(0, order_level_vec@.len() as int) == names);
    Ok(string_of(&out))
}

/// The directory of a sorted record:
/// `<dest>/<levels><date>T<time>_<study uid last component>/<series>_<description>`.
pub open spec fn sort_dir_path_of(v: TagValues, order_level: Seq<char>, dest: Seq<char>) -> Seq<char> {
    dest + "/"@ + order_level + trim_white(v.study_date@) + "T"@ + split_on(v.study_time@, '.')[0] + "_"@
        + split_on(v.study_instance_uid@, '.').last() + "/"@ + zero_pad(v.series_number@, 4) + "_"@
        + sanitized_chars(trim_white(v.series_description@))
}

/// Derives the directory of a sorted record.
pub fn sort_dir_path(dicom_tags_values: &TagValues, order_level: &str, destination_path: &str) -> (r: String)
    ensures
        r@ == sort_dir_path_of(*dicom_tags_values, order_level@, destination_path@),
{
    let v = dicom_tags_values;
    let mut out: Vec<char> = Vec::new();
    push_str(&mut out, destination_path);
    push_str(&mut out, "/");
    push_str(&mut out, order_level);
    push_chars(&mut out, &trimmed(&chars_of(v.study_date.as_str())));
    push_str(&mut out, "T");
    let time_parts = split_chars(&chars_of(v.study_time.as_str()), '.');
    let uid_parts = split_chars(&chars_of(v.study_instance_uid.as_str()), '.');
    proof {
        crate::text::lemma_split_nonempty(v.study_time@, '.');
        crate::text::lemma_split_nonempty(v.study_instance_uid@, '.');
    }
    push_chars(&mut out, &time_parts[0]);
    push_str(&mut out, "_");
    push_chars(&mut out, &uid_parts[uid_parts.len() - 1]);
    push_str(&mut out, "/");
    crate::naming::push_zero_padded(&mut out, &chars_of(v.series_number.as_str()), 4);
    push_str(&mut out, "_");
    let desc = trimmed(&chars_of(v.series_description.as_str()));
    let clean = replace_non_alphanumeric(string_of(&desc).as_str());
    push_str(&mut out, clean.as_str());
    string_of(&out)
}

} // verus!
