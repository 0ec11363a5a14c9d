use crate::fields::TransformError;
use crate::record::{lookup, Record, Tag};
use crate::text::{
    chars_of, is_alnum, push_chars, push_str, split_chars, split_on, string_of, trim_white, trimmed,
};
use crate::value::{element_text, value_text};
use vstd::prelude::*;

verus! {

/// `s` with every character outside `[A-Za-z0-9]` replaced by `_`.
pub open spec fn sanitized_chars(s: Seq<char>) -> Seq<char> {
    s.map_values(|c: char| if is_alnum(c) { c } else { '_' })
}

/// Relies on regex's `Regex::replace_all` with the pattern `[^a-zA-Z0-9]`
/// and replacement `_`: each character outside the class is one match.
#[verifier::external_body]
fn regex_sanitize(s: &str) -> (r: String)
    ensures
        r@ == sanitized_chars(s@),
{
    match regex::Regex::new("[^a-zA-Z0-9]") {
        Ok(re) => re.replace_all(s, "_").into_owned(),
        Err(_) => String::from(s),
    }
}

/// Replaces every character outside `[A-Za-z0-9]` by `_`.
pub fn replace_non_alphanumeric(input: &str) -> (r: String)
    ensures
        r@ == sanitized_chars(input@),
{
    regex_sanitize(input)
}

/// The field values that name an output file, sanitized.
#[derive(Debug)]
pub struct TagValues {
    pub patient_id: String,
    pub patient_name: String,
    pub modality: String,
    pub study_date: String,
    pub study_time: String,
    pub series_number: String,
    pub series_instance_uid: String,
    pub study_instance_uid: String,
    pub instance_number: String,
    pub series_description: String,
    pub image_plane: String,
}

/// `s` without `-` and `:`.
pub open spec fn strip_separators(s: Seq<char>) -> Seq<char>
    decreases s.len(),
{
    if s.len() == 0 {
        Seq::empty()
    } else if s.last() == '-' || s.last() == ':' {
        strip_separators(s.drop_last())
    } else {
        strip_separators(s.drop_last()).push(s.last())
    }
}

/// The sanitized value of the field `t` called `name`: its text without `-`
/// and `:`, or `NoValue_<name>` when absent; `None` when it holds no text.
pub open spec fn sanitized_field(rec: Seq<crate::record::Element>, t: Tag, name: Seq<char>) -> Option<Seq<char>> {
    match lookup(rec, t) {
        Some(e) => match value_text(e.value) {
            Some(s) => Some(strip_separators(s)),
            None => None,
        },
        None => Some("NoValue_"@ + name),
    }
}

fn sanitize_field(rec: &Record, t: Tag, name: &str) -> (r: Result<String, TransformError>)
    requires
        rec.wf(),
    ensures
        r is Ok <==> sanitized_field(rec.elements@, t, name@) is Some,
        r matches Ok(s) ==> sanitized_field(rec.elements@, t, name@) == Some(s@),
        r matches Err(e) ==> e is NotText,
{
    match rec.get(t) {
        Some(e) => match element_text(e) {
            Some(text) => {
                let mut out: Vec<char> = Vec::new();
                let mut i: usize = 0;
                while i < text.len()
                    invariant
                        i <= text@.len(),
                        out@ == strip_separators(text@.subrange(0, i as int)),
                    decreases text@.len() - i,
                {
                    assert(text@.subrange(0, i + 1).drop_last() == text@.subrange(0, i as int));
                    if text[i] != '-' && text[i] != ':' {
                        out.push(text[i]);
                    }
                    i = i + 1;
                }
                assert(text@.subrange(0, text@.len() as int) == text@);
                Ok(string_of(&out))
            },
            None => Err(TransformError::NotText),
        },
        None => {
            let mut out: Vec<char> = Vec::new();
            push_str(&mut out, "NoValue_");
            push_str(&mut out, name);
            Ok(string_of(&out))
        },
    }
}

/// The field `t` is present but holds no text.
pub open spec fn lacks_text(rec: Seq<crate::record::Element>, t: Tag) -> bool {
    lookup(rec, t) matches Some(e) && value_text(e.value) is None
}

/// The tags of the naming fields.
pub open spec fn naming_tag(k: int) -> Tag {
    if k == 0 {
        Tag { group: 0x0010, element: 0x0020 }
    } else if k == 1 {
        Tag { group: 0x0010, element: 0x0010 }
    } else if k == 2 {
        Tag { group: 0x0008, element: 0x0060 }
    } else if k == 3 {
        Tag { group: 0x0008, element: 0x0020 }
    } else if k == 4 {
        Tag { group: 0x0008, element: 0x0030 }
    } else if k == 5 {
        Tag { group: 0x0020, element: 0x0011 }
    } else if k == 6 {
        Tag { group: 0x0020, element: 0x000E }
    } else if k == 7 {
        Tag { group: 0x0020, element: 0x000D }
    } else if k == 8 {
        Tag { group: 0x0020, element: 0x0013 }
    } else {
        Tag { group: 0x0008, element: 0x103E }
    }
}

/// The sanitized values of the naming fields of `rec`, with the image plane
/// `image_plane` (derived by the caller from the image orientation).
pub open spec fn sanitized_values(rec: Seq<crate::record::Element>, v: TagValues, image_plane: Seq<char>) -> bool {
    &&& sanitized_field(rec, naming_tag(0), "PatientID"@) == Some(v.patient_id@)
    &&& sanitized_field(rec, naming_tag(1), "PatientName"@) == Some(v.patient_name@)
    &&& sanitized_field(rec, naming_tag(2), "Modality"@) == Some(v.modality@)
    &&& sanitized_field(rec, naming_tag(3), "StudyDate"@) == Some(v.study_date@)
    &&& sanitized_field(rec, naming_tag(4), "StudyTime"@) == Some(v.study_time@)
    &&& sanitized_field(rec, naming_tag(5), "SeriesNumber"@) == Some(v.series_number@)
    &&& sanitized_field(rec, naming_tag(6), "SeriesInstanceUID"@) == Some(v.series_instance_uid@)
    &&& sanitized_field(rec, naming_tag(7), "StudyInstanceUID"@) == Some(v.study_instance_uid@)
    &&& sanitized_field(rec, naming_tag(8), "InstanceNumber"@) == Some(v.instance_number@)
    &&& sanitized_field(rec, naming_tag(9), "SeriesDescription"@) == Some(v.series_description@)
    &&& v.image_plane@ == image_plane
}

/// Reads the naming fields: absent ones become `NoValue_<name>`; fails when
/// one of them holds no text.
pub fn get_sanitized_tag_values(dcm_obj: &Record, image_plane: String) -> (r: Result<TagValues, TransformError>)
    requires
        dcm_obj.wf(),
    ensures
        r matches Ok(v) ==> sanitized_values(dcm_obj.elements@, v, image_plane@),
        r is Err <==> exists|k: int| 0 <= k < 10 && lacks_text(dcm_obj.elements@, #[trigger] naming_tag(k)),
        r matches Err(e) ==> e is NotText,
{
    let patient_id = match sanitize_field(dcm_obj, Tag { group: 0x0010, element: 0x0020 }, "PatientID") {
        Ok(s) => s,
        Err(e) => {
            assert(lacks_text(dcm_obj.elements@, naming_tag(0)));
            return Err(e);
        },
    };
    let patient_name = match sanitize_field(dcm_obj, Tag { group: 0x0010, element: 0x0010 }, "PatientName") {
        Ok(s) => s,
        Err(e) => {
            assert(lacks_text(dcm_obj.elements@, naming_tag(1)));
            return Err(e);
        },
    };
    let modality = match sanitize_field(dcm_obj, Tag { group: 0x0008, element: 0x0060 }, "Modality") {
        Ok(s) => s,
        Err(e) => {
            assert(lacks_text(dcm_obj.elements@, naming_tag(2)));
            return Err(e);
        },
    };
    let study_date = match sanitize_field(dcm_obj, Tag { group: 0x0008, element: 0x0020 }, "StudyDate") {
        Ok(s) => s,
        Err(e) => {
            assert(lacks_text(dcm_obj.elements@, naming_tag(3)));
            return Err(e);
        },
    };
    let study_time = match sanitize_field(dcm_obj, Tag { group: 0x0008, element: 0x0030 }, "StudyTime") {
        Ok(s) => s,
        Err(e) => {
            assert(lacks_text(dcm_obj.elements@, naming_tag(4)));
            return Err(e);
        },
    };
    let series_number = match sanitize_field(dcm_obj, Tag { group: 0x0020, element: 0x0011 }, "SeriesNumber") {
        Ok(s) => s,
        Err(e) => {
            assert(lacks_text(dcm_obj.elements@, naming_tag(5)));
            return Err(e);
        },
    };
    let series_instance_uid = match sanitize_field(
        dcm_obj,
        Tag { group: 0x0020, element: 0x000E },
        "SeriesInstanceUID",
    ) {
        Ok(s) => s,
        Err(e) => {
            assert(lacks_text(dcm_obj.elements@, naming_tag(6)));
            return Err(e);
        },
    };
    let study_instance_uid = match sanitize_field(
        dcm_obj,
        Tag { group: 0x0020, element: 0x000D },
        "StudyInstanceUID",
    ) {
        Ok(s) => s,
        Err(e) => {
            assert(lacks_text(dcm_obj.elements@, naming_tag(7)));
            return Err(e);
        },
    };
    let instance_number = match sanitize_field(dcm_obj, Tag { group: 0x0020, element: 0x0013 }, "InstanceNumber") {
        Ok(s) => s,
        Err(e) => {
            assert(lacks_text(dcm_obj.elements@, naming_tag(8)));
            return Err(e);
        },
    };
    let series_description = match sanitize_field(
        dcm_obj,
        Tag { group: 0x0008, element: 0x103E },
        "SeriesDescription",
    ) {
        Ok(s) => s,
        Err(e) => {
            assert(lacks_text(dcm_obj.elements@, naming_tag(9)));
            return Err(e);
        },
    };
    Ok(TagValues {
        patient_id,
        patient_name,
        modality,
        study_date,
        study_time,
        series_number,
        series_instance_uid,
        study_instance_uid,
        instance_number,
        series_description,
        image_plane,
    })
}

/// `s` padded on the left with `0` to at least `w` characters.
pub open spec fn zero_pad(s: Seq<char>, w: nat) -> Seq<char> {
    if s.len() >= w {
        s
    } else {
        Seq::new((w - s.len()) as nat, |i: int| '0') + s
    }
}

pub(crate) fn push_zero_padded(out: &mut Vec<char>, s: &Vec<char>, w: usize)
    ensures
        final(out)@ == old(out)@ + zero_pad(s@, w as nat),
{
    let ghost start = out@;
    if s.len() < w {
        let fill = w - s.len();
        let mut k: usize = 0;
        while k < fill
            invariant
                k <= fill,
                out@ == start + Seq::new(k as nat, |i: int| '0'),
            decreases fill - k,
        {
            out.push('0');
            k = k + 1;
            assert(out@ == start + Seq::new(k as nat, |i: int| '0'));
        }
    }
    push_chars(out, s);
    assert(out@ == start + zero_pad(s@, w as nat));
}

/// `s` with spaces and carets turned into underscores.
pub open spec fn underscored(s: Seq<char>) -> Seq<char> {
    s.map_values(|c: char| if c == ' ' || c == '^' { '_' } else { c })
}

/// `s` with ASCII lower-case letters made upper-case.
pub open spec fn ascii_upper(s: Seq<char>) -> Seq<char> {
    s.map_values(|c: char| if 'a' <= c && c <= 'z' { ((c as u8) - 32) as char } else { c })
}

fn push_mapped(out: &mut Vec<char>, s: &Vec<char>, upper: bool)
    ensures
        upper ==> final(out)@ == old(out)@ + ascii_upper(s@),
        !upper ==> final(out)@ == old(out)@ + underscored(s@),
{
    let ghost start = out@;
    let mut i: usize = 0;
    while i < s.len()
        invariant
            i <= s@.len(),
            upper ==> out@ == start + ascii_upper(s@.subrange(0, i as int)),
            !upper ==> out@ == start + underscored(s@.subrange(0, i as int)),
        decreases s@.len() - i,
    {
        let c = s[i];
        let d = if upper {
            if 'a' <= c && c <= 'z' {
                ((c as u8) - 32) as char
            } else {
                c
            }
        } else {
            if c == ' ' || c == '^' {
                '_'
            } else {
                c
            }
        };
        out.push(d);
        assert(ascii_upper(s@.subrange(0, i + 1)) == ascii_upper(s@.subrange(0, i as int)).push(
            if 'a' <= c && c <= 'z' { ((c as u8) - 32) as char } else { c },
        ));
        assert(underscored(s@.subrange(0, i + 1)) == underscored(s@.subrange(0, i as int)).push(
            if c == ' ' || c == '^' { '_' } else { c },
        ));
        i = i + 1;
    }
    assert(s@.subrange(0, s@.len() as int) == s@);
}

/// The text before the first `.` of `s`.
pub open spec fn before_dot(s: Seq<char>) -> Seq<char> {
    split_on(s, '.')[0]
}

/// The file name of a transformed record:
/// `<prefix>_<id>_<modality>_<date>T<time>_<series>_<series uid>_<instance>.dcm`.
pub open spec fn file_name_of(v: TagValues, prefix: Seq<char>) -> Seq<char> {
    prefix + "_"@ + trim_white(v.patient_id@) + "_"@ + v.modality@ + "_"@ + v.study_date@ + "T"@ + before_dot(
        v.study_time@,
    ) + "_"@ + v.series_number@ + "_"@ + v.series_instance_uid@ + "_"@ + zero_pad(v.instance_number@, 5)
        + ".dcm"@
}

/// Derives the file name of a record from its sanitized naming values.
pub fn generate_dicom_file_name(dicom_tags_values: &TagValues, prefix: String) -> (r: String)
    ensures
        r@ == file_name_of(*dicom_tags_values, prefix@),
{
    let v = dicom_tags_values;
    let mut out: Vec<char> = Vec::new();
    push_str(&mut out, prefix.as_str());
    push_str(&mut out, "_");
    let pid = trimmed(&chars_of(v.patient_id.as_str()));
    push_chars(&mut out, &pid);
    push_str(&mut out, "_");
    push_str(&mut out, v.modality.as_str());
    push_str(&mut out, "_");
    push_str(&mut out, v.study_date.as_str());
    push_str(&mut out, "T");
    let time_parts = split_chars(&chars_of(v.study_time.as_str()), '.');
    proof {
        crate::text::lemma_split_nonempty(v.study_time@, '.');
    }
    push_chars(&mut out, &time_parts[0]);
    push_str(&mut out, "_");
    push_str(&mut out, v.series_number.as_str());
    push_str(&mut out, "_");
    push_str(&mut out, v.series_instance_uid.as_str());
    push_str(&mut out, "_");
    push_zero_padded(&mut out, &chars_of(v.instance_number.as_str()), 5);
    push_str(&mut out, ".dcm");
    string_of(&out)
}

/// The last five characters of the last component of a study identifier.
pub open spec fn uid_suffix(uid: Seq<char>) -> Seq<char> {
    let last = split_on(uid, '.').last();
    if last.len() > 5 {
        last.subrange(last.len() - 5, last.len() as int)
    } else {
        last
    }
}

/// The directory of a transformed record:
/// `<dest>/<id>/<date>T<time>_<study uid suffix>/<series>_<DESCRIPTION>_<plane>`.
pub open spec fn file_path_of(v: TagValues, dest: Seq<char>) -> Seq<char> {
    dest + "/"@ + underscored(trim_white(v.patient_id@)) + "/"@ + trim_white(v.study_date@) + "T"@ + trim_white(
        v.study_time@,
    ) + "_"@ + zero_pad(uid_suffix(v.study_instance_uid@), 5) + "/"@ + zero_pad(v.series_number@, 4) + "_"@
        + ascii_upper(sanitized_chars(trim_white(v.series_description@))) + "_"@ + trim_white(
        v.image_plane@,
    )
}

/// Derives the directory of a record from its sanitized naming values.
pub fn generate_dicom_file_path(dicom_tags_values: TagValues, destination_path: &str) -> (r: String)
    ensures
        r@ == file_path_of(dicom_tags_values, destination_path@),
{
    let v = &dicom_tags_values;
    let parts = split_chars(&chars_of(v.study_instance_uid.as_str()), '.');
    proof {
        crate::text::lemma_split_nonempty(v.study_instance_uid@, '.');
    }
    let last = &parts[parts.len() - 1];
    let mut suffix: Vec<char> = Vec::new();
    if last.len() > 5 {
        let mut i: usize = last.len() - 5;
        while i < last.len()
            invariant
                last@.len() > 5,
                last@.len() - 5 <= i <= last@.len(),
                suffix@ == last@.subrange(last@.len() - 5, i as int),
            decreases last@.len() - i,
        {
            suffix.push(last[i]);
            i = i + 1;
        }
    } else {
        push_chars(&mut suffix, last);
    }
    let mut out: Vec<char> = Vec::new();
    push_str(&mut out, destination_path);
    push_str(&mut out, "/");
    let pid = trimmed(&chars_of(v.patient_id.as_str()));
    push_mapped(&mut out, &pid, false);
    push_str(&mut out, "/");
    push_chars(&mut out, &trimmed(&chars_of(v.study_date.as_str())));
    push_str(&mut out, "T");
    push_chars(&mut out, &trimmed(&chars_of(v.study_time.as_str())));
    push_str(&mut out, "_");
    push_zero_padded(&mut out, &suffix, 5);
    push_str(&mut out, "/");
    push_zero_padded(&mut out, &chars_of(v.series_number.as_str()), 4);
    push_str(&mut out, "_");
    let desc = trimmed(&chars_of(v.series_description.as_str()));
    let desc_text = string_of(&desc);
    let clean = replace_non_alphanumeric(desc_text.as_str());
    push_mapped(&mut out, &chars_of(clean.as_str()), true);
    push_str(&mut out, "_");
    push_chars(&mut out, &trimmed(&chars_of(v.image_plane.as_str())));
    string_of(&out)
}

/// `n` tildes.
pub open spec fn tildes(n: nat) -> Seq<char> {
    Seq::new(n, |i: int| '~')
}

/// Relies on `std::path::Path::exists`: whether something is on disk at `p`
/// now; nothing is promised about it.
#[verifier::external_body]
fn path_exists(p: &str) -> (r: bool) {
    std::path::Path::new(p).exists()
}

/// The paths held by `taken`.
pub open spec fn taken_set(taken: Seq<String>) -> Set<Seq<char>> {
    Set::new(|s: Seq<char>| exists|i: int| 0 <= i < taken.len() && taken[i]@ == s)
}

fn chars_eq(a: &Vec<char>, b: &Vec<char>) -> (r: bool)
    ensures
        r == (a@ == b@),
{
    if a.len() != b.len() {
        return false;
    }
    let mut i: usize = 0;
    while i < a.len()
        invariant
            a@.len() == b@.len(),
            i <= a@.len(),
            forall|k: int| 0 <= k < i ==> a@[k] == b@[k],
        decreases a@.len() - i,
    {
        if a[i] != b[i] {
            return false;
        }
        i = i + 1;
    }
    assert(a@ =~= b@);
    true
}

fn in_list(c: &Vec<char>, list: &Vec<Vec<char>>) -> (r: bool)
    ensures
        r == exists|i: int| 0 <= i < list@.len() && #[trigger] list@[i]@ == c@,
{
    let mut i: usize = 0;
    while i < list.len()
        invariant
            i <= list@.len(),
            forall|k: int| 0 <= k < i ==> #[trigger] list@[k]@ != c@,
        decreases list@.len() - i,
    {
        if chars_eq(&list[i], c) {
            return true;
        }
        i = i + 1;
    }
    false
}

/// The first of `full_path`, `full_path~`, `full_path~~`, ... that is not in `taken`.
pub fn first_free_path(full_path: &String, taken: &Vec<String>) -> (r: String)
    ensures
        exists|n: nat| r@ == full_path@ + tildes(n) && first_free(taken_set(taken@), full_path@, n),
{
    let ghost set = taken_set(taken@);
    let mut list: Vec<Vec<char>> = Vec::new();
    let mut longest: usize = 0;
    let mut i: usize = 0;
    while i < taken.len()
        invariant
            i <= taken@.len(),
            list@.len() == i,
            forall|k: int| 0 <= k < i ==> #[trigger] list@[k]@ == taken@[k]@,
            forall|k: int| 0 <= k < i ==> #[trigger] list@[k]@.len() <= longest,
        decreases taken@.len() - i,
    {
        let c = chars_of(taken[i].as_str());
        if c.len() > longest {
            longest = c.len();
        }
        list.push(c);
        i = i + 1;
    }
    assert forall|s: Seq<char>| set.contains(s) <==> exists|k: int| 0 <= k < list@.len() && #[trigger] list@[k]@ == s by {
        if set.contains(s) {
            let k = choose|k: int| 0 <= k < taken@.len() && taken@[k]@ == s;
            assert(list@[k]@ == s);
        }
    }
    let mut cand = chars_of(full_path.as_str());
    let ghost mut n: nat = 0;
    assert(cand@ =~= full_path@ + tildes(0));
    let mut busy = in_list(&cand, &list);
    while busy
        invariant
            forall|s: Seq<char>| set.contains(s) <==> exists|k: int| 0 <= k < list@.len() && #[trigger] list@[k]@ == s,
            forall|k: int| 0 <= k < list@.len() ==> #[trigger] list@[k]@.len() <= longest,
            cand@ == full_path@ + tildes(n),
            busy == set.contains(cand@),
            set == taken_set(taken@),
            forall|k: nat| k < n ==> set.contains(#[trigger] (full_path@ + tildes(k))),
        decreases longest + 1 - cand@.len(),
    {
        let ghost k = choose|k: int| 0 <= k < list@.len() && #[trigger] list@[k]@ == cand@;
        assert(list@[k]@.len() <= longest);
        assert(cand@.len() <= longest);
        let ghost before = n;
        cand.push('~');
        proof {
            n = n + 1;
            assert(cand@ =~= full_path@ + tildes(n));
            assert forall|j: nat| j < n implies set.contains(#[trigger] (full_path@ + tildes(j))) by {
                if j == before {
                }
            }
        }
        busy = in_list(&cand, &list);
    }
    assert(first_free(taken_set(taken@), full_path@, n));
    string_of(&cand)
}

/// The first of `full_path`, `full_path~`, `full_path~~`, ... that does not
/// exist on disk: the candidates are probed in order, and the ones found to
/// exist are handed to `first_free_path`.
pub fn check_if_dup_exists(full_path: String) -> (r: String)
    ensures
        exists|n: nat, found: Seq<String>|
            {
                &&& r@ == full_path@ + tildes(n)
                &&& first_free(taken_set(found), full_path@, n)
                &&& forall|k: int| 0 <= k < found.len() ==> #[trigger] found[k]@ == full_path@ + tildes(k as nat)
            },
{
    let mut candidate = chars_of(full_path.as_str());
    let mut found: Vec<String> = Vec::new();
    assert(candidate@ =~= full_path@ + tildes(0));
    while found.len() < usize::MAX
        invariant
            candidate@ == full_path@ + tildes(found@.len()),
            forall|k: int| 0 <= k < found@.len() ==> #[trigger] found@[k]@ == full_path@ + tildes(k as nat),
        decreases usize::MAX - found@.len(),
    {
        let text = string_of(&candidate);
        if !path_exists(text.as_str()) {
            break;
        }
        found.push(text);
        candidate.push('~');
        assert(candidate@ =~= full_path@ + tildes(found@.len()));
    }
    first_free_path(&full_path, &found)
}

/// `p` suffixed with `n` tildes is the first candidate missing from `existing`.
pub open spec fn first_free(existing: Set<Seq<char>>, p: Seq<char>, n: nat) -> bool {
    &&& forall|k: nat| k < n ==> existing.contains(#[trigger] (p + tildes(k)))
    &&& !existing.contains(p + tildes(n))
}

/// Writing records whose paths collide never overwrites: once the first free
/// candidate is taken, the next record for the same path gets a candidate
/// with more tildes than every one taken, and exactly one more when that one
/// is free.
pub proof fn law_collision_resolution(existing: Set<Seq<char>>, p: Seq<char>, n: nat, m: nat)
    requires
        first_free(existing, p, n),
        first_free(existing.insert(p + tildes(n)), p, m),
    ensures
        m > n,
        p + tildes(m) != p + tildes(n),
        !existing.contains(p + tildes(n + 1)) ==> m == n + 1,
{
    if m < n {
        assert(existing.contains(p + tildes(m)));
    }
    if m == n {
        assert(existing.insert(p + tildes(n)).contains(p + tildes(n)));
    }
    assert((p + tildes(m)).len() != (p + tildes(n)).len());
    if !existing.contains(p + tildes(n + 1)) && m > n + 1 {
        assert(existing.insert(p + tildes(n)).contains(p + tildes(n + 1)));
        assert((p + tildes(n + 1)).len() != (p + tildes(n)).len());
    }
}

/// Where a file that is not a record is copied: `<dest>/NON_DICOM/<name>`.
pub fn non_dicom_path(destination_path: &str, file_name: &str) -> (r: String)
    ensures
        r@ == destination_path@ + "/NON_DICOM/"@ + file_name@,
{
    let mut out: Vec<char> = Vec::new();
    push_str(&mut out, destination_path);
    push_str(&mut out, "/NON_DICOM/");
    push_str(&mut out, file_name);
    string_of(&out)
}

/// Where a file that failed is copied: `<dest>/FAILED_CASES/<name>`.
pub fn failed_case_path(destination_path: &str, file_name: &str) -> (r: String)
    ensures
        r@ == destination_path@ + "/FAILED_CASES/"@ + file_name@,
{
    let mut out: Vec<char> = Vec::new();
    push_str(&mut out, destination_path);
    push_str(&mut out, "/FAILED_CASES/");
    push_str(&mut out, file_name);
    string_of(&out)
}

} // verus!
