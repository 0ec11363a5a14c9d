use crate::record::{Tag, Vr};
use vstd::prelude::*;

verus! {

/// What the standard data dictionary holds under a field name: group,
/// element and the two letters of the value representation.
pub uninterp spec fn dictionary_entry(name: Seq<char>) -> Option<(u16, u16, u8, u8)>;

/// Relies on dicom's `StandardDataDictionary::by_name`, with `TagRange::inner`
/// and `VirtualVr::relaxed`: the entry registered under `name`; its value
/// representation is always one of the standard ones.
#[verifier::external_body]
fn dictionary_lookup(name: &str) -> (r: Option<(u16, u16, u8, u8)>)
    ensures
        r == dictionary_entry(name@),
        r matches Some(e) ==> exists|v: Vr| #[trigger] v.spec_code() == (e.2, e.3),
{
    match <dicom::object::StandardDataDictionary as dicom::core::DataDictionary>::by_name(
        &dicom::object::StandardDataDictionary,
        name,
    ) {
        Some(entry) => {
            let tag = entry.tag.inner();
            let code = entry.vr.relaxed().to_bytes();
            Some((tag.group(), tag.element(), code[0], code[1]))
        },
        None => None,
    }
}

/// Relies on dicom's `VR::from_str`: it accepts exactly the two-letter names
/// of the value representations.
#[verifier::external_body]
fn vr_code_of(name: &str) -> (r: Option<(u8, u8)>)
    ensures
        r matches Some(c) ==> exists|v: Vr| #[trigger] v.spec_code() == c && name@ == v.spec_name(),
        r is None ==> forall|v: Vr| #[trigger] v.spec_name() != name@,
{
    match <dicom::core::VR as std::str::FromStr>::from_str(name) {
        Ok(v) => {
            let code = v.to_bytes();
            Some((code[0], code[1]))
        },
        Err(_) => None,
    }
}

/// A field reference: its tag and declared value representation.
#[derive(Clone, Copy, Debug, PartialEq, Eq, Structural)]
pub struct DictEntry {
    pub tag: Tag,
    pub vr: Vr,
}

/// The value representation with the given two-letter code.
pub open spec fn vr_with_code(c: (u8, u8)) -> Vr {
    choose|v: Vr| v.spec_code() == c
}

/// The dictionary's field reference for `name`, if the name is known.
pub open spec fn entry_of(name: Seq<char>) -> Option<DictEntry> {
    match dictionary_entry(name) {
        Some(e) => Some(DictEntry { tag: Tag { group: e.0, element: e.1 }, vr: vr_with_code((e.2, e.3)) }),
        None => None,
    }
}

/// The value representation named `name`, if any.
pub open spec fn vr_named(name: Seq<char>) -> Option<Vr> {
    if exists|v: Vr| #[trigger] v.spec_name() == name {
        Some(choose|v: Vr| #[trigger] v.spec_name() == name)
    } else {
        None
    }
}

pub proof fn lemma_code_injective(v: Vr, w: Vr)
    requires
        v.spec_code() == w.spec_code(),
    ensures
        v == w,
{
}

/// Why a field name was refused.
#[derive(Clone, Copy, Debug, PartialEq, Eq, Structural)]
pub enum RuleError {
    /// The name is not in the standard data dictionary.
    UnknownField,
}

/// Resolves a field name to its tag and value representation.
pub fn extract_tag_vr_from_str(tag_name: &String) -> (r: Result<DictEntry, RuleError>)
    ensures
        r is Ok <==> entry_of(tag_name@) is Some,
        r matches Ok(e) ==> entry_of(tag_name@) == Some(e),
{
    match dictionary_lookup(tag_name.as_str()) {
        Some((g, el, a, b)) => match Vr::from_code(a, b) {
            Some(vr) => {
                proof {
                    let w = vr_with_code((a, b));
                    lemma_code_injective(vr, w);
                }
                Ok(DictEntry { tag: Tag { group: g, element: el }, vr })
            },
            None => {
                assert(false);
                Err(RuleError::UnknownField)
            },
        },
        None => Err(RuleError::UnknownField),
    }
}

/// Resolves a value-representation name such as `PN`.
pub fn parse_vr(name: &String) -> (r: Option<Vr>)
    ensures
        r == vr_named(name@),
{
    match vr_code_of(name.as_str()) {
        Some((a, b)) => match Vr::from_code(a, b) {
            Some(v) => {
                proof {
                    let w = choose|w: Vr| #[trigger] w.spec_code() == (a, b) && name@ == w.spec_name();
                    lemma_code_injective(v, w);
                    let u = choose|u: Vr| #[trigger] u.spec_name() == name@;
                    lemma_name_injective(u, w);
                }
                Some(v)
            },
            None => {
                assert(false);
                None
            },
        },
        None => None,
    }
}

pub proof fn lemma_name_injective(v: Vr, w: Vr)
    requires
        v.spec_name() == w.spec_name(),
    ensures
        v == w,
{
    assert(v.spec_name()[0] == w.spec_name()[0]);
    assert(v.spec_name()[1] == w.spec_name()[1]);
}

} // verus!
