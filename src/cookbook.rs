use crate::dict::{entry_of, extract_tag_vr_from_str, parse_vr, vr_named, DictEntry, RuleError};
use crate::record::Vr;
use crate::text::{pair_views, text_eq, views};
use vstd::prelude::*;
use vstd::string::StringExecFns;

verus! {

/// The field whose value is the subject key.
#[derive(Debug)]
pub struct MatchIDTag {
    pub tag: String,
}

/// Field names and value-representation names to mask.
#[derive(Debug)]
pub struct MaskTags {
    pub tags: Vec<String>,
    pub vrs: Vec<String>,
}

impl MaskTags {
    /// Nothing to mask.
    pub fn default() -> (r: Self)
        ensures
            r.tags@.len() == 0,
            r.vrs@.len() == 0,
    {
        MaskTags { tags: Vec::new(), vrs: Vec::new() }
    }
}

/// Field names to delete, and whether to purge private fields.
#[derive(Debug)]
pub struct DelTags {
    pub tags: Vec<String>,
    pub private_tags: bool,
}

impl DelTags {
    /// Nothing to delete.
    pub fn default() -> (r: Self)
        ensures
            r.tags@.len() == 0,
            !r.private_tags,
    {
        DelTags { tags: Vec::new(), private_tags: false }
    }
}

/// Field names with the literal values to set.
#[derive(Debug)]
pub struct AddTags {
    pub tags: Vec<(String, String)>,
}

impl AddTags {
    /// Nothing to add.
    pub fn default() -> (r: Self)
        ensures
            r.tags@.len() == 0,
    {
        AddTags { tags: Vec::new() }
    }
}

/// The rule configuration as written, before validation.
#[derive(Debug)]
pub struct CookBook {
    pub matchid: Option<MatchIDTag>,
    pub mask: Option<MaskTags>,
    pub delete: Option<DelTags>,
    pub add: Option<AddTags>,
}

/// The validated rule set.
#[derive(Debug)]
pub struct Rules {
    pub match_id: DictEntry,
    pub mask_tags: Vec<DictEntry>,
    pub mask_vrs: Vec<Vr>,
    pub add_tags: Vec<(String, String)>,
    pub delete_tags: Vec<DictEntry>,
    pub delete_private: bool,
}

/// The dictionary entries of the known names, in order; unknown names dropped.
pub open spec fn valid_entries(names: Seq<Seq<char>>) -> Seq<DictEntry>
    decreases names.len(),
{
    if names.len() == 0 {
        Seq::empty()
    } else {
        let rest = valid_entries(names.drop_last());
        match entry_of(names.last()) {
            Some(e) => rest.push(e),
            None => rest,
        }
    }
}

/// The value representations of the known names, in order; unknown names dropped.
pub open spec fn valid_vrs(names: Seq<Seq<char>>) -> Seq<Vr>
    decreases names.len(),
{
    if names.len() == 0 {
        Seq::empty()
    } else {
        let rest = valid_vrs(names.drop_last());
        match vr_named(names.last()) {
            Some(v) => rest.push(v),
            None => rest,
        }
    }
}

/// The (name, value) pairs whose name is a known field, in order.
pub open spec fn valid_adds(pairs: Seq<(Seq<char>, Seq<char>)>) -> Seq<(Seq<char>, Seq<char>)>
    decreases pairs.len(),
{
    if pairs.len() == 0 {
        Seq::empty()
    } else {
        let rest = valid_adds(pairs.drop_last());
        if entry_of(pairs.last().0) is Some {
            rest.push(pairs.last())
        } else {
            rest
        }
    }
}

/// Resolves each field name; names missing from the dictionary are dropped.
pub fn check_valid_tag_vec(tag_vec: Vec<String>) -> (r: Vec<DictEntry>)
    ensures
        r@ == valid_entries(views(tag_vec@)),
{
    let mut out: Vec<DictEntry> = Vec::new();
    let mut i: usize = 0;
    while i < tag_vec.len()
        invariant
            i <= tag_vec@.len(),
            out@ == valid_entries(views(tag_vec@.subrange(0, i as int))),
        decreases tag_vec@.len() - i,
    {
        let ghost pre = tag_vec@.subrange(0, i as int);
        let ghost next = tag_vec@.subrange(0, i + 1);
        assert(views(next).drop_last() == views(pre));
        assert(views(next).last() == tag_vec@[i as int]@);
        match extract_tag_vr_from_str(&tag_vec[i]) {
            Ok(e) => out.push(e),
            Err(_) => {},
        }
        i = i + 1;
    }
    assert(tag_vec@.subrange(0, tag_vec@.len() as int) == tag_vec@);
    out
}

/// Resolves each value-representation name; unknown names are dropped.
pub fn check_valid_vr_vec(vrs_vec: Vec<String>) -> (r: Vec<Vr>)
    ensures
        r@ == valid_vrs(views(vrs_vec@)),
{
    let mut out: Vec<Vr> = Vec::new();
    let mut i: usize = 0;
    while i < vrs_vec.len()
        invariant
            i <= vrs_vec@.len(),
            out@ == valid_vrs(views(vrs_vec@.subrange(0, i as int))),
        decreases vrs_vec@.len() - i,
    {
        let ghost pre = vrs_vec@.subrange(0, i as int);
        let ghost next = vrs_vec@.subrange(0, i + 1);
        assert(views(next).drop_last() == views(pre));
        assert(views(next).last() == vrs_vec@[i as int]@);
        match parse_vr(&vrs_vec[i]) {
            Some(v) => out.push(v),
            None => {},
        }
        i = i + 1;
    }
    assert(vrs_vec@.subrange(0, vrs_vec@.len() as int) == vrs_vec@);
    out
}

/// Keeps the (name, value) pairs whose name is a known field.
pub fn check_valid_tag_hashmap(tag_hash: Vec<(String, String)>) -> (r: Vec<(String, String)>)
    ensures
        pair_views(r@) == valid_adds(pair_views(tag_hash@)),
{
    let mut out: Vec<(String, String)> = Vec::new();
    let mut i: usize = 0;
    while i < tag_hash.len()
        invariant
            i <= tag_hash@.len(),
            pair_views(out@) == valid_adds(pair_views(tag_hash@.subrange(0, i as int))),
        decreases tag_hash@.len() - i,
    {
        let ghost pre = tag_hash@.subrange(0, i as int);
        let ghost next = tag_hash@.subrange(0, i + 1);
        assert(pair_views(next).drop_last() == pair_views(pre));
        assert(pair_views(next).last() == (tag_hash@[i as int].0@, tag_hash@[i as int].1@));
        let (name, value) = &tag_hash[i];
        match extract_tag_vr_from_str(name) {
            Ok(_) => {
                let ghost before = out@;
                out.push((name.clone(), value.clone()));
                assert(pair_views(out@) == pair_views(before).push((name@, value@)));
            },
            Err(_) => {},
        }
        i = i + 1;
    }
    assert(tag_hash@.subrange(0, tag_hash@.len() as int) == tag_hash@);
    out
}

/// Validates the field names of one rule list (`action` names the list).
pub fn check_tag_list(action: &str, tag_list: Vec<String>) -> (r: Vec<DictEntry>)
    ensures
        r@ == valid_entries(views(tag_list@)),
{
    check_valid_tag_vec(tag_list)
}

/// Validates the value-representation names of the mask list.
pub fn check_vr_list(vr_list: Vec<String>) -> (r: Vec<Vr>)
    ensures
        r@ == valid_vrs(views(vr_list@)),
{
    check_valid_vr_vec(vr_list)
}

pub open spec fn mask_names(c: CookBook) -> Seq<String> {
    match c.mask {
        Some(m) => m.tags@,
        None => Seq::empty(),
    }
}

pub open spec fn mask_vr_names(c: CookBook) -> Seq<String> {
    match c.mask {
        Some(m) => m.vrs@,
        None => Seq::empty(),
    }
}

pub open spec fn delete_names(c: CookBook) -> Seq<String> {
    match c.delete {
        Some(d) => d.tags@,
        None => Seq::empty(),
    }
}

pub open spec fn add_pairs(c: CookBook) -> Seq<(String, String)> {
    match c.add {
        Some(a) => a.tags@,
        None => Seq::empty(),
    }
}

/// The name of the match field: `PatientName` when asked for, else `PatientID`.
pub open spec fn match_name(c: CookBook) -> Seq<char> {
    if c.matchid matches Some(m) && m.tag@ == "PatientName"@ {
        "PatientName"@
    } else {
        "PatientID"@
    }
}

/// Turns a rule configuration into a validated rule set: absent sections are
/// empty, unknown names are dropped, the match field defaults to `PatientID`.
/// Fails only if the match field is missing from the dictionary.
pub fn rules_from_cookbook(cookbook: CookBook) -> (r: Result<Rules, RuleError>)
    ensures
        r is Ok <==> entry_of(match_name(cookbook)) is Some,
        r matches Ok(rules) ==> {
            &&& entry_of(match_name(cookbook)) == Some(rules.match_id)
            &&& rules.mask_tags@ == valid_entries(
                views(mask_names(cookbook)),
            )
            &&& rules.mask_vrs@ == valid_vrs(
                views(mask_vr_names(cookbook)),
            )
            &&& rules.delete_tags@ == valid_entries(
                views(delete_names(cookbook)),
            )
            &&& rules.delete_private == (cookbook.delete matches Some(d) && d.private_tags)
            &&& pair_views(rules.add_tags@) == valid_adds(
                pair_views(add_pairs(cookbook)),
            )
        },
{
    let ghost c = cookbook;
    let CookBook { matchid, mask, delete, add } = cookbook;
    let wants_name = match &matchid {
        Some(m) => text_eq(m.tag.as_str(), "PatientName"),
        None => false,
    };
    let name = if wants_name {
        String::from_str("PatientName")
    } else {
        String::from_str("PatientID")
    };
    assert(name@ == match_name(c));
    let match_id = match extract_tag_vr_from_str(&name) {
        Ok(e) => e,
        Err(e) => return Err(e),
    };
    let m = match mask {
        Some(m) => m,
        None => MaskTags::default(),
    };
    let d = match delete {
        Some(d) => d,
        None => DelTags::default(),
    };
    let a = match add {
        Some(a) => a,
        None => AddTags::default(),
    };
    let MaskTags { tags: m_names, vrs: vr_names } = m;
    let DelTags { tags: d_names, private_tags } = d;
    assert(views(m_names@) == views(mask_names(c)));
    assert(views(vr_names@) == views(mask_vr_names(c)));
    assert(views(d_names@) == views(delete_names(c)));
    assert(pair_views(a.tags@) == pair_views(add_pairs(c)));
    let mask_tags = check_tag_list("mask", m_names);
    let delete_tags = check_tag_list("delete", d_names);
    let mask_vrs = check_vr_list(vr_names);
    let add_tags = check_valid_tag_hashmap(a.tags);
    Ok(Rules { match_id, mask_tags, mask_vrs, add_tags, delete_tags, delete_private: private_tags })
}

} // verus!
