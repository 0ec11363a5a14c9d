use vstd::prelude::*;

verus! {

/// The codec's primitive value, opaque here.
#[verifier::external_type_specification]
#[verifier::external_body]
pub struct ExPrimitiveValue(dicom::core::PrimitiveValue);

/// The codec's encapsulated pixel data, opaque here.
#[verifier::external_type_specification]
#[verifier::external_body]
#[verifier::reject_recursive_types(P)]
pub struct ExPixelFragmentSequence<P>(dicom::core::value::PixelFragmentSequence<P>);

/// A (group, element) pair that addresses a field.
#[derive(Clone, Copy, Debug, PartialEq, Eq, Structural)]
pub struct Tag {
    pub group: u16,
    pub element: u16,
}

impl Tag {
    /// Fields whose group number is odd are private.
    pub open spec fn spec_is_private(self) -> bool {
        self.group % 2 == 1
    }

    pub fn is_private(&self) -> (r: bool)
        ensures
            r == self.spec_is_private(),
    {
        self.group % 2 == 1
    }
}

/// The declared value representation of a field.
#[derive(Clone, Copy, Debug, PartialEq, Eq, Structural)]
pub enum Vr {
    AE, AS, AT, CS, DA, DS, DT, FL, FD, IS, LO, LT, OB, OD, OF, OL, OV,
    OW, PN, SH, SL, SQ, SS, ST, SV, TM, UC, UI, UL, UN, UR, US, UT, UV,
}

impl Vr {
    /// The two ASCII letters that name this value representation.
    pub open spec fn spec_code(self) -> (u8, u8) {
        match self {
            Vr::AE => (65u8, 69u8),
            Vr::AS => (65u8, 83u8),
            Vr::AT => (65u8, 84u8),
            Vr::CS => (67u8, 83u8),
            Vr::DA => (68u8, 65u8),
            Vr::DS => (68u8, 83u8),
            Vr::DT => (68u8, 84u8),
            Vr::FL => (70u8, 76u8),
            Vr::FD => (70u8, 68u8),
            Vr::IS => (73u8, 83u8),
            Vr::LO => (76u8, 79u8),
            Vr::LT => (76u8, 84u8),
            Vr::OB => (79u8, 66u8),
            Vr::OD => (79u8, 68u8),
            Vr::OF => (79u8, 70u8),
            Vr::OL => (79u8, 76u8),
            Vr::OV => (79u8, 86u8),
            Vr::OW => (79u8, 87u8),
            Vr::PN => (80u8, 78u8),
            Vr::SH => (83u8, 72u8),
            Vr::SL => (83u8, 76u8),
            Vr::SQ => (83u8, 81u8),
            Vr::SS => (83u8, 83u8),
            Vr::ST => (83u8, 84u8),
            Vr::SV => (83u8, 86u8),
            Vr::TM => (84u8, 77u8),
            Vr::UC => (85u8, 67u8),
            Vr::UI => (85u8, 73u8),
            Vr::UL => (85u8, 76u8),
            Vr::UN => (85u8, 78u8),
            Vr::UR => (85u8, 82u8),
            Vr::US => (85u8, 83u8),
            Vr::UT => (85u8, 84u8),
            Vr::UV => (85u8, 86u8),
        }
    }

    /// The name of this value representation as text.
    pub open spec fn spec_name(self) -> Seq<char> {
        seq![self.spec_code().0 as char, self.spec_code().1 as char]
    }

    pub fn code(&self) -> (r: (u8, u8))
        ensures
            r == self.spec_code(),
    {
        match self {
            Vr::AE => (65u8, 69u8),
            Vr::AS => (65u8, 83u8),
            Vr::AT => (65u8, 84u8),
            Vr::CS => (67u8, 83u8),
            Vr::DA => (68u8, 65u8),
            Vr::DS => (68u8, 83u8),
            Vr::DT => (68u8, 84u8),
            Vr::FL => (70u8, 76u8),
            Vr::FD => (70u8, 68u8),
            Vr::IS => (73u8, 83u8),
            Vr::LO => (76u8, 79u8),
            Vr::LT => (76u8, 84u8),
            Vr::OB => (79u8, 66u8),
            Vr::OD => (79u8, 68u8),
            Vr::OF => (79u8, 70u8),
            Vr::OL => (79u8, 76u8),
            Vr::OV => (79u8, 86u8),
            Vr::OW => (79u8, 87u8),
            Vr::PN => (80u8, 78u8),
            Vr::SH => (83u8, 72u8),
            Vr::SL => (83u8, 76u8),
            Vr::SQ => (83u8, 81u8),
            Vr::SS => (83u8, 83u8),
            Vr::ST => (83u8, 84u8),
            Vr::SV => (83u8, 86u8),
            Vr::TM => (84u8, 77u8),
            Vr::UC => (85u8, 67u8),
            Vr::UI => (85u8, 73u8),
            Vr::UL => (85u8, 76u8),
            Vr::UN => (85u8, 78u8),
            Vr::UR => (85u8, 82u8),
            Vr::US => (85u8, 83u8),
            Vr::UT => (85u8, 84u8),
            Vr::UV => (85u8, 86u8),
        }
    }

    /// The value representation named by two ASCII letters, if any.
    pub fn from_code(a: u8, b: u8) -> (r: Option<Vr>)
        ensures
            r matches Some(v) ==> v.spec_code() == (a, b),
            r is None ==> forall|v: Vr| #[trigger] v.spec_code() != (a, b),
    {
        match (a, b) {
            (65u8, 69u8) => Some(Vr::AE),
            (65u8, 83u8) => Some(Vr::AS),
            (65u8, 84u8) => Some(Vr::AT),
            (67u8, 83u8) => Some(Vr::CS),
            (68u8, 65u8) => Some(Vr::DA),
            (68u8, 83u8) => Some(Vr::DS),
            (68u8, 84u8) => Some(Vr::DT),
            (70u8, 76u8) => Some(Vr::FL),
            (70u8, 68u8) => Some(Vr::FD),
            (73u8, 83u8) => Some(Vr::IS),
            (76u8, 79u8) => Some(Vr::LO),
            (76u8, 84u8) => Some(Vr::LT),
            (79u8, 66u8) => Some(Vr::OB),
            (79u8, 68u8) => Some(Vr::OD),
            (79u8, 70u8) => Some(Vr::OF),
            (79u8, 76u8) => Some(Vr::OL),
            (79u8, 86u8) => Some(Vr::OV),
            (79u8, 87u8) => Some(Vr::OW),
            (80u8, 78u8) => Some(Vr::PN),
            (83u8, 72u8) => Some(Vr::SH),
            (83u8, 76u8) => Some(Vr::SL),
            (83u8, 81u8) => Some(Vr::SQ),
            (83u8, 83u8) => Some(Vr::SS),
            (83u8, 84u8) => Some(Vr::ST),
            (83u8, 86u8) => Some(Vr::SV),
            (84u8, 77u8) => Some(Vr::TM),
            (85u8, 67u8) => Some(Vr::UC),
            (85u8, 73u8) => Some(Vr::UI),
            (85u8, 76u8) => Some(Vr::UL),
            (85u8, 78u8) => Some(Vr::UN),
            (85u8, 82u8) => Some(Vr::UR),
            (85u8, 83u8) => Some(Vr::US),
            (85u8, 84u8) => Some(Vr::UT),
            (85u8, 86u8) => Some(Vr::UV),
            _ => None,
        }
    }
}

/// A calendar date.
#[derive(Clone, Copy, Debug, PartialEq, Eq, Structural)]
pub struct DateParts {
    pub year: u16,
    pub month: u8,
    pub day: u8,
}

/// A time of day with second precision.
#[derive(Clone, Copy, Debug, PartialEq, Eq, Structural)]
pub struct TimeParts {
    pub hour: u8,
    pub minute: u8,
    pub second: u8,
}

/// The value held by a field.
#[derive(Debug)]
pub enum Value {
    /// Several strings (one per value multiplicity).
    Strs(Vec<String>),
    /// One free-text string.
    Str(String),
    Date(DateParts),
    Time(TimeParts),
    DateTime(DateParts, TimeParts),
    /// A sequence of nested records.
    Items(Vec<Record>),
    /// Any other primitive value, carried through untouched.
    Kept(dicom::core::PrimitiveValue),
    /// Encapsulated pixel data, carried through untouched.
    Fragments(dicom::core::value::PixelFragmentSequence<Vec<u8>>),
}

/// One field of a record.
#[derive(Debug)]
pub struct Element {
    pub tag: Tag,
    pub vr: Vr,
    pub value: Value,
}

/// A structured record: a list of fields, some of which nest further records.
#[derive(Debug)]
pub struct Record {
    pub elements: Vec<Element>,
}

/// Whether some field of `s` has tag `t`.
pub open spec fn has_tag(s: Seq<Element>, t: Tag) -> bool {
    exists|i: int| 0 <= i < s.len() && #[trigger] s[i].tag == t
}

/// The position of the field with tag `t` (meaningful when `has_tag(s, t)`).
pub open spec fn tag_index(s: Seq<Element>, t: Tag) -> int {
    choose|i: int| 0 <= i < s.len() && #[trigger] s[i].tag == t
}

/// No two fields of `s` share a tag.
pub open spec fn tags_unique(s: Seq<Element>) -> bool {
    forall|i: int, j: int|
        0 <= i < s.len() && 0 <= j < s.len() && i != j ==> #[trigger] s[i].tag != #[trigger] s[j].tag
}

/// The field with tag `t`, if any.
pub open spec fn lookup(s: Seq<Element>, t: Tag) -> Option<Element> {
    if has_tag(s, t) {
        Some(s[tag_index(s, t)])
    } else {
        None
    }
}

/// `s` after setting the field `e`: it replaces the field with the same tag,
/// or is appended when there is none.
pub open spec fn put_spec(s: Seq<Element>, e: Element) -> Seq<Element> {
    if has_tag(s, e.tag) {
        s.update(tag_index(s, e.tag), e)
    } else {
        s.push(e)
    }
}

/// `s` without the field with tag `t`.
pub open spec fn remove_spec(s: Seq<Element>, t: Tag) -> Seq<Element> {
    if has_tag(s, t) {
        s.remove(tag_index(s, t))
    } else {
        s
    }
}

/// In a record without repeated tags, the field found by `tag_index` is the only one.
pub proof fn lemma_tag_index_unique(s: Seq<Element>, t: Tag, i: int)
    requires
        tags_unique(s),
        0 <= i < s.len(),
        s[i].tag == t,
    ensures
        has_tag(s, t),
        tag_index(s, t) == i,
{
    let j = tag_index(s, t);
    assert(s[j].tag == t);
}

/// Setting a field keeps tags unique, makes the field present with the new
/// value and leaves every other tag as it was.
pub proof fn lemma_put_lookup(s: Seq<Element>, e: Element)
    requires
        tags_unique(s),
    ensures
        tags_unique(put_spec(s, e)),
        lookup(put_spec(s, e), e.tag) == Some(e),
        forall|t: Tag| t != e.tag ==> lookup(put_spec(s, e), t) == lookup(s, t),
{
    let n = put_spec(s, e);
    if has_tag(s, e.tag) {
        let k = tag_index(s, e.tag);
        assert(n[k].tag == e.tag);
        lemma_tag_index_unique(n, e.tag, k);
        assert forall|t: Tag| t != e.tag implies lookup(n, t) == lookup(s, t) by {
            if has_tag(s, t) {
                let j = tag_index(s, t);
                assert(n[j] == s[j]);
                lemma_tag_index_unique(n, t, j);
            } else {
                if has_tag(n, t) {
                    let j = tag_index(n, t);
                    assert(s[j].tag == t);
                }
            }
        }
    } else {
        let k = s.len() as int;
        assert(n[k].tag == e.tag);
        lemma_tag_index_unique(n, e.tag, k);
        assert forall|t: Tag| t != e.tag implies lookup(n, t) == lookup(s, t) by {
            if has_tag(s, t) {
                let j = tag_index(s, t);
                assert(n[j] == s[j]);
                lemma_tag_index_unique(n, t, j);
            } else {
                if has_tag(n, t) {
                    let j = tag_index(n, t);
                    assert(s[j].tag == t);
                }
            }
        }
    }
}

/// Removing a field keeps tags unique, makes the tag absent and leaves every
/// other tag as it was.
pub proof fn lemma_remove_lookup(s: Seq<Element>, t0: Tag)
    requires
        tags_unique(s),
    ensures
        tags_unique(remove_spec(s, t0)),
        !has_tag(remove_spec(s, t0), t0),
        forall|t: Tag| t != t0 ==> lookup(remove_spec(s, t0), t) == lookup(s, t),
{
    let n = remove_spec(s, t0);
    if has_tag(s, t0) {
        let k = tag_index(s, t0);
        assert(s[k].tag == t0);
        assert forall|i: int, j: int|
            0 <= i < n.len() && 0 <= j < n.len() && i != j implies #[trigger] n[i].tag
            != #[trigger] n[j].tag by {
            let i2 = if i < k { i } else { i + 1 };
            let j2 = if j < k { j } else { j + 1 };
            assert(n[i] == s[i2]);
            assert(n[j] == s[j2]);
        }
        if has_tag(n, t0) {
            let j = tag_index(n, t0);
            let j2 = if j < k { j } else { j + 1 };
            assert(n[j] == s[j2]);
        }
        assert forall|t: Tag| t != t0 implies lookup(n, t) == lookup(s, t) by {
            if has_tag(s, t) {
                let j = tag_index(s, t);
                assert(j != k);
                let j2 = if j < k { j } else { j - 1 };
                assert(n[j2] == s[j]);
                lemma_tag_index_unique(n, t, j2);
            } else {
                if has_tag(n, t) {
                    let j = tag_index(n, t);
                    let j2 = if j < k { j } else { j + 1 };
                    assert(n[j] == s[j2]);
                }
            }
        }
    }
}

impl Record {
    /// A record whose top level holds no repeated tag.
    pub open spec fn wf(&self) -> bool {
        tags_unique(self.elements@)
    }

    /// An empty record.
    pub fn new() -> (r: Record)
        ensures
            r.elements@ == Seq::<Element>::empty(),
            r.wf(),
    {
        Record { elements: Vec::new() }
    }

    /// Position of the field with tag `t`, if present.
    pub fn find(&self, t: Tag) -> (r: Option<usize>)
        ensures
            r matches Some(i) ==> i < self.elements@.len() && self.elements@[i as int].tag == t,
            r is None <==> !has_tag(self.elements@, t),
    {
        let mut i: usize = 0;
        while i < self.elements.len()
            invariant
                i <= self.elements@.len(),
                forall|j: int| 0 <= j < i ==> self.elements@[j].tag != t,
            decreases self.elements@.len() - i,
        {
            if self.elements[i].tag == t {
                return Some(i);
            }
            i = i + 1;
        }
        None
    }

    /// Whether the record holds a field with tag `t`.
    pub fn contains(&self, t: Tag) -> (r: bool)
        ensures
            r == has_tag(self.elements@, t),
    {
        self.find(t).is_some()
    }

    /// Reference to the field with tag `t`, if present.
    pub fn get(&self, t: Tag) -> (r: Option<&Element>)
        requires
            self.wf(),
        ensures
            r matches Some(e) ==> lookup(self.elements@, t) == Some(*e),
            r is None <==> lookup(self.elements@, t) is None,
    {
        match self.find(t) {
            Some(i) => {
                proof {
                    lemma_tag_index_unique(self.elements@, t, i as int);
                }
                Some(&self.elements[i])
            },
            None => None,
        }
    }

    /// Sets field `e`, replacing the field with the same tag if there is one.
    pub fn put(&mut self, e: Element)
        requires
            old(self).wf(),
        ensures
            final(self).elements@ == put_spec(old(self).elements@, e),
            final(self).wf(),
            lookup(final(self).elements@, e.tag) == Some(e),
            forall|t: Tag| t != e.tag ==> lookup(final(self).elements@, t) == lookup(old(self).elements@, t),
    {
        proof {
            lemma_put_lookup(self.elements@, e);
        }
        match self.find(e.tag) {
            Some(i) => {
                proof {
                    lemma_tag_index_unique(self.elements@, e.tag, i as int);
                }
                self.elements.set(i, e);
            },
            None => {
                self.elements.push(e);
            },
        }
    }

    /// Removes the field with tag `t`; returns whether it was present.
    pub fn remove(&mut self, t: Tag) -> (r: bool)
        requires
            old(self).wf(),
        ensures
            r == has_tag(old(self).elements@, t),
            final(self).elements@ == remove_spec(old(self).elements@, t),
            final(self).wf(),
            !has_tag(final(self).elements@, t),
            forall|t2: Tag| t2 != t ==> lookup(final(self).elements@, t2) == lookup(old(self).elements@, t2),
    {
        proof {
            lemma_remove_lookup(self.elements@, t);
        }
        match self.find(t) {
            Some(i) => {
                proof {
                    lemma_tag_index_unique(self.elements@, t, i as int);
                }
                let _ = self.elements.remove(i);
                true
            },
            None => false,
        }
    }
}

/// A public field with no private field in its nested records.
pub open spec fn no_private_elem(e: Element) -> bool {
    &&& !e.tag.spec_is_private()
    &&& (e.value is Items ==> forall|k: int|
        0 <= k < e.value->Items_0@.len() ==> no_private(#[trigger] e.value->Items_0@[k]))
}

/// No private field at any nesting level.
pub open spec fn no_private(r: Record) -> bool
    decreases r,
{
    forall|i: int|
        #![trigger r.elements@[i]]
        0 <= i < r.elements@.len() ==> {
            &&& !r.elements@[i].tag.spec_is_private()
            &&& (r.elements@[i].value is Items ==> forall|k: int|
                0 <= k < r.elements@[i].value->Items_0@.len() ==> no_private(
                    #[trigger] r.elements@[i].value->Items_0@[k],
                ))
        }
}

/// A record whose fields are all public, down to their nested records, has
/// no private field.
pub proof fn lemma_no_private_intro(r: Record)
    requires
        forall|i: int| 0 <= i < r.elements@.len() ==> no_private_elem(#[trigger] r.elements@[i]),
    ensures
        no_private(r),
{
}

} // verus!
