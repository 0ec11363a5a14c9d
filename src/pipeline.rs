use crate::anon::{
    epoch_date, epoch_time, identity_fields, patient_age_tag, patient_sex_tag, set_fields, uid_tags,
    anon_dicom_uids, anon_prefix_steps, dicom_anon_date_time, mask_tags_with_id, uids_remappable, uids_remapped,
};
use crate::cookbook::Rules;
use crate::dict::{entry_of, DictEntry};
use crate::fields::{
    add_possible, added_fields, last_add_for, last_entry_for, delete_private_tags, deleted_fields, mask_possible, masked_fields,
    spec_original_attributes_sequence, tags_to_add, tags_to_delete, tags_to_mask, TransformError,
};
use crate::record::{has_tag, lookup, remove_spec, Record, Tag, Value, Vr};
use crate::text::pair_views;
use crate::transform::{lemma_masked_lookup, lemma_purged_lookup, masked_vrs, plain_of, purged, Plain};
use crate::value::{
    is_string_list_vr, is_typed_value, parse_date, parse_date_time, parse_time, typed_value_exists,
};
use crate::registry::{is_substitute_for, registry_step, IdRegistry, StrMap};
use crate::text::string_of;
use crate::transform::mask_vr;
use crate::value::{element_text, value_text};
use vstd::prelude::*;

verus! {

/// The counts reported at the end of a run.
#[derive(Debug)]
pub struct RunSummary {
    pub action: String,
    pub total: u64,
    pub failed: u64,
    pub non_record: u64,
    pub processed: u64,
}

/// The end-of-run summary: the files neither failed nor non-records were processed.
pub fn print_status(total_len: u64, total_proc_failed_files: u64, total_non_dcm_files: u64, action: String) -> (r:
    RunSummary)
    requires
        total_proc_failed_files + total_non_dcm_files <= total_len,
    ensures
        r.total == total_len,
        r.failed == total_proc_failed_files,
        r.non_record == total_non_dcm_files,
        r.processed == total_len - total_proc_failed_files - total_non_dcm_files,
        r.action@ == action@,
{
    RunSummary {
        action,
        total: total_len,
        failed: total_proc_failed_files,
        non_record: total_non_dcm_files,
        processed: total_len - (total_proc_failed_files + total_non_dcm_files),
    }
}

/// How the processing of one file ended.
#[derive(Clone, Copy, Debug, PartialEq, Eq, Structural)]
pub enum FileOutcome {
    /// The file is not a record: it is copied to the non-record area.
    NotRecord,
    /// The record was transformed and handed to the write stage.
    Transformed,
    /// The transformation failed: the file is copied to the failed area.
    Failed,
    /// The subject is not in the mapping table: nothing is written.
    Skipped,
}

/// The counters of a run: files seen, failed, and not records.
#[derive(Debug)]
pub struct RunCounters {
    pub total: u64,
    pub failed: u64,
    pub non_record: u64,
}

impl RunCounters {
    pub open spec fn wf(&self) -> bool {
        self.failed + self.non_record <= self.total
    }

    /// All counters at zero.
    pub fn new() -> (r: RunCounters)
        ensures
            r.wf(),
            r.total == 0 && r.failed == 0 && r.non_record == 0,
    {
        RunCounters { total: 0, failed: 0, non_record: 0 }
    }

    /// Counts one file with outcome `outcome`.
    pub fn count(&mut self, outcome: FileOutcome)
        requires
            old(self).wf(),
            old(self).total < u64::MAX,
        ensures
            final(self).wf(),
            final(self).total == old(self).total + 1,
            final(self).failed == old(self).failed + (if outcome == FileOutcome::Failed { 1int } else { 0int }),
            final(self).non_record == old(self).non_record + (if outcome == FileOutcome::NotRecord {
                1int
            } else {
                0int
            }),
    {
        self.total = self.total + 1;
        match outcome {
            FileOutcome::Failed => self.failed = self.failed + 1,
            FileOutcome::NotRecord => self.non_record = self.non_record + 1,
            _ => {},
        }
    }

    /// The end-of-run summary of these counters.
    pub fn summary(&self, action: String) -> (r: RunSummary)
        requires
            self.wf(),
        ensures
            r.total == self.total,
            r.failed == self.failed,
            r.non_record == self.non_record,
            r.processed == self.total - self.failed - self.non_record,
            r.action@ == action@,
    {
        print_status(self.total, self.failed, self.non_record, action)
    }
}

/// The text of the field `t` of `rec`, if present and textual.
pub open spec fn field_text(rec: Seq<crate::record::Element>, t: Tag) -> Option<Seq<char>> {
    match lookup(rec, t) {
        Some(e) => value_text(e.value),
        None => None,
    }
}

/// Reads the text of the field `t`.
pub fn read_field_text(rec: &Record, t: Tag) -> (r: Result<String, TransformError>)
    requires
        rec.wf(),
    ensures
        r matches Ok(s) ==> field_text(rec.elements@, t) == Some(s@),
        r is Err <==> field_text(rec.elements@, t) is None,
        r matches Err(e) ==> (e is MissingField <==> lookup(rec.elements@, t) is None) && (e is MissingField
            || e is NotText),
{
    match rec.get(t) {
        Some(e) => match element_text(e) {
            Some(text) => Ok(string_of(&text)),
            None => Err(TransformError::NotText),
        },
        None => Err(TransformError::MissingField),
    }
}

pub open spec fn patient_id_tag() -> Tag {
    Tag { group: 0x0010, element: 0x0020 }
}

/// What anonymizing reports, given the record `r3` reached before the
/// identifier remap: success exactly when its identifiers can be remapped,
/// and then the remapped record with the identity `id`.
pub open spec fn anon_result(a: Record, r3: Record, id: Seq<char>, r: Result<(Record, String), TransformError>) -> bool {
    &&& (r is Ok <==> uids_remappable(r3.elements@))
    &&& (r matches Ok(out) ==> out.1@ == id && out.0.wf() && uids_remapped(r3.elements@, out.0.elements@, 4))
}

/// The record `a` anonymized with identity `id` gives the report `r`.
pub open spec fn anon_outcome(a: Record, id: Seq<char>, r: Result<(Record, String), TransformError>) -> bool {
    exists|r1: Record, r2: Record, r3: Record|
        #[trigger] anon_prefix_steps(a, r1, r2, r3, id) && anon_result(a, r3, id, r)
}

/// Anonymizes one record: looks up (or creates) the substitute identity of
/// its patient identifier, masks identity fields, scrubs dates and times,
/// purges private fields and remaps unique identifiers.
pub fn anon_each_dcm_file(dcm_obj: Record, registry: &mut IdRegistry, anon_prefix: &String) -> (r: Result<
    (Record, String),
    TransformError,
>)
    requires
        dcm_obj.wf(),
        old(registry).wf(),
    ensures
        final(registry).wf(),
        field_text(dcm_obj.elements@, patient_id_tag()) is None ==> r is Err && final(registry)@ == old(registry)@,
        field_text(dcm_obj.elements@, patient_id_tag()) matches Some(key) ==> {
            &&& exists|id: Seq<char>| registry_step(old(registry)@, key, id, final(registry)@)
            &&& !old(registry)@.contains_key(key) ==> is_substitute_for(anon_prefix@, final(registry)@[key])
            &&& anon_outcome(dcm_obj, final(registry)@[key], r)
        },
        r matches Err(e) ==> e is MissingField || e is NotText || e is ShortUid,
{
    let key = match read_field_text(&dcm_obj, Tag { group: 0x0010, element: 0x0020 }) {
        Ok(k) => k,
        Err(e) => return Err(e),
    };
    let id = registry.get_or_create(&key, anon_prefix);
    assert(registry@.contains_key(key@) && registry@[key@] == id@);
    assert(registry_step(old(registry)@, key@, id@, registry@));
    let masked = mask_tags_with_id(dcm_obj, &id);
    let ghost r1 = masked;
    let scrubbed = dicom_anon_date_time(masked);
    let ghost r2 = scrubbed;
    let purged = delete_private_tags(scrubbed);
    let ghost r3 = purged;
    assert(anon_prefix_steps(dcm_obj, r1, r2, r3, registry@[key@]));
    match anon_dicom_uids(purged) {
        Ok(rec) => {
            proof {
                crate::fields::lemma_uids_wf(rec);
            }
            let r: Result<(Record, String), TransformError> = Ok((rec, id));
            assert(anon_result(dcm_obj, r3, registry@[key@], r));
            assert(anon_outcome(dcm_obj, registry@[key@], r));
            r
        },
        Err(e) => {
            let r: Result<(Record, String), TransformError> = Err(e);
            assert(anon_result(dcm_obj, r3, registry@[key@], r));
            assert(anon_outcome(dcm_obj, registry@[key@], r));
            r
        },
    }
}

/// What deidentifying a record did.
#[derive(Debug)]
pub enum DeidOutcome {
    /// The subject is not in the mapping table: the record is left out.
    Skipped,
    /// The transformed record.
    Transformed(Record),
}

/// `out` is `a` after the rules, in their fixed order, with substitute identity `id`.
pub open spec fn deid_chain(a: Record, out: Record, rules: &Rules, id: Seq<char>) -> bool {
    exists|r1: Record, r2: Record, r3: Record, r4: Record| #[trigger] deid_steps(a, r1, r2, r3, r4, out, rules, id)
}

/// The intermediate records `r1` to `r4` of the rule chain from `a` to `out`.
pub open spec fn deid_steps(a: Record, r1: Record, r2: Record, r3: Record, r4: Record, out: Record, rules: &Rules, id: Seq<char>) -> bool {
        {
            &&& (if rules.delete_private {
                exists|p: Record|
                    purged(a, p) && r1.elements@ == remove_spec(p.elements@, spec_original_attributes_sequence())
            } else {
                r1 == a
            })
            &&& (if rules.mask_tags@.len() > 0 {
                masked_fields(r1.elements@, r2.elements@, rules.mask_tags@, id, rules.mask_tags@.len() as int)
            } else {
                r2 == r1
            })
            &&& (if rules.mask_vrs@.len() > 0 {
                masked_vrs(r2, r3, rules.mask_vrs@, Plain::Texts(seq![id]))
            } else {
                r3 == r2
            })
            &&& (if rules.add_tags@.len() > 0 {
                added_fields(r3.elements@, r4.elements@, pair_views(rules.add_tags@), rules.add_tags@.len() as int)
            } else {
                r4 == r3
            })
            &&& (if rules.delete_tags@.len() > 0 {
                deleted_fields(r4.elements@, out.elements@, rules.delete_tags@)
            } else {
                out == r4
            })
        }
}

/// `out` is `a` deidentified with the identity that `mapping` gives its subject.
pub open spec fn deid_done(a: Record, out: Record, rules: &Rules, mapping: Map<Seq<char>, Seq<char>>) -> bool {
    match field_text(a.elements@, rules.match_id.tag) {
        Some(key) => mapping.contains_key(key) && deid_chain(a, out, rules, mapping[key]),
        None => false,
    }
}

/// The subject of `a` is mapped to a non-empty identity that every masked
/// field type accepts, and every added literal is valid: the record must be
/// transformed.
pub open spec fn deid_owed(a: Record, rules: &Rules, mapping: Map<Seq<char>, Seq<char>>) -> bool {
    match field_text(a.elements@, rules.match_id.tag) {
        Some(key) => mapping.contains_key(key) && mapping[key].len() > 0 && add_possible(pair_views(rules.add_tags@))
            && forall|k: int|
            0 <= k < rules.mask_tags@.len() ==> typed_value_exists(#[trigger] rules.mask_tags@[k].vr, mapping[key]),
        None => false,
    }
}

/// Deidentifies one record against the mapping table: a subject missing from
/// the table (or mapped to nothing) is skipped; otherwise the rules apply in
/// the fixed order purge, mask fields, mask types, add, delete.
pub fn deid_each_dcm_file(dcm_obj: Record, mapping_dict: &StrMap, rules: &Rules) -> (r: Result<DeidOutcome, TransformError>)
    requires
        dcm_obj.wf(),
        mapping_dict.wf(),
    ensures
        field_text(dcm_obj.elements@, rules.match_id.tag) is None ==> r is Err,
        field_text(dcm_obj.elements@, rules.match_id.tag) matches Some(key) ==> {
            &&& (!mapping_dict@.contains_key(key) || mapping_dict@[key].len() == 0) ==> (r matches Ok(
                DeidOutcome::Skipped,
            ))
            &&& (r matches Ok(DeidOutcome::Skipped)) ==> (!mapping_dict@.contains_key(key)
                || mapping_dict@[key].len() == 0)
        },
        r matches Ok(DeidOutcome::Transformed(out)) ==> out.wf() && deid_done(dcm_obj, out, rules, mapping_dict@),
        deid_owed(dcm_obj, rules, mapping_dict@) ==> (r matches Ok(DeidOutcome::Transformed(_))),
{
    let key = match read_field_text(&dcm_obj, rules.match_id.tag) {
        Ok(k) => k,
        Err(e) => return Err(e),
    };
    let patient_deid = match mapping_dict.get(key.as_str()) {
        Some(id) => id,
        None => return Ok(DeidOutcome::Skipped),
    };
    if patient_deid.unicode_len() == 0 {
        return Ok(DeidOutcome::Skipped);
    }
    let ghost a = dcm_obj;
    let mut rec = dcm_obj;
    if rules.delete_private {
        rec = delete_private_tags(rec);
    }
    let ghost r1 = rec;
    if rules.mask_tags.len() > 0 {
        rec = match tags_to_mask(rec, &patient_deid, &rules.mask_tags) {
            Ok(m) => m,
            Err(e) => {
                proof {
                    if forall|k: int|
                        0 <= k < rules.mask_tags@.len() ==> typed_value_exists(
                            #[trigger] rules.mask_tags@[k].vr,
                            patient_deid@,
                        ) {
                        lemma_mask_possible(r1.elements@, rules.mask_tags@, patient_deid@);
                    }
                }
                return Err(e);
            },
        };
        proof {
            crate::fields::lemma_uids_wf(rec);
        }
    }
    let ghost r2 = rec;
    if rules.mask_vrs.len() > 0 {
        rec = mask_vr(rec, &rules.mask_vrs, &patient_deid);
        proof {
            crate::anon::lemma_masked_keeps_tags(r2, rec, rules.mask_vrs@, Plain::Texts(seq![patient_deid@]));
        }
    }
    let ghost r3 = rec;
    if rules.add_tags.len() > 0 {
        rec = match tags_to_add(rec, &rules.add_tags) {
            Ok(m) => m,
            Err(e) => return Err(e),
        };
        proof {
            crate::fields::lemma_uids_wf(rec);
        }
    }
    let ghost r4 = rec;
    if rules.delete_tags.len() > 0 {
        rec = tags_to_delete(rec, &rules.delete_tags);
        proof {
            crate::fields::lemma_uids_wf(rec);
        }
    }
    assert(deid_steps(a, r1, r2, r3, r4, rec, rules, patient_deid@));
    Ok(DeidOutcome::Transformed(rec))
}

proof fn lemma_mask_possible(old: Seq<crate::record::Element>, list: Seq<crate::dict::DictEntry>, id: Seq<char>)
    requires
        forall|k: int| 0 <= k < list.len() ==> typed_value_exists(#[trigger] list[k].vr, id),
    ensures
        mask_possible(old, list, id),
{
    assert forall|k: int| 0 <= k < list.len() && has_tag(old, #[trigger] list[k].tag) implies typed_value_exists(
        list[k].vr,
        id,
    ) by {
        assert(typed_value_exists(list[k].vr, id));
    }
}

/// The last pair naming a tag comes at or after any pair naming it.
proof fn lemma_last_add_at_least(pairs: Seq<(Seq<char>, Seq<char>)>, t: Tag, n: int, j: int)
    requires
        0 <= j < n <= pairs.len(),
        entry_of(pairs[j].0) matches Some(e) && e.tag == t,
    ensures
        j <= last_add_for(pairs, t, n) < n,
        entry_of(pairs[last_add_for(pairs, t, n)].0) matches Some(e) && e.tag == t,
    decreases n,
{
    if n - 1 != j {
        if entry_of(pairs[n - 1].0) matches Some(e) && e.tag == t {
        } else {
            lemma_last_add_at_least(pairs, t, n - 1, j);
        }
    }
}

/// Rules apply as mask, then add, then delete: a field named by an add rule
/// ends with the literal of the last add rule naming it, whether or not it
/// was masked, and a delete rule for it removes it.
pub proof fn law_rule_ordering(
    a: Record,
    r1: Record,
    r2: Record,
    r3: Record,
    r4: Record,
    out: Record,
    rules: &Rules,
    id: Seq<char>,
    j: int,
)
    requires
        deid_steps(a, r1, r2, r3, r4, out, rules, id),
        0 <= j < rules.add_tags@.len(),
        entry_of(rules.add_tags@[j].0@) is Some,
    ensures
        ({
            let pairs = pair_views(rules.add_tags@);
            let f = entry_of(rules.add_tags@[j].0@)->Some_0;
            let k = last_add_for(pairs, f.tag, rules.add_tags@.len() as int);
            &&& j <= k < rules.add_tags@.len()
            &&& lookup(r4.elements@, f.tag) matches Some(y) && entry_of(pairs[k].0) == Some(
                DictEntry { tag: f.tag, vr: y.vr },
            ) && is_typed_value(y.vr, pairs[k].1, y.value)
            &&& (exists|d: int| 0 <= d < rules.delete_tags@.len() && #[trigger] rules.delete_tags@[d].tag == f.tag)
                ==> lookup(out.elements@, f.tag) is None
            &&& !(exists|d: int| 0 <= d < rules.delete_tags@.len() && #[trigger] rules.delete_tags@[d].tag == f.tag)
                ==> lookup(out.elements@, f.tag) == lookup(r4.elements@, f.tag)
        }),
{
    let pairs = pair_views(rules.add_tags@);
    let f = entry_of(rules.add_tags@[j].0@)->Some_0;
    let n = rules.add_tags@.len() as int;
    assert(pairs[j] == (rules.add_tags@[j].0@, rules.add_tags@[j].1@));
    lemma_last_add_at_least(pairs, f.tag, n, j);
    let _ = last_add_for(pairs, f.tag, n);
    if rules.delete_tags@.len() == 0 {
        assert(!(exists|d: int| 0 <= d < rules.delete_tags@.len() && #[trigger] rules.delete_tags@[d].tag == f.tag));
    } else {
        let _ = lookup(out.elements@, f.tag);
    }
}

/// A value error means a literal of the rule set is malformed: the whole run
/// must stop. Any other error concerns one file, which goes to the failed area.
pub fn is_configuration_error(e: &TransformError) -> (r: bool)
    ensures
        r == (*e is Value),
{
    match e {
        TransformError::Value(_) => true,
        _ => false,
    }
}

/// A literal typed for a non-date field holds exactly that literal.
proof fn lemma_typed_plain(vr: Vr, s: Seq<char>, v: Value)
    requires
        is_typed_value(vr, s, v),
        vr != Vr::DA && vr != Vr::TM && vr != Vr::DT,
    ensures
        plain_of(v) == (if is_string_list_vr(vr) { Plain::Texts(seq![s]) } else { Plain::Text(s) }),
        !(v is Items),
{
    if is_string_list_vr(vr) {
        let l = v->Strs_0;
        assert(crate::text::views(l@) =~= seq![s]);
    }
}

/// In an anonymized record every identity-bearing field holds the substitute
/// identity, typed for the field.
pub proof fn lemma_anon_identity_field(a: Record, id: Seq<char>, r: Result<(Record, String), TransformError>, k: int)
    requires
        a.wf(),
        anon_outcome(a, id, r),
        r is Ok,
        0 <= k < 9,
    ensures
        ({
            let f = identity_fields()[k];
            lookup(r->Ok_0.0.elements@, f.tag) matches Some(y) && y.vr == f.vr && plain_of(y.value) == (
            if is_string_list_vr(f.vr) {
                Plain::Texts(seq![id])
            } else {
                Plain::Text(id)
            })
        }),
{
    let out = r->Ok_0.0;
    let (r1, r2, r3) = choose|r1: Record, r2: Record, r3: Record|
        #[trigger] anon_prefix_steps(a, r1, r2, r3, id) && anon_result(a, r3, id, r);
    let f = identity_fields()[k];
    let t = f.tag;
    let list = identity_fields();
    // identity masking
    let m = choose|m: Record|
        masked_vrs(a, m, seq![Vr::PN], Plain::Texts(seq![id])) && set_fields(m.elements@, r1.elements@, list, id, 9);
    reveal_with_fuel(last_entry_for, 10);
    assert(last_entry_for(list, t, 9) == k);
    let y1 = lookup(r1.elements@, t)->Some_0;
    assert(lookup(r1.elements@, t) matches Some(y) && y.vr == f.vr && is_typed_value(f.vr, id, y.value));
    lemma_typed_plain(f.vr, id, y1.value);
    // scrub
    let (sa, sb, sc) = choose|sa: Record, sb: Record, sc: Record|
        {
            &&& masked_vrs(r1, sa, seq![Vr::DA], Plain::Date(epoch_date()))
            &&& masked_vrs(sa, sb, seq![Vr::TM], Plain::Time(epoch_time()))
            &&& masked_vrs(sb, sc, seq![Vr::DT], Plain::DateTime(epoch_date(), epoch_time()))
            &&& forall|u: Tag|
                u != patient_age_tag() && u != patient_sex_tag() ==> #[trigger] lookup(r2.elements@, u)
                    == lookup(sc.elements@, u)
        };
    assert(r1.wf());
    lemma_masked_lookup(r1, sa, seq![Vr::DA], Plain::Date(epoch_date()), t);
    assert(!seq![Vr::DA].contains(f.vr));
    lemma_masked_lookup(sa, sb, seq![Vr::TM], Plain::Time(epoch_time()), t);
    assert(!seq![Vr::TM].contains(f.vr));
    lemma_masked_lookup(sb, sc, seq![Vr::DT], Plain::DateTime(epoch_date(), epoch_time()), t);
    assert(!seq![Vr::DT].contains(f.vr));
    assert(t != patient_age_tag() && t != patient_sex_tag());
    assert(lookup(r2.elements@, t) == lookup(r1.elements@, t));
    // private purge
    let p = choose|p: Record|
        purged(r2, p) && r3.elements@ == remove_spec(p.elements@, spec_original_attributes_sequence());
    lemma_purged_lookup(r2, p, t);
    crate::record::lemma_remove_lookup(p.elements@, spec_original_attributes_sequence());
    assert(t != spec_original_attributes_sequence());
    assert(lookup(r3.elements@, t) == lookup(r1.elements@, t));
    // identifier remap
    assert(forall|q: int| 0 <= q < 4 ==> uid_tags()[q] != t);
    assert(lookup(out.elements@, t) == lookup(r3.elements@, t));
}

/// Records anonymized with the same substitute identity (as the registry
/// gives to every record of one subject) carry byte-identical values in
/// every identity-bearing field.
pub proof fn law_anon_identity_fields(
    a1: Record,
    a2: Record,
    id: Seq<char>,
    r1: Result<(Record, String), TransformError>,
    r2: Result<(Record, String), TransformError>,
    k: int,
)
    requires
        a1.wf(),
        a2.wf(),
        anon_outcome(a1, id, r1),
        anon_outcome(a2, id, r2),
        r1 is Ok,
        r2 is Ok,
        0 <= k < 9,
    ensures
        lookup(r1->Ok_0.0.elements@, identity_fields()[k].tag) matches Some(y1) && lookup(
            r2->Ok_0.0.elements@,
            identity_fields()[k].tag,
        ) matches Some(y2) && y1.vr == y2.vr && plain_of(y1.value) == plain_of(y2.value),
{
    lemma_anon_identity_field(a1, id, r1, k);
    lemma_anon_identity_field(a2, id, r2, k);
}

/// In an anonymized record, a public top-level date field that is neither an
/// identity nor an identifier field holds the fixed epoch date 1900-01-01
/// (for instance the study date).
pub proof fn law_anon_date_scrubbed(a: Record, id: Seq<char>, r: Result<(Record, String), TransformError>, t: Tag)
    requires
        a.wf(),
        anon_outcome(a, id, r),
        r is Ok,
        lookup(a.elements@, t) matches Some(x) && x.vr == Vr::DA && !(x.value is Items),
        !t.spec_is_private(),
        forall|k: int| 0 <= k < 9 ==> identity_fields()[k].tag != t,
        forall|k: int| 0 <= k < 4 ==> uid_tags()[k] != t,
        t != spec_original_attributes_sequence(),
        t != patient_age_tag(),
        t != patient_sex_tag(),
    ensures
        lookup(r->Ok_0.0.elements@, t) matches Some(y) && y.vr == Vr::DA && plain_of(y.value) == Plain::Date(
            epoch_date(),
        ),
{
    let out = r->Ok_0.0;
    let (r1, r2, r3) = choose|r1: Record, r2: Record, r3: Record|
        #[trigger] anon_prefix_steps(a, r1, r2, r3, id) && anon_result(a, r3, id, r);
    let list = identity_fields();
    let m = choose|m: Record|
        masked_vrs(a, m, seq![Vr::PN], Plain::Texts(seq![id])) && set_fields(m.elements@, r1.elements@, list, id, 9);
    lemma_masked_lookup(a, m, seq![Vr::PN], Plain::Texts(seq![id]), t);
    assert(!seq![Vr::PN].contains(Vr::DA));
    reveal_with_fuel(last_entry_for, 10);
    assert(last_entry_for(list, t, 9) == -1);
    assert(lookup(r1.elements@, t) == lookup(a.elements@, t));
    let (sa, sb, sc) = choose|sa: Record, sb: Record, sc: Record|
        {
            &&& masked_vrs(r1, sa, seq![Vr::DA], Plain::Date(epoch_date()))
            &&& masked_vrs(sa, sb, seq![Vr::TM], Plain::Time(epoch_time()))
            &&& masked_vrs(sb, sc, seq![Vr::DT], Plain::DateTime(epoch_date(), epoch_time()))
            &&& forall|u: Tag|
                u != patient_age_tag() && u != patient_sex_tag() ==> #[trigger] lookup(r2.elements@, u)
                    == lookup(sc.elements@, u)
        };
    lemma_masked_lookup(r1, sa, seq![Vr::DA], Plain::Date(epoch_date()), t);
    assert(seq![Vr::DA][0] == Vr::DA);
    assert(seq![Vr::DA].contains(Vr::DA));
    let y = lookup(sa.elements@, t)->Some_0;
    assert(y.value is Date);
    lemma_masked_lookup(sa, sb, seq![Vr::TM], Plain::Time(epoch_time()), t);
    assert(!seq![Vr::TM].contains(Vr::DA));
    lemma_masked_lookup(sb, sc, seq![Vr::DT], Plain::DateTime(epoch_date(), epoch_time()), t);
    assert(!seq![Vr::DT].contains(Vr::DA));
    assert(lookup(r2.elements@, t) == Some(y));
    let p = choose|p: Record|
        purged(r2, p) && r3.elements@ == remove_spec(p.elements@, spec_original_attributes_sequence());
    lemma_purged_lookup(r2, p, t);
    crate::record::lemma_remove_lookup(p.elements@, spec_original_attributes_sequence());
    assert(lookup(out.elements@, t) == Some(y));
}

/// What a value of type `vr` written by the text `s` holds.
pub open spec fn typed_plain(vr: Vr, s: Seq<char>) -> Plain {
    if is_string_list_vr(vr) {
        Plain::Texts(seq![s])
    } else if vr == Vr::DA {
        Plain::Date(parse_date(s)->Some_0)
    } else if vr == Vr::TM {
        Plain::Time(parse_time(s)->Some_0)
    } else if vr == Vr::DT {
        Plain::DateTime(parse_date_time(s)->Some_0.0, parse_date_time(s)->Some_0.1)
    } else {
        Plain::Text(s)
    }
}

proof fn lemma_typed_value_plain(vr: Vr, s: Seq<char>, v: Value)
    requires
        is_typed_value(vr, s, v),
    ensures
        plain_of(v) == typed_plain(vr, s),
        !(v is Items),
{
    if is_string_list_vr(vr) {
        let l = v->Strs_0;
        assert(crate::text::views(l@) =~= seq![s]);
    }
}

/// The value a deidentification leaves in the masked field `t`: the
/// identity typed for the last mask entry naming `t`, or the one-string list
/// of the identity when that type is also masked by type.
pub open spec fn deid_masked_plain(rules: &Rules, t: Tag, id: Seq<char>) -> Plain {
    let vr = rules.mask_tags@[last_entry_for(rules.mask_tags@, t, rules.mask_tags@.len() as int)].vr;
    if rules.mask_vrs@.contains(vr) {
        Plain::Texts(seq![id])
    } else {
        typed_plain(vr, id)
    }
}

/// A masked field that no add or delete rule names holds, after
/// deidentification, a value fixed by the rules and the mapped identity alone:
/// every record of one subject gets the same bytes there.
pub proof fn law_deid_masked_field(
    a: Record,
    out: Record,
    rules: &Rules,
    mapping: Map<Seq<char>, Seq<char>>,
    k: int,
)
    requires
        a.wf(),
        deid_done(a, out, rules, mapping),
        0 <= k < rules.mask_tags@.len(),
        lookup(a.elements@, rules.mask_tags@[k].tag) matches Some(x) && !x.tag.spec_is_private() && !(
        x.value is Items),
        rules.mask_tags@[k].tag != spec_original_attributes_sequence(),
        last_add_for(pair_views(rules.add_tags@), rules.mask_tags@[k].tag, rules.add_tags@.len() as int) < 0,
        forall|d: int| 0 <= d < rules.delete_tags@.len() ==> rules.delete_tags@[d].tag != rules.mask_tags@[k].tag,
    ensures
        ({
            let t = rules.mask_tags@[k].tag;
            let id = mapping[field_text(a.elements@, rules.match_id.tag)->Some_0];
            lookup(out.elements@, t) matches Some(y) && plain_of(y.value) == deid_masked_plain(rules, t, id)
        }),
{
    let t = rules.mask_tags@[k].tag;
    let key = field_text(a.elements@, rules.match_id.tag)->Some_0;
    let id = mapping[key];
    let (r1, r2, r3, r4) = choose|r1: Record, r2: Record, r3: Record, r4: Record|
        #[trigger] deid_steps(a, r1, r2, r3, r4, out, rules, id);
    // private purge
    if rules.delete_private {
        let p = choose|p: Record|
            purged(a, p) && r1.elements@ == remove_spec(p.elements@, spec_original_attributes_sequence());
        lemma_purged_lookup(a, p, t);
        crate::record::lemma_remove_lookup(p.elements@, spec_original_attributes_sequence());
        crate::fields::lemma_uids_wf(r1);
    }
    assert(lookup(r1.elements@, t) == lookup(a.elements@, t));
    // mask by reference
    let n = rules.mask_tags@.len() as int;
    lemma_last_entry_at_least(rules.mask_tags@, t, n, k);
    let kk = last_entry_for(rules.mask_tags@, t, n);
    assert(crate::record::has_tag(r1.elements@, t));
    let y2 = lookup(r2.elements@, t)->Some_0;
    lemma_typed_value_plain(rules.mask_tags@[kk].vr, id, y2.value);
    crate::fields::lemma_uids_wf(r2);
    // mask by type
    if rules.mask_vrs@.len() > 0 {
        lemma_masked_lookup(r2, r3, rules.mask_vrs@, Plain::Texts(seq![id]), t);
    }
    // add and delete
    let pairs = pair_views(rules.add_tags@);
    assert(lookup(r4.elements@, t) == lookup(r3.elements@, t));
    if rules.delete_tags@.len() > 0 {
        assert(!(exists|d: int| 0 <= d < rules.delete_tags@.len() && #[trigger] rules.delete_tags@[d].tag == t));
    }
}

/// The last mask entry naming a tag comes at or after any entry naming it.
proof fn lemma_last_entry_at_least(list: Seq<crate::dict::DictEntry>, t: Tag, n: int, j: int)
    requires
        0 <= j < n <= list.len(),
        list[j].tag == t,
    ensures
        j <= last_entry_for(list, t, n) < n,
        list[last_entry_for(list, t, n)].tag == t,
    decreases n,
{
    if n - 1 != j && list[n - 1].tag != t {
        lemma_last_entry_at_least(list, t, n - 1, j);
    }
}

} // verus!
