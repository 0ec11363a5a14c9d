use dcmrig::anon::{anon_dicom_uids, dicom_anon_date_time, mask_tags_with_id, remap_uid};
use dcmrig::cookbook::{
    check_valid_tag_hashmap, check_valid_tag_vec, check_valid_vr_vec, rules_from_cookbook, AddTags,
    CookBook, DelTags, MaskTags, MatchIDTag, Rules,
};
use dcmrig::dict::{extract_tag_vr_from_str, parse_vr, DictEntry, RuleError};
use dcmrig::fields::{delete_private_tags, tags_to_add, tags_to_delete, tags_to_mask, TransformError};
use dcmrig::naming::{
    check_if_dup_exists, failed_case_path, first_free_path, generate_dicom_file_name, generate_dicom_file_path,
    get_sanitized_tag_values, non_dicom_path, replace_non_alphanumeric, TagValues,
};
use dcmrig::pipeline::{
    anon_each_dcm_file, deid_each_dcm_file, is_configuration_error, print_status, DeidOutcome, FileOutcome, RunCounters,
};
use dcmrig::record::{DateParts, Element, Record, Tag, TimeParts, Value, Vr};
use dcmrig::registry::{gen_id, generate_mapping_dict, IdRegistry, StrMap};
use dcmrig::sort::{generate_order_level, generate_sort_order, sort_dir_path};
use dcmrig::transform::{mask_all_vr, mask_vr, purge_private};
use dcmrig::value::{dicom_vr_corrected_value, element_text, ValueError};

fn tag(group: u16, element: u16) -> Tag {
    Tag { group, element }
}

fn text(s: &str) -> Value {
    Value::Strs(vec![s.to_string()])
}

fn elem(group: u16, element: u16, vr: Vr, value: Value) -> Element {
    Element { tag: tag(group, element), vr, value }
}

fn record(elements: Vec<Element>) -> Record {
    let mut r = Record::new();
    for e in elements {
        r.put(e);
    }
    r
}

fn text_of(r: &Record, group: u16, element: u16) -> Option<String> {
    r.get(tag(group, element))
        .and_then(|e| element_text(e))
        .map(|v| v.into_iter().collect())
}

fn subject_record(patient_id: &str, study_uid: &str, series_uid: &str) -> Record {
    record(vec![
        elem(0x0010, 0x0020, Vr::LO, text(patient_id)),
        elem(0x0010, 0x0010, Vr::PN, text("Doe^John")),
        elem(0x0008, 0x0020, Vr::DA, text("20230101")),
        elem(0x0008, 0x0030, Vr::TM, text("101010")),
        elem(0x0008, 0x0060, Vr::CS, text("MR")),
        elem(0x0008, 0x0018, Vr::UI, text("1.2.840.1.2.3.4.5.6.7.8")),
        elem(0x0020, 0x000D, Vr::UI, text(study_uid)),
        elem(0x0020, 0x000E, Vr::UI, text(series_uid)),
        elem(0x0020, 0x0052, Vr::UI, text("9.9.9.1.2.3.4.5.6.7.8")),
        elem(0x0009, 0x0010, Vr::LO, text("vendor")),
    ])
}

#[test]
fn corrected_value_string_list() {
    match dicom_vr_corrected_value(Vr::PN, &"ANON_1".to_string()) {
        Ok(Value::Strs(v)) => assert_eq!(v, vec!["ANON_1".to_string()]),
        other => panic!("unexpected {:?}", other),
    }
}

#[test]
fn corrected_value_free_text() {
    match dicom_vr_corrected_value(Vr::LT, &"some text".to_string()) {
        Ok(Value::Str(s)) => assert_eq!(s, "some text"),
        other => panic!("unexpected {:?}", other),
    }
}

#[test]
fn corrected_value_date() {
    match dicom_vr_corrected_value(Vr::DA, &"19000101".to_string()) {
        Ok(Value::Date(d)) => assert_eq!(d, DateParts { year: 1900, month: 1, day: 1 }),
        other => panic!("unexpected {:?}", other),
    }
    assert!(matches!(dicom_vr_corrected_value(Vr::DA, &"20240229".to_string()), Ok(Value::Date(_))));
}

#[test]
fn corrected_value_bad_dates() {
    assert!(matches!(dicom_vr_corrected_value(Vr::DA, &"2023011".to_string()), Err(ValueError::Date)));
    assert!(matches!(dicom_vr_corrected_value(Vr::DA, &"20230230".to_string()), Err(ValueError::Date)));
    assert!(matches!(dicom_vr_corrected_value(Vr::DA, &"20231301".to_string()), Err(ValueError::Date)));
    assert!(matches!(dicom_vr_corrected_value(Vr::DA, &"2023-1-1".to_string()), Err(ValueError::Date)));
}

#[test]
fn corrected_value_time() {
    match dicom_vr_corrected_value(Vr::TM, &"090000".to_string()) {
        Ok(Value::Time(t)) => assert_eq!(t, TimeParts { hour: 9, minute: 0, second: 0 }),
        other => panic!("unexpected {:?}", other),
    }
    assert!(matches!(dicom_vr_corrected_value(Vr::TM, &"250000".to_string()), Err(ValueError::Time)));
    assert!(matches!(dicom_vr_corrected_value(Vr::TM, &"0900".to_string()), Err(ValueError::Time)));
}

#[test]
fn corrected_value_date_time() {
    match dicom_vr_corrected_value(Vr::DT, &"19000101T090000".to_string()) {
        Ok(Value::DateTime(d, t)) => {
            assert_eq!(d, DateParts { year: 1900, month: 1, day: 1 });
            assert_eq!(t, TimeParts { hour: 9, minute: 0, second: 0 });
        }
        other => panic!("unexpected {:?}", other),
    }
    assert!(matches!(
        dicom_vr_corrected_value(Vr::DT, &"19000101090000".to_string()),
        Err(ValueError::DateTime)
    ));
}

#[test]
fn dictionary_lookup_known_and_unknown() {
    let e = extract_tag_vr_from_str(&"PatientID".to_string()).unwrap();
    assert_eq!(e, DictEntry { tag: tag(0x0010, 0x0020), vr: Vr::LO });
    let e = extract_tag_vr_from_str(&"PatientName".to_string()).unwrap();
    assert_eq!(e, DictEntry { tag: tag(0x0010, 0x0010), vr: Vr::PN });
    assert_eq!(extract_tag_vr_from_str(&"NotAField".to_string()), Err(RuleError::UnknownField));
}

#[test]
fn vr_names() {
    assert_eq!(parse_vr(&"PN".to_string()), Some(Vr::PN));
    assert_eq!(parse_vr(&"DA".to_string()), Some(Vr::DA));
    assert_eq!(parse_vr(&"pn".to_string()), None);
    assert_eq!(parse_vr(&"XX".to_string()), None);
}

#[test]
fn invalid_rule_entries_are_dropped() {
    let tags = check_valid_tag_vec(vec!["PatientID".to_string(), "Bogus".to_string(), "StudyID".to_string()]);
    assert_eq!(tags.len(), 2);
    assert_eq!(tags[0].tag, tag(0x0010, 0x0020));
    assert_eq!(tags[1].tag, tag(0x0020, 0x0010));
    let vrs = check_valid_vr_vec(vec!["PN".to_string(), "ZZ".to_string()]);
    assert_eq!(vrs, vec![Vr::PN]);
    let adds = check_valid_tag_hashmap(vec![
        ("PatientIdentityRemoved".to_string(), "YES".to_string()),
        ("Nope".to_string(), "x".to_string()),
    ]);
    assert_eq!(adds, vec![("PatientIdentityRemoved".to_string(), "YES".to_string())]);
}

#[test]
fn cookbook_defaults() {
    let rules = rules_from_cookbook(CookBook { matchid: None, mask: None, delete: None, add: None }).unwrap();
    assert_eq!(rules.match_id.tag, tag(0x0010, 0x0020));
    assert!(rules.mask_tags.is_empty());
    assert!(rules.mask_vrs.is_empty());
    assert!(rules.add_tags.is_empty());
    assert!(rules.delete_tags.is_empty());
    assert!(!rules.delete_private);
    assert!(MaskTags::default().tags.is_empty());
    assert!(!DelTags::default().private_tags);
    assert!(AddTags::default().tags.is_empty());
}

#[test]
fn cookbook_match_on_name() {
    let rules = rules_from_cookbook(CookBook {
        matchid: Some(MatchIDTag { tag: "PatientName".to_string() }),
        mask: Some(MaskTags { tags: vec!["PatientID".to_string()], vrs: vec!["PN".to_string()] }),
        delete: Some(DelTags { tags: vec![], private_tags: true }),
        add: None,
    })
    .unwrap();
    assert_eq!(rules.match_id.tag, tag(0x0010, 0x0010));
    assert_eq!(rules.mask_vrs, vec![Vr::PN]);
    assert!(rules.delete_private);
    let rules = rules_from_cookbook(CookBook {
        matchid: Some(MatchIDTag { tag: "Other".to_string() }),
        mask: None,
        delete: None,
        add: None,
    })
    .unwrap();
    assert_eq!(rules.match_id.tag, tag(0x0010, 0x0020));
}

#[test]
fn record_put_replaces_and_remove_deletes() {
    let mut r = record(vec![elem(0x0010, 0x0020, Vr::LO, text("A"))]);
    r.put(elem(0x0010, 0x0020, Vr::LO, text("B")));
    assert_eq!(r.elements.len(), 1);
    assert_eq!(text_of(&r, 0x0010, 0x0020), Some("B".to_string()));
    assert!(r.remove(tag(0x0010, 0x0020)));
    assert!(!r.remove(tag(0x0010, 0x0020)));
    assert!(r.get(tag(0x0010, 0x0020)).is_none());
}

#[test]
fn text_is_trimmed_and_joined() {
    let e = elem(0x0008, 0x0008, Vr::CS, Value::Strs(vec!["DERIVED ".to_string(), "PRIMARY\0".to_string()]));
    let t: String = element_text(&e).unwrap().into_iter().collect();
    assert_eq!(t, "DERIVED\\PRIMARY");
    let d = elem(0x0008, 0x0020, Vr::DA, Value::Date(DateParts { year: 1900, month: 1, day: 1 }));
    let t: String = element_text(&d).unwrap().into_iter().collect();
    assert_eq!(t, "19000101");
}

fn nested(depth: u32) -> Record {
    if depth == 0 {
        record(vec![elem(0x0029, 0x1010, Vr::LO, text("secret")), elem(0x0008, 0x0100, Vr::SH, text("CODE"))])
    } else {
        record(vec![
            elem(0x0008, 0x1140, Vr::SQ, Value::Items(vec![nested(depth - 1)])),
            elem(0x0011, 0x0010, Vr::LO, text("private")),
            elem(0x0020, 0x0013, Vr::IS, text("1")),
        ])
    }
}

fn has_private(r: &Record) -> bool {
    r.elements.iter().any(|e| {
        e.tag.group % 2 == 1
            || match &e.value {
                Value::Items(items) => items.iter().any(has_private),
                _ => false,
            }
    })
}

#[test]
fn private_fields_purged_three_levels_deep() {
    let r = purge_private(nested(3));
    assert!(!has_private(&r));
    let mut level = &r;
    for _ in 0..3 {
        assert_eq!(level.elements.len(), 2);
        assert_eq!(text_of(level, 0x0020, 0x0013), Some("1".to_string()));
        match &level.get(tag(0x0008, 0x1140)).unwrap().value {
            Value::Items(items) => level = &items[0],
            other => panic!("unexpected {:?}", other),
        }
    }
    assert_eq!(level.elements.len(), 1);
    assert_eq!(text_of(level, 0x0008, 0x0100), Some("CODE".to_string()));
}

#[test]
fn delete_private_tags_removes_prior_operations() {
    let mut r = nested(1);
    r.put(elem(0x0400, 0x0561, Vr::SQ, Value::Items(vec![])));
    let out = delete_private_tags(r);
    assert!(!has_private(&out));
    assert!(out.get(tag(0x0400, 0x0561)).is_none());
    assert!(out.get(tag(0x0008, 0x1140)).is_some());
}

#[test]
fn mask_by_type_reaches_nested_records() {
    let inner = record(vec![elem(0x0008, 0x1050, Vr::PN, text("Dr^Who"))]);
    let r = record(vec![
        elem(0x0010, 0x0010, Vr::PN, text("Doe^John")),
        elem(0x0008, 0x1111, Vr::SQ, Value::Items(vec![inner])),
        elem(0x0010, 0x0020, Vr::LO, text("U1")),
    ]);
    let out = mask_vr(r, &vec![Vr::PN], &"X".to_string());
    assert_eq!(text_of(&out, 0x0010, 0x0010), Some("X".to_string()));
    assert_eq!(text_of(&out, 0x0010, 0x0020), Some("U1".to_string()));
    match &out.get(tag(0x0008, 0x1111)).unwrap().value {
        Value::Items(items) => assert_eq!(text_of(&items[0], 0x0008, 0x1050), Some("X".to_string())),
        other => panic!("unexpected {:?}", other),
    }
    let out = mask_all_vr(out, Vr::LO, &text("Y"));
    assert_eq!(text_of(&out, 0x0010, 0x0020), Some("Y".to_string()));
}

#[test]
fn mask_by_reference_skips_absent_fields() {
    let r = record(vec![elem(0x0010, 0x0020, Vr::LO, text("U1"))]);
    let list = vec![
        DictEntry { tag: tag(0x0010, 0x0020), vr: Vr::LO },
        DictEntry { tag: tag(0x0008, 0x0080), vr: Vr::LO },
    ];
    let out = tags_to_mask(r, &"ID9".to_string(), &list).unwrap();
    assert_eq!(out.elements.len(), 1);
    assert_eq!(text_of(&out, 0x0010, 0x0020), Some("ID9".to_string()));
    let dated = record(vec![elem(0x0008, 0x0020, Vr::DA, text("20230101"))]);
    let date_list = vec![DictEntry { tag: tag(0x0008, 0x0020), vr: Vr::DA }];
    assert!(matches!(
        tags_to_mask(dated, &"ID9".to_string(), &date_list),
        Err(TransformError::Value(ValueError::Date))
    ));
}

#[test]
fn add_overrides_mask_and_delete_removes() {
    let r = record(vec![elem(0x0010, 0x0020, Vr::LO, text("U1"))]);
    let list = vec![DictEntry { tag: tag(0x0010, 0x0020), vr: Vr::LO }];
    let masked = tags_to_mask(r, &"ID9".to_string(), &list).unwrap();
    let added = tags_to_add(masked, &vec![("PatientID".to_string(), "LITERAL".to_string())]).unwrap();
    assert_eq!(text_of(&added, 0x0010, 0x0020), Some("LITERAL".to_string()));
    let deleted = tags_to_delete(added, &list);
    assert!(deleted.get(tag(0x0010, 0x0020)).is_none());
}

#[test]
fn add_errors() {
    let r = record(vec![]);
    assert_eq!(
        tags_to_add(r, &vec![("Bogus".to_string(), "x".to_string())]).err(),
        Some(TransformError::UnknownField)
    );
    let r = record(vec![]);
    assert_eq!(
        tags_to_add(r, &vec![("StudyDate".to_string(), "2023".to_string())]).err(),
        Some(TransformError::Value(ValueError::Date))
    );
    let r = record(vec![]);
    let out = tags_to_add(r, &vec![("StudyDate".to_string(), "20230101".to_string())]).unwrap();
    assert!(matches!(out.get(tag(0x0008, 0x0020)).unwrap().value, Value::Date(_)));
}

#[test]
fn identity_masking_sets_markers() {
    let r = subject_record("U1", "1.2.3.4.5.6.7.8.9.10", "1.2.3.4.5.6.7.8.9.11");
    let out = mask_tags_with_id(r, &"SITE1_ABC".to_string());
    assert_eq!(text_of(&out, 0x0010, 0x0020), Some("SITE1_ABC".to_string()));
    assert_eq!(text_of(&out, 0x0010, 0x0010), Some("SITE1_ABC".to_string()));
    assert_eq!(text_of(&out, 0x0012, 0x0062), Some("SITE1_ABC".to_string()));
    assert_eq!(text_of(&out, 0x0012, 0x0063), Some("SITE1_ABC".to_string()));
    assert_eq!(text_of(&out, 0x0008, 0x0080), Some("SITE1_ABC".to_string()));
}

#[test]
fn dates_and_times_scrubbed() {
    let r = subject_record("U1", "1.2.3.4.5.6.7.8.9.10", "1.2.3.4.5.6.7.8.9.11");
    let out = dicom_anon_date_time(r);
    assert_eq!(text_of(&out, 0x0008, 0x0020), Some("19000101".to_string()));
    assert_eq!(text_of(&out, 0x0008, 0x0030), Some("090000".to_string()));
    assert_eq!(text_of(&out, 0x0010, 0x1010), Some("099Y".to_string()));
    assert_eq!(text_of(&out, 0x0010, 0x0040), Some("O".to_string()));
}

#[test]
fn uid_remap_keeps_last_eight() {
    let s: Vec<char> = "1.2.3.4.5.6.7.8.9.10".chars().collect();
    let out: String = remap_uid(&s).unwrap().into_iter().collect();
    assert_eq!(out, "1.2.999.999999.9999.9.9.9.9999.3.4.5.6.7.8.9.10");
    let short: Vec<char> = "1.2.3.4.5.6.7".chars().collect();
    assert!(remap_uid(&short).is_none());
}

#[test]
fn uid_remap_shared_suffix() {
    let r = subject_record("U1", "7.7.1.2.3.4.5.6.7.8", "5.5.5.1.2.3.4.5.6.7.8");
    let out = anon_dicom_uids(r).unwrap();
    let study = text_of(&out, 0x0020, 0x000D).unwrap();
    let series = text_of(&out, 0x0020, 0x000E).unwrap();
    assert_eq!(study, "1.2.999.999999.9999.9.9.9.9999.1.2.3.4.5.6.7.8");
    assert_eq!(series, study);
    assert!(!study.starts_with("7.7."));
    let r = subject_record("U1", "1.2.3", "1.2.3.4.5.6.7.8");
    assert_eq!(anon_dicom_uids(r).err(), Some(TransformError::ShortUid));
}

#[test]
fn mapping_table_parsing() {
    let m = generate_mapping_dict("DEID_001,U1\nbad line\n,U3\nDEID_002 , U2 \r\na,b,c\n");
    assert_eq!(m.get("U1"), Some("DEID_001".to_string()));
    assert_eq!(m.get("U2"), Some("DEID_002".to_string()));
    assert_eq!(m.get("U3"), None);
    assert_eq!(m.get("b"), None);
    assert_eq!(m.entries.len(), 2);
}

#[test]
fn registry_reuses_identity() {
    let mut reg = IdRegistry::new();
    let a = reg.get_or_create(&"U1".to_string(), &"SITE1".to_string());
    let b = reg.get_or_create(&"U2".to_string(), &"SITE1".to_string());
    let c = reg.get_or_create(&"U1".to_string(), &"SITE1".to_string());
    assert_eq!(a, c);
    assert_ne!(a, b);
    assert!(a.starts_with("SITE1_"));
    assert_eq!(a.len(), 16);
    let plain = reg.get_or_create(&"U3".to_string(), &String::new());
    assert_eq!(plain.len(), 10);
}

#[test]
fn generated_ids_are_alphanumeric() {
    let id = gen_id();
    assert_eq!(id.chars().count(), 10);
    assert!(id.chars().all(|c| c.is_ascii_alphanumeric()));
}

#[test]
fn anonymization_scenario() {
    let mut reg = IdRegistry::new();
    let mut ids = Vec::new();
    for k in 0..3u32 {
        let series = format!("1.2.3.4.5.6.7.8.9.{}", k);
        let r = subject_record("U1", "1.2.3.4.5.6.7.8.9.100", &series);
        let (out, id) = anon_each_dcm_file(r, &mut reg, &"SITE1".to_string()).unwrap();
        assert_eq!(text_of(&out, 0x0010, 0x0020), Some(id.clone()));
        assert_eq!(text_of(&out, 0x0008, 0x0020), Some("19000101".to_string()));
        assert!(out.get(tag(0x0009, 0x0010)).is_none());
        ids.push(id);
    }
    assert_eq!(ids[0], ids[1]);
    assert_eq!(ids[1], ids[2]);
    let suffix = ids[0].strip_prefix("SITE1_").unwrap();
    assert_eq!(suffix.chars().count(), 10);
    let summary = print_status(4, 0, 1, "Anon".to_string());
    assert_eq!(summary.total, 4);
    assert_eq!(summary.failed, 0);
    assert_eq!(summary.non_record, 1);
    assert_eq!(summary.processed, 3);
}

#[test]
fn anonymization_without_patient_id_fails() {
    let mut reg = IdRegistry::new();
    let r = record(vec![elem(0x0010, 0x0010, Vr::PN, text("Doe"))]);
    assert_eq!(anon_each_dcm_file(r, &mut reg, &String::new()).err(), Some(TransformError::MissingField));
    assert!(reg.map.entries.is_empty());
}

fn deid_rules() -> Rules {
    Rules {
        match_id: DictEntry { tag: tag(0x0010, 0x0020), vr: Vr::LO },
        mask_tags: vec![DictEntry { tag: tag(0x0010, 0x0020), vr: Vr::LO }],
        mask_vrs: vec![Vr::PN],
        add_tags: vec![("PatientIdentityRemoved".to_string(), "YES".to_string())],
        delete_tags: vec![],
        delete_private: true,
    }
}

#[test]
fn deidentification_scenario() {
    let mapping: StrMap = generate_mapping_dict("DEID_001,U1\n");
    let rules = deid_rules();
    let skipped = deid_each_dcm_file(subject_record("U2", "1.2.3", "1.2.3"), &mapping, &rules).unwrap();
    assert!(matches!(skipped, DeidOutcome::Skipped));
    match deid_each_dcm_file(subject_record("U1", "1.2.3", "1.2.3"), &mapping, &rules).unwrap() {
        DeidOutcome::Transformed(out) => {
            assert_eq!(text_of(&out, 0x0010, 0x0020), Some("DEID_001".to_string()));
            assert_eq!(text_of(&out, 0x0010, 0x0010), Some("DEID_001".to_string()));
            assert_eq!(text_of(&out, 0x0012, 0x0062), Some("YES".to_string()));
            assert_eq!(text_of(&out, 0x0008, 0x0020), Some("20230101".to_string()));
            assert!(out.get(tag(0x0009, 0x0010)).is_none());
        }
        DeidOutcome::Skipped => panic!("U1 is in the table"),
    }
    let missing = record(vec![elem(0x0010, 0x0010, Vr::PN, text("Doe"))]);
    assert_eq!(deid_each_dcm_file(missing, &mapping, &rules).err(), Some(TransformError::MissingField));
}

fn values() -> TagValues {
    TagValues {
        patient_id: " U 1^X ".to_string(),
        patient_name: "Doe^John".to_string(),
        modality: "MR".to_string(),
        study_date: "20230101".to_string(),
        study_time: "101010.123".to_string(),
        series_number: "3".to_string(),
        series_instance_uid: "1.2.3".to_string(),
        study_instance_uid: "1.2.840.123456789".to_string(),
        instance_number: "7".to_string(),
        series_description: " T1 axial-post ".to_string(),
        image_plane: "AX".to_string(),
    }
}

#[test]
fn file_name_format() {
    let mut v = values();
    v.patient_id = " U1 ".to_string();
    assert_eq!(generate_dicom_file_name(&v, "ANON".to_string()), "ANON_U1_MR_20230101T101010_3_1.2.3_00007.dcm");
    v.instance_number = "123456".to_string();
    assert_eq!(generate_dicom_file_name(&v, "DeID".to_string()), "DeID_U1_MR_20230101T101010_3_1.2.3_123456.dcm");
}

#[test]
fn file_path_format() {
    let mut v = values();
    v.study_time = "101010".to_string();
    assert_eq!(generate_dicom_file_path(v, "/out"), "/out/U_1_X/20230101T101010_56789/0003_T1_AXIAL_POST_AX");
    let mut w = values();
    w.study_time = "101010".to_string();
    w.study_instance_uid = "1.2.34".to_string();
    assert_eq!(generate_dicom_file_path(w, "/d"), "/d/U_1_X/20230101T101010_00034/0003_T1_AXIAL_POST_AX");
}

#[test]
fn non_alphanumeric_chars_replaced() {
    assert_eq!(replace_non_alphanumeric("a  b--c!"), "a__b__c_");
    assert_eq!(replace_non_alphanumeric("--"), "__");
    assert_eq!(replace_non_alphanumeric("abc123"), "abc123");
    assert_eq!(replace_non_alphanumeric("é"), "_");
    assert_eq!(replace_non_alphanumeric(""), "");
}

#[test]
fn sanitized_values_with_missing_fields() {
    let r = record(vec![
        elem(0x0010, 0x0020, Vr::LO, text("U1")),
        elem(0x0008, 0x0020, Vr::DA, text("2023-01-01")),
        elem(0x0008, 0x0030, Vr::TM, text("10:10:10")),
    ]);
    let v = get_sanitized_tag_values(&r, "NA".to_string()).unwrap();
    assert_eq!(v.patient_id, "U1");
    assert_eq!(v.study_date, "20230101");
    assert_eq!(v.study_time, "101010");
    assert_eq!(v.modality, "NoValue_Modality");
    assert_eq!(v.series_description, "NoValue_SeriesDescription");
    assert_eq!(v.image_plane, "NA");
    let bad = record(vec![elem(0x0008, 0x0060, Vr::CS, Value::Items(vec![]))]);
    assert_eq!(get_sanitized_tag_values(&bad, "NA".to_string()).err(), Some(TransformError::NotText));
}

#[test]
fn collision_free_path_is_kept() {
    let p = "/nonexistent-dir-for-tests/a.dcm".to_string();
    assert_eq!(check_if_dup_exists(p.clone()), p);
}

#[test]
fn existing_path_gets_a_tilde() {
    assert_eq!(check_if_dup_exists("/".to_string()), "/~");
}

#[test]
fn side_paths() {
    assert_eq!(non_dicom_path("/out", "x.txt"), "/out/NON_DICOM/x.txt");
    assert_eq!(failed_case_path("/out", "x.dcm"), "/out/FAILED_CASES/x.dcm");
}

#[test]
fn sort_order_letters() {
    assert_eq!(generate_sort_order("nm".to_string()), vec!["PatientName".to_string(), "Modality".to_string()]);
    assert_eq!(generate_sort_order("xyz".to_string()), vec!["PatientID".to_string()]);
    assert_eq!(generate_sort_order("I".to_string()), vec!["PatientID".to_string()]);
    assert_eq!(
        generate_sort_order("\u{131}n".to_string()),
        vec!["PatientID".to_string(), "PatientName".to_string()]
    );
}

#[test]
fn sort_levels_and_directory() {
    let r = record(vec![elem(0x0010, 0x0020, Vr::LO, text("U1")), elem(0x0010, 0x0010, Vr::PN, text("Doe^John"))]);
    let v = values();
    let levels = generate_order_level(&vec!["PatientName".to_string(), "PatientID".to_string()], &v, &r).unwrap();
    assert_eq!(levels, "Doe_John/U_1_X/");
    assert_eq!(
        generate_order_level(&vec!["Modality".to_string()], &v, &r).err(),
        Some(TransformError::MissingField)
    );
    assert_eq!(
        sort_dir_path(&v, &levels, "/s"),
        "/s/Doe_John/U_1_X/20230101T101010_123456789/0003_T1_axial_post"
    );
}

#[test]
fn run_counters_summary() {
    let mut c = RunCounters::new();
    for o in [FileOutcome::Transformed, FileOutcome::Transformed, FileOutcome::NotRecord, FileOutcome::Transformed] {
        c.count(o);
    }
    let s = c.summary("Anon".to_string());
    assert_eq!((s.total, s.failed, s.non_record, s.processed), (4, 0, 1, 3));
    c.count(FileOutcome::Failed);
    c.count(FileOutcome::Skipped);
    let s = c.summary("DeID".to_string());
    assert_eq!((s.total, s.failed, s.non_record, s.processed), (6, 1, 1, 4));
    assert_eq!(s.action, "DeID");
}

#[test]
fn sort_level_unknown_field() {
    let r = record(vec![elem(0x0010, 0x0020, Vr::LO, text("U1"))]);
    assert_eq!(
        generate_order_level(&vec!["StudyID".to_string()], &values(), &r).err(),
        Some(TransformError::UnknownField)
    );
}

#[test]
fn first_free_path_skips_taken_candidates() {
    let mut taken = vec!["/out/a.dcm".to_string(), "/out/a.dcm~".to_string()];
    let first = first_free_path(&"/out/a.dcm".to_string(), &taken);
    assert_eq!(first, "/out/a.dcm~~");
    taken.push(first.clone());
    let second = first_free_path(&"/out/a.dcm".to_string(), &taken);
    assert_eq!(second, "/out/a.dcm~~~");
    assert_ne!(first, second);
    assert_eq!(first_free_path(&"/out/b.dcm".to_string(), &taken), "/out/b.dcm");
    assert_eq!(first_free_path(&"/out/a.dcm".to_string(), &vec![]), "/out/a.dcm");
}

#[test]
fn configuration_errors_abort() {
    assert!(is_configuration_error(&TransformError::Value(ValueError::Time)));
    assert!(!is_configuration_error(&TransformError::MissingField));
    assert!(!is_configuration_error(&TransformError::ShortUid));
}
