use evidence_store::archive::ExportImportManager;
use evidence_store::backend::BackendState;
use evidence_store::errors::StoreError;
use evidence_store::file_manager::{FileManager, ScanEntry};
use evidence_store::models::{EvidenceType, Person};
use evidence_store::paths::collision_free_name;
use evidence_store::record::parse_person;

fn session() -> BackendState {
    let fm = FileManager::new(String::from("/store/Evidence"));
    let eim = ExportImportManager::new(fm.clone());
    BackendState::new(fm, eim, Vec::new())
}

#[test]
fn new_person_starts_empty() {
    let p = Person::new(String::from("Jane Doe"));
    assert_eq!(p.name, "Jane Doe");
    assert_eq!(p.id.len(), 36);
    assert_eq!(p.created_at, p.updated_at);
    assert!(!p.created_at.is_empty());
    assert!(p.notes.is_empty());
    assert!(p.tags.is_empty());
    assert!(p.information.is_empty());
    assert!(p.quotes.is_empty());
}

#[test]
fn folder_name_replaces_spaces() {
    let p = Person::new(String::from("Jane Doe"));
    assert_eq!(p.folder_name(), "Jane_Doe");
    let q = Person::new(String::from("One Two Three"));
    assert_eq!(q.folder_name(), "One_Two_Three");
    let r = Person::new(String::from("NoSpace"));
    assert_eq!(r.folder_name(), "NoSpace");
}

#[test]
fn add_person_lists_exactly_one() {
    let mut s = session();
    let added = s.add_person(String::from("Jane Doe"));
    let listed = s.list_persons();
    assert_eq!(listed.len(), 1);
    assert_eq!(listed[0].name, "Jane Doe");
    assert_eq!(listed[0].id, added.id);
    assert!(listed[0].information.is_empty());
    assert!(listed[0].quotes.is_empty());
}

#[test]
fn person_folder_plan_has_five_subfolders() {
    let fm = FileManager::new(String::from("/store/Evidence"));
    let p = Person::new(String::from("Jane Doe"));
    let dirs = fm.create_person_folder(&p);
    assert_eq!(
        dirs,
        vec![
            String::from("/store/Evidence/Jane_Doe"),
            String::from("/store/Evidence/Jane_Doe/images"),
            String::from("/store/Evidence/Jane_Doe/audio"),
            String::from("/store/Evidence/Jane_Doe/videos"),
            String::from("/store/Evidence/Jane_Doe/documents"),
            String::from("/store/Evidence/Jane_Doe/quotes"),
        ]
    );
}

#[test]
fn jane_doe_scenario() {
    let mut s = session();
    let added = s.add_person(String::from("Jane Doe"));
    let dirs = s.file_manager.create_person_folder(&added);
    assert_eq!(dirs[0], "/store/Evidence/Jane_Doe");
    assert_eq!(dirs.len(), 6);
    let (path, text) = s.file_manager.save_person_data(&added);
    assert_eq!(path, "/store/Evidence/Jane_Doe/record.json");
    let stored = parse_person(&text).expect("a saved record parses");
    assert_eq!(stored.name, "Jane Doe");
    assert!(stored.information.is_empty());
    assert!(stored.quotes.is_empty());
    assert!(stored.tags.is_empty());

    let updated = s
        .add_quote(&added.id.clone(), String::from("Hello"), String::from("2024-01-01"), None, None)
        .expect("the person exists");
    assert_eq!(updated.quotes.len(), 1);
    assert_eq!(updated.quotes[0].quote, "Hello");
    assert_eq!(updated.quotes[0].date, "2024-01-01");
    assert_eq!(updated.quotes[0].person_id, added.id);
    assert!(!updated.updated_at.is_empty());
    assert!(updated.updated_at >= updated.created_at);
}

#[test]
fn add_and_remove_information() {
    let mut s = session();
    let p = s.add_person(String::from("A"));
    let p1 = s
        .add_information(&p.id, String::from("phone"), String::from("555"))
        .expect("person exists");
    assert_eq!(p1.information.len(), 1);
    assert_eq!(p1.information[0].info_type, "phone");
    assert_eq!(p1.information[0].value, "555");
    let info_id = p1.information[0].id.clone();
    let p2 = s.remove_information(&p.id, &info_id).expect("person exists");
    assert!(p2.information.is_empty());
}

#[test]
fn remove_information_absent_id_is_no_op() {
    let mut s = session();
    let p = s.add_person(String::from("A"));
    let p1 = s
        .add_information(&p.id, String::from("phone"), String::from("555"))
        .expect("person exists");
    assert_eq!(p1.information.len(), 1);
    let p2 = s.remove_information(&p.id, "no-such-entry").expect("still no error");
    assert_eq!(p2.information.len(), 1);
    assert_eq!(p2.information[0].value, "555");
}

#[test]
fn add_and_remove_quote() {
    let mut s = session();
    let p = s.add_person(String::from("A"));
    let p1 = s
        .add_quote(
            &p.id,
            String::from("words"),
            String::from("2024-05-05"),
            Some(String::from("09:00")),
            Some(String::from("office")),
        )
        .expect("person exists");
    assert_eq!(p1.quotes.len(), 1);
    assert_eq!(p1.quotes[0].time.as_deref(), Some("09:00"));
    assert_eq!(p1.quotes[0].place.as_deref(), Some("office"));
    let quote_id = p1.quotes[0].id.clone();
    let p2 = s.remove_quote(&p.id, &quote_id).expect("person exists");
    assert!(p2.quotes.is_empty());
}

#[test]
fn unknown_person_is_not_found() {
    let mut s = session();
    assert!(matches!(s.get_person("missing"), Err(StoreError::NotFound)));
    assert!(matches!(s.delete_person("missing"), Err(StoreError::NotFound)));
    assert!(matches!(
        s.add_information("missing", String::from("t"), String::from("v")),
        Err(StoreError::NotFound)
    ));
    assert!(matches!(s.remove_quote("missing", "q"), Err(StoreError::NotFound)));
}

#[test]
fn delete_person_removes_from_listing() {
    let mut s = session();
    let a = s.add_person(String::from("A"));
    let b = s.add_person(String::from("B"));
    let removed = s.delete_person(&a.id).expect("person exists");
    assert_eq!(removed.id, a.id);
    let listed = s.list_persons();
    assert_eq!(listed.len(), 1);
    assert_eq!(listed[0].id, b.id);
}

#[test]
fn load_all_skips_unreadable_records() {
    let fm = FileManager::new(String::from("/store/Evidence"));
    let good = Person::new(String::from("Good"));
    let (_, text) = fm.save_person_data(&good);
    let records = vec![
        Some(text),
        Some(String::from("{ not a record")),
        None,
        Some(String::from("{\"id\": \"only\"}")),
    ];
    let loaded = fm.load_all_persons(&records);
    assert_eq!(loaded.len(), 1);
    assert_eq!(loaded[0].name, "Good");
}

#[test]
fn collision_naming_picks_numeric_suffixes() {
    let empty: Vec<String> = Vec::new();
    assert_eq!(collision_free_name(&empty, "a.jpg").unwrap(), "a.jpg");
    let one = vec![String::from("a.jpg")];
    assert_eq!(collision_free_name(&one, "a.jpg").unwrap(), "a_1.jpg");
    let two = vec![String::from("a.jpg"), String::from("a_1.jpg")];
    assert_eq!(collision_free_name(&two, "a.jpg").unwrap(), "a_2.jpg");
    let gap = vec![String::from("a.jpg"), String::from("a_2.jpg")];
    assert_eq!(collision_free_name(&gap, "a.jpg").unwrap(), "a_1.jpg");
}

#[test]
fn unmapped_extension_is_rejected_by_ingestion() {
    let fm = FileManager::new(String::from("/root"));
    let p = Person::new(String::from("A"));
    let existing: Vec<String> = Vec::new();
    let r = fm.copy_file_to_evidence(&p, "tool.exe", EvidenceType::Document, &existing, 9);
    assert!(matches!(r, Err(StoreError::UnsupportedType)));
}

#[test]
fn extensionless_source_is_rejected() {
    let empty: Vec<String> = Vec::new();
    assert!(matches!(collision_free_name(&empty, "README"), Err(StoreError::IOError(_))));
    assert!(matches!(collision_free_name(&empty, ".bashrc"), Err(StoreError::IOError(_))));
}

#[test]
fn copy_two_files_named_alike_then_scan_sees_both() {
    let fm = FileManager::new(String::from("/store/Evidence"));
    let p = Person::new(String::from("A"));
    let existing: Vec<String> = Vec::new();
    let (target1, row1) = fm
        .copy_file_to_evidence(&p, "a.jpg", EvidenceType::Image, &existing, 10)
        .expect("first copy");
    assert_eq!(target1, format!("/store/Evidence/{}/images/a.jpg", p.folder_name()));
    assert_eq!(row1.original_name, "a.jpg");
    let existing = vec![String::from("a.jpg")];
    let (target2, _row2) = fm
        .copy_file_to_evidence(&p, "a.jpg", EvidenceType::Image, &existing, 11)
        .expect("second copy");
    assert_eq!(target2, format!("/store/Evidence/{}/images/a_1.jpg", p.folder_name()));

    let walked = vec![
        ScanEntry {
            name: String::from("a.jpg"),
            path: target1.clone(),
            size: 10,
            created: Some(String::from("2024-01-01T00:00:00+00:00")),
        },
        ScanEntry {
            name: String::from("a_1.jpg"),
            path: target2.clone(),
            size: 11,
            created: None,
        },
    ];
    let rows = fm.scan_person_evidence(&p, &walked);
    assert_eq!(rows.len(), 2);
    assert_eq!(rows[0].original_name, "a.jpg");
    assert_eq!(rows[0].file_path, target1);
    assert_eq!(rows[1].original_name, "a_1.jpg");
    assert_eq!(rows[1].file_path, target2);
}

#[test]
fn scan_drops_record_file_and_unmapped_extensions() {
    let fm = FileManager::new(String::from("/root"));
    let p = Person::new(String::from("A"));
    let walked = vec![
        ScanEntry {
            name: String::from("record.json"),
            path: String::from("/root/A/record.json"),
            size: 1,
            created: None,
        },
        ScanEntry {
            name: String::from("evil.exe"),
            path: String::from("/root/A/documents/evil.exe"),
            size: 2,
            created: None,
        },
        ScanEntry {
            name: String::from("noextension"),
            path: String::from("/root/A/images/noextension"),
            size: 3,
            created: None,
        },
        ScanEntry {
            name: String::from("ok.png"),
            path: String::from("/root/A/images/ok.png"),
            size: 4,
            created: None,
        },
    ];
    let rows = fm.scan_person_evidence(&p, &walked);
    assert_eq!(rows.len(), 1);
    assert_eq!(rows[0].original_name, "ok.png");
    assert_eq!(rows[0].file_type, EvidenceType::Image);
    assert_eq!(rows[0].size, 4);
    assert_eq!(rows[0].person_id, p.id);
    assert_eq!(rows[0].id.len(), 36);
    assert!(rows[0].notes.is_empty());
}

#[test]
fn scan_identifiers_are_fresh_each_time() {
    let fm = FileManager::new(String::from("/root"));
    let p = Person::new(String::from("A"));
    let walked = vec![ScanEntry {
        name: String::from("ok.png"),
        path: String::from("/root/A/images/ok.png"),
        size: 4,
        created: None,
    }];
    let first = fm.scan_person_evidence(&p, &walked);
    let second = fm.scan_person_evidence(&p, &walked);
    assert_ne!(first[0].id, second[0].id);
}

#[test]
fn evidence_dir_is_kept() {
    let fm = FileManager::new(String::from("/store/Evidence"));
    assert_eq!(fm.get_evidence_dir(), "/store/Evidence");
}
