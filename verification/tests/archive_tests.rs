use evidence_store::archive::{progress_percent, ExportImportManager};
use evidence_store::file_manager::FileManager;
use evidence_store::models::Person;
use evidence_store::record::parse_person;

fn manager() -> ExportImportManager {
    ExportImportManager::new(FileManager::new(String::from("/store/Evidence")))
}

#[test]
fn archive_round_trips_entries() {
    let m = manager();
    let files = vec![
        (String::from("A/record.json"), b"{}".to_vec()),
        (String::from("A/images/x.png"), vec![0u8, 159, 146, 150, 255]),
        (String::from("B/documents/empty.txt"), Vec::new()),
    ];
    let bytes = m.export_to_ema(&files).expect("export succeeds");
    let back = m.import_from_ema(bytes).expect("import succeeds");
    assert_eq!(back.len(), 3);
    for ((name_in, data_in), (name_out, data_out)) in files.iter().zip(back.iter()) {
        assert_eq!(name_in, name_out);
        assert_eq!(data_in, data_out);
    }
}

#[test]
fn export_normalizes_separators() {
    let m = manager();
    let files = vec![(String::from("A\\images\\x.png"), vec![1u8, 2, 3])];
    let bytes = m.export_to_ema(&files).expect("export succeeds");
    let back = m.import_from_ema(bytes).expect("import succeeds");
    assert_eq!(back.len(), 1);
    assert_eq!(back[0].0, "A/images/x.png");
}

#[test]
fn import_skips_entries_escaping_the_root() {
    let m = manager();
    let files = vec![
        (String::from("../../evil"), b"boom".to_vec()),
        (String::from("/etc/passwd"), b"boom".to_vec()),
        (String::from("a/../b.txt"), b"boom".to_vec()),
        (String::from("a//b.txt"), b"boom".to_vec()),
        (String::from("./c.txt"), b"boom".to_vec()),
        (String::from("ok/fine.txt"), b"good".to_vec()),
    ];
    let bytes = m.export_to_ema(&files).expect("export succeeds");
    let back = m.import_from_ema(bytes).expect("import succeeds");
    assert_eq!(back.len(), 1);
    assert_eq!(back[0].0, "ok/fine.txt");
    assert_eq!(back[0].1, b"good".to_vec());
}

#[test]
fn import_rejects_drive_letters_and_alternate_separators() {
    let m = manager();
    // separator normalization turns backslashes into slashes on export, so a
    // hostile name is packed through a literal entry list with a colon
    let files = vec![(String::from("C:stuff.txt"), b"x".to_vec())];
    let bytes = m.export_to_ema(&files).expect("export succeeds");
    let back = m.import_from_ema(bytes).expect("import succeeds");
    assert!(back.is_empty());
}

#[test]
fn import_of_garbage_bytes_fails() {
    let m = manager();
    assert!(m.import_from_ema(b"not a container".to_vec()).is_err());
    assert!(m.import_from_ema(Vec::new()).is_err());
}

#[test]
fn empty_export_round_trips() {
    let m = manager();
    let files: Vec<(String, Vec<u8>)> = Vec::new();
    let bytes = m.export_to_ema(&files).expect("export succeeds");
    let back = m.import_from_ema(bytes).expect("import succeeds");
    assert!(back.is_empty());
}

#[test]
fn whole_store_round_trip_keeps_persons_identical() {
    let m = manager();
    let mut p = Person::new(String::from("Jane Doe"));
    p.tags.push(String::from("tagged"));
    let fm = FileManager::new(String::from("/store/Evidence"));
    let (_, record_text) = fm.save_person_data(&p);
    let rel = format!("{}/record.json", p.folder_name());
    let files = vec![(rel.clone(), record_text.clone().into_bytes())];

    let bytes = m.export_to_ema(&files).expect("export succeeds");
    let back = m.import_from_ema(bytes).expect("import succeeds");
    assert_eq!(back.len(), 1);
    assert_eq!(back[0].0, rel);
    let text = String::from_utf8(back[0].1.clone()).expect("record text is text");
    let q = parse_person(&text).expect("imported record parses");
    assert_eq!(q.id, p.id);
    assert_eq!(q.name, p.name);
    assert_eq!(q.created_at, p.created_at);
    assert_eq!(q.updated_at, p.updated_at);
    assert_eq!(q.tags, p.tags);
}

#[test]
fn duplicate_entry_names_fail_the_export() {
    let m = manager();
    let files = vec![
        (String::from("A/x.txt"), b"1".to_vec()),
        (String::from("A/x.txt"), b"2".to_vec()),
    ];
    assert!(m.export_to_ema(&files).is_err());
}

#[test]
fn progress_is_a_whole_percentage() {
    assert_eq!(progress_percent(0, 0), 0);
    assert_eq!(progress_percent(0, 7), 0);
    assert_eq!(progress_percent(1, 3), 33);
    assert_eq!(progress_percent(2, 3), 66);
    assert_eq!(progress_percent(3, 3), 100);
    assert_eq!(progress_percent(u64::MAX, u64::MAX), 100);
}
