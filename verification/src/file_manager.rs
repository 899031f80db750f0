//! The directory-backed person store: where a person's folder and record
//! live, which subfolders a person directory carries, how a directory
//! listing is read back, which scanned files count as evidence, and how an
//! incoming file is named. All file system work happens outside; these
//! functions decide, and their callers carry the decisions out.
use vstd::prelude::*;

use crate::errors::StoreError;
use crate::models::{
    class_of_ext, folder_of, opt_view, EvidenceFile, EvidenceFileV, EvidenceType, Person,
};
use crate::paths::{ext_of, has_split, path_join, picked_name};
use crate::record::{parse_record, render_record};

verus! {

/// The fixed name of the record file inside every person directory.
pub open spec fn record_file_name() -> Seq<char> {
    "record.json"@
}

/// The fixed record file name.
pub fn record_file_name_x() -> (r: &'static str)
    ensures
        r@ == record_file_name(),
{
    "record.json"
}

/// One file met while walking a person's directory tree: its bare name, the
/// path to hand back, its size, and its creation stamp if the file system
/// offered one.
pub struct ScanEntry {
    pub name: String,
    pub path: String,
    pub size: u64,
    pub created: Option<String>,
}

pub struct ScanEntryV {
    pub name: Seq<char>,
    pub path: Seq<char>,
    pub size: u64,
    pub created: Option<Seq<char>>,
}

impl View for ScanEntry {
    type V = ScanEntryV;

    open spec fn view(&self) -> ScanEntryV {
        ScanEntryV {
            name: self.name@,
            path: self.path@,
            size: self.size,
            created: opt_view(self.created),
        }
    }
}

/// Whether a scanned file belongs in the evidence listing, and as what: the
/// record file never does, nor does a file without a mapped extension.
pub open spec fn scan_class(e: ScanEntryV) -> Option<EvidenceType> {
    if e.name == record_file_name() {
        None
    } else if !has_split(e.name) {
        None
    } else {
        class_of_ext(ext_of(e.name))
    }
}

/// The scanned files that the listing keeps, in walk order.
pub open spec fn kept_entries(files: Seq<ScanEntryV>) -> Seq<ScanEntryV> {
    files.filter(|e: ScanEntryV| scan_class(e) is Some)
}

/// The deterministic fields of one listing row for a kept file.
pub open spec fn row_matches(person_id: Seq<char>, e: ScanEntryV, row: EvidenceFileV) -> bool {
    &&& row.person_id == person_id
    &&& row.file_path == e.path
    &&& Some(row.file_type) == scan_class(e)
    &&& row.original_name == e.name
    &&& row.size == e.size
    &&& (match e.created {
        Some(t) => row.created_at == t,
        None => row.created_at.len() > 0,
    })
    &&& row.id.len() == 36
    &&& row.notes == Seq::<char>::empty()
}

/// The store: one directory per person under a fixed evidence root.
#[derive(Debug)]
pub struct FileManager {
    pub evidence_dir: String,
}

impl Clone for FileManager {
    fn clone(&self) -> (r: Self)
        ensures
            r == *self,
    {
        FileManager { evidence_dir: self.evidence_dir.clone() }
    }
}

impl FileManager {
    /// A store rooted at the given directory. The caller resolves and
    /// creates the root before anything else touches it.
    pub fn new(evidence_dir: String) -> (r: FileManager)
        ensures
            r.evidence_dir@ == evidence_dir@,
    {
        FileManager { evidence_dir }
    }

    pub open spec fn root(&self) -> Seq<char> {
        self.evidence_dir@
    }

    /// The store root directory.
    pub fn get_evidence_dir(&self) -> (r: &String)
        ensures
            r@ == self.root(),
    {
        &self.evidence_dir
    }

    /// The directory a person's data lives in.
    pub fn person_folder_path(&self, person: &Person) -> (r: String)
        ensures
            r@ == path_join(self.root(), folder_of(person@.name)),
    {
        let folder = person.folder_name();
        crate::paths::join(self.evidence_dir.as_str(), folder.as_str())
    }

    /// The record file of a person.
    pub fn record_file_path(&self, person: &Person) -> (r: String)
        ensures
            r@ == path_join(path_join(self.root(), folder_of(person@.name)), record_file_name()),
    {
        let folder = self.person_folder_path(person);
        crate::paths::join(folder.as_str(), record_file_name_x())
    }

    /// The directories a person's folder must hold: the folder itself and
    /// one subfolder per evidence category, in canonical order. The caller
    /// creates each; creating an existing one changes nothing.
    pub fn create_person_folder(&self, person: &Person) -> (dirs: Vec<String>)
        ensures
            dirs@.len() == 6,
            dirs@[0]@ == path_join(self.root(), folder_of(person@.name)),
            forall|i: int|
                1 <= i < 6 ==> (#[trigger] dirs@[i])@ == path_join(
                    path_join(self.root(), folder_of(person@.name)),
                    EvidenceType::all_spec()[i - 1].folder_name_spec(),
                ),
    {
        let folder = self.person_folder_path(person);
        let mut dirs: Vec<String> = Vec::new();
        dirs.push(folder.clone());
        let kinds = EvidenceType::all();
        let mut i: usize = 0;
        while i < kinds.len()
            invariant
                kinds@ == EvidenceType::all_spec(),
                i <= 5,
                kinds@.len() == 5,
                dirs@.len() == i + 1,
                dirs@[0]@ == folder@,
                forall|k: int|
                    1 <= k < i + 1 ==> (#[trigger] dirs@[k])@ == path_join(
                        folder@,
                        EvidenceType::all_spec()[k - 1].folder_name_spec(),
                    ),
            decreases kinds@.len() - i,
        {
            let sub = crate::paths::join(folder.as_str(), kinds[i].folder_name());
            dirs.push(sub);
            i = i + 1;
        }
        dirs
    }

    /// The record file path and record text to write for a person: the whole
    /// of a save, but for the writing itself.
    pub fn save_person_data(&self, person: &Person) -> (r: (String, String))
        ensures
            r.0@ == path_join(path_join(self.root(), folder_of(person@.name)), record_file_name()),
            r.1@ == render_record(person@),
    {
        (self.record_file_path(person), crate::record::render_person(person))
    }

    /// Read one person back from record text; the whole of a load, but for
    /// the reading itself. `NotFound` and read failures are the caller's.
    pub fn load_person_data(&self, text: &str) -> (r: Result<Person, StoreError>)
        ensures
            r matches Ok(p) ==> parse_record(text@) == Some(p@),
            r matches Err(e) ==> parse_record(text@) is None && e == StoreError::ParseError,
    {
        crate::record::parse_person(text)
    }

    /// The persons of a store listing: one record text per directory that
    /// had one, in listing order; a missing or malformed record is skipped
    /// rather than failing the whole load.
    pub fn load_all_persons(&self, records: &Vec<Option<String>>) -> (r: Vec<Person>)
        ensures
            r@.map_values(|p: Person| p@) == collected_persons(records@),
    {
        let mut out: Vec<Person> = Vec::new();
        let mut i: usize = 0;
        proof {
            assert(records@.subrange(0, records@.len() as int) =~= records@);
        }
        while i < records.len()
            invariant
                i <= records@.len(),
                collected_persons(records@) == match collected_persons(
                    records@.subrange(i as int, records@.len() as int),
                ) {
                    rest => out@.map_values(|p: Person| p@) + rest,
                },
            decreases records@.len() - i,
        {
            let ghost tail = records@.subrange(i as int, records@.len() as int);
            proof {
                assert(tail[0] == records@[i as int]);
                assert(tail.drop_first() =~= records@.subrange(i + 1, records@.len() as int));
            }
            match &records[i] {
                Some(text) => match crate::record::parse_person(text.as_str()) {
                    Ok(p) => {
                        let ghost prev = out@;
                        let ghost pv = p@;
                        out.push(p);
                        i = i + 1;
                        proof {
                            assert forall|rest: Seq<crate::models::PersonV>|
                                prev.map_values(|p: Person| p@) + (seq![pv] + rest)
                                    =~= out@.map_values(|p: Person| p@) + rest by {}
                        }
                    },
                    Err(_) => {
                        i = i + 1;
                    },
                },
                None => {
                    i = i + 1;
                },
            }
        }
        proof {
            assert(records@.subrange(records@.len() as int, records@.len() as int) =~= Seq::<
                Option<String>,
            >::empty());
            assert(out@.map_values(|p: Person| p@) + Seq::<crate::models::PersonV>::empty()
                =~= out@.map_values(|p: Person| p@));
        }
        out
    }

    /// The evidence listing a walk of the person's tree yields: the record
    /// file never appears, nor does any file without a mapped extension;
    /// every kept file appears once, in walk order, under a fresh identifier.
    pub fn scan_person_evidence(&self, person: &Person, files: &Vec<ScanEntry>) -> (r: Vec<
        EvidenceFile,
    >)
        ensures
            r@.len() == kept_entries(files@.map_values(|e: ScanEntry| e@)).len(),
            forall|i: int|
                0 <= i < r@.len() ==> row_matches(
                    person@.id,
                    kept_entries(files@.map_values(|e: ScanEntry| e@))[i],
                    (#[trigger] r@[i])@,
                ),
    {
        let ghost fv = files@.map_values(|e: ScanEntry| e@);
        let ghost pred = |e: ScanEntryV| scan_class(e) is Some;
        let mut out: Vec<EvidenceFile> = Vec::new();
        let mut i: usize = 0;
        proof {
            reveal(Seq::filter);
        }
        while i < files.len()
            invariant
                i <= files@.len(),
                fv == files@.map_values(|e: ScanEntry| e@),
                pred == (|e: ScanEntryV| scan_class(e) is Some),
                out@.len() == fv.subrange(0, i as int).filter(pred).len(),
                forall|k: int|
                    0 <= k < out@.len() ==> row_matches(
                        person@.id,
                        fv.subrange(0, i as int).filter(pred)[k],
                        (#[trigger] out@[k])@,
                    ),
            decreases files@.len() - i,
        {
            let ghost seen = fv.subrange(0, i as int);
            let entry = &files[i];
            let keep: Option<EvidenceType> = {
                if crate::chars::str_eq(entry.name.as_str(), record_file_name_x()) {
                    None
                } else {
                    match crate::paths::split_name(entry.name.as_str()) {
                        None => None,
                        Some((_stem, ext)) => EvidenceType::from_extension(ext.as_str()),
                    }
                }
            };
            proof {
                assert(keep == scan_class(entry@));
            }
            match keep {
                Some(t) => {
                    let created_at = match &entry.created {
                        Some(s) => s.clone(),
                        None => crate::fresh::now_rfc3339(),
                    };
                    let row = EvidenceFile {
                        id: crate::fresh::fresh_id(),
                        person_id: person.id.clone(),
                        file_path: entry.path.clone(),
                        file_type: t,
                        original_name: entry.name.clone(),
                        size: entry.size,
                        created_at,
                        notes: String::new(),
                    };
                    proof {
                        assert(row_matches(person@.id, entry@, row@));
                    }
                    out.push(row);
                },
                None => {},
            }
            i = i + 1;
            proof {
                reveal(Seq::filter);
                let seen2 = fv.subrange(0, i as int);
                assert(seen2.drop_last() =~= seen);
                assert(seen2.last() == entry@);
            }
        }
        proof {
            assert(fv.subrange(0, fv.len() as int) =~= fv);
        }
        out
    }

    /// Decide the copy of an outside file into a person's evidence tree: the
    /// name to write under (renamed away from every name the target folder
    /// already holds) and the listing row for the copy. The caller copies
    /// the bytes and reports the copied size. A source without a stem and an
    /// extension cannot take part in renaming and is refused; one whose
    /// extension the classification table does not map is unsupported.
    pub fn copy_file_to_evidence(
        &self,
        person: &Person,
        source_name: &str,
        evidence_type: EvidenceType,
        existing: &Vec<String>,
        size: u64,
    ) -> (r: Result<(String, EvidenceFile), StoreError>)
        ensures
            r matches Ok((target, row)) ==> {
                &&& has_split(source_name@)
                &&& class_of_ext(ext_of(source_name@)) is Some
                &&& picked_name(
                    existing@,
                    source_name@,
                    target@.skip(
                        path_join(
                            path_join(self.root(), folder_of(person@.name)),
                            evidence_type.folder_name_spec(),
                        ).len() + 1 as int,
                    ),
                )
                &&& target@ == path_join(
                    path_join(
                        path_join(self.root(), folder_of(person@.name)),
                        evidence_type.folder_name_spec(),
                    ),
                    target@.skip(
                        path_join(
                            path_join(self.root(), folder_of(person@.name)),
                            evidence_type.folder_name_spec(),
                        ).len() + 1 as int,
                    ),
                )
                &&& row@.person_id == person@.id
                &&& row@.file_path == target@
                &&& row@.file_type == evidence_type
                &&& row@.original_name == source_name@
                &&& row@.size == size
                &&& row@.id.len() == 36
                &&& row@.created_at.len() > 0
                &&& row@.notes == Seq::<char>::empty()
            },
            r matches Err(e) ==> {
                ||| !has_split(source_name@) && e matches StoreError::IOError(_)
                ||| has_split(source_name@) && class_of_ext(ext_of(source_name@)) is None && e
                    == StoreError::UnsupportedType
            },
    {
        let folder = self.person_folder_path(person);
        let target_folder = crate::paths::join(folder.as_str(), evidence_type.folder_name());
        match crate::paths::split_name(source_name) {
            None => {},
            Some((_stem, ext)) => {
                if EvidenceType::from_extension(ext.as_str()).is_none() {
                    return Err(StoreError::UnsupportedType);
                }
            },
        }
        match crate::paths::collision_free_name(existing, source_name) {
            Err(e) => Err(e),
            Ok(chosen) => {
                let target = crate::paths::join(target_folder.as_str(), chosen.as_str());
                proof {
                    assert(target@.skip(target_folder@.len() + 1 as int) =~= chosen@);
                }
                let row = EvidenceFile {
                    id: crate::fresh::fresh_id(),
                    person_id: person.id.clone(),
                    file_path: target.clone(),
                    file_type: evidence_type,
                    original_name: crate::chars::chars_string(&crate::chars::str_chars(
                        source_name,
                    )),
                    size,
                    created_at: crate::fresh::now_rfc3339(),
                    notes: String::new(),
                };
                Ok((target, row))
            },
        }
    }
}

/// A scan never lists the record file, and never a file whose extension the
/// classification table does not map: every listing row stands for a kept
/// walk entry, keeps its name, and carries the category its extension maps
/// to.
pub proof fn lemma_scan_never_returns_record(
    person_id: Seq<char>,
    files: Seq<ScanEntryV>,
    rows: Seq<EvidenceFileV>,
)
    requires
        rows.len() == kept_entries(files).len(),
        forall|i: int|
            0 <= i < rows.len() ==> row_matches(person_id, kept_entries(files)[i], #[trigger] rows[i]),
    ensures
        forall|i: int|
            0 <= i < rows.len() ==> (#[trigger] rows[i]).original_name != record_file_name()
                && class_of_ext(ext_of(rows[i].original_name)) == Some(rows[i].file_type),
{
    assert forall|i: int|
        0 <= i < rows.len() implies (#[trigger] rows[i]).original_name != record_file_name()
            && class_of_ext(ext_of(rows[i].original_name)) == Some(rows[i].file_type) by {
        files.lemma_filter_pred(|e: ScanEntryV| scan_class(e) is Some, i);
        let e = kept_entries(files)[i];
        assert(scan_class(e) is Some);
    }
}

/// The persons read out of a listing of record texts, skipping the
/// directories without a readable record.
pub open spec fn collected_persons(records: Seq<Option<String>>) -> Seq<crate::models::PersonV>
    decreases records,
{
    if records.len() == 0 {
        Seq::empty()
    } else {
        let rest = collected_persons(records.drop_first());
        match records[0] {
            Some(text) => match parse_record(text@) {
                Some(pv) => seq![pv] + rest,
                None => rest,
            },
            None => rest,
        }
    }
}

} // verus!
