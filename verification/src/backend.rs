//! The command surface a presentation layer drives: an in-memory person
//! list over the store. Every command mutates the list here and hands its
//! caller what must be persisted; the caller performs the file work.
use vstd::prelude::*;

use crate::archive::ExportImportManager;
use crate::errors::StoreError;
use crate::file_manager::{FileManager, ScanEntry};
use crate::models::{opt_view, same_core, EvidenceFile, EvidenceType, Person, PersonInfoV, PersonV, QuoteV};

verus! {

/// The position of the first person carrying the identifier.
pub open spec fn first_match(ps: Seq<PersonV>, id: Seq<char>, ix: int) -> bool {
    &&& 0 <= ix < ps.len()
    &&& ps[ix].id == id
    &&& forall|j: int| 0 <= j < ix ==> (#[trigger] ps[j]).id != id
}

pub open spec fn has_person(ps: Seq<PersonV>, id: Seq<char>) -> bool {
    exists|i: int| 0 <= i < ps.len() && (#[trigger] ps[i]).id == id
}

/// What adding one information entry does to a person.
pub open spec fn info_added(before: PersonV, after: PersonV, t: Seq<char>, v: Seq<char>) -> bool {
    &&& same_core(after, before)
    &&& after.quotes == before.quotes
    &&& after.updated_at.len() > 0
    &&& after.information.len() == before.information.len() + 1
    &&& after.information.drop_last() == before.information
    &&& after.information.last().info_type == t
    &&& after.information.last().value == v
    &&& after.information.last().id.len() == 36
    &&& after.information.last().created_at.len() > 0
}

/// What adding one quote does to a person.
pub open spec fn quote_added(
    before: PersonV,
    after: PersonV,
    quote: Seq<char>,
    date: Seq<char>,
    time: Option<Seq<char>>,
    place: Option<Seq<char>>,
) -> bool {
    &&& same_core(after, before)
    &&& after.information == before.information
    &&& after.updated_at.len() > 0
    &&& after.quotes.len() == before.quotes.len() + 1
    &&& after.quotes.drop_last() == before.quotes
    &&& after.quotes.last().quote == quote
    &&& after.quotes.last().date == date
    &&& after.quotes.last().time == time
    &&& after.quotes.last().place == place
    &&& after.quotes.last().person_id == before.id
    &&& after.quotes.last().id.len() == 36
    &&& after.quotes.last().created_at.len() > 0
}

/// What removing an information entry by identifier does to a person.
pub open spec fn info_removed(before: PersonV, after: PersonV, info_id: Seq<char>) -> bool {
    &&& same_core(after, before)
    &&& after.quotes == before.quotes
    &&& after.updated_at.len() > 0
    &&& after.information == before.information.filter(|e: PersonInfoV| e.id != info_id)
}

/// What removing a quote by identifier does to a person.
pub open spec fn quote_removed(before: PersonV, after: PersonV, quote_id: Seq<char>) -> bool {
    &&& same_core(after, before)
    &&& after.information == before.information
    &&& after.updated_at.len() > 0
    &&& after.quotes == before.quotes.filter(|q: QuoteV| q.id != quote_id)
}

/// The session a presentation layer works against.
pub struct BackendState {
    pub file_manager: FileManager,
    pub export_import_manager: ExportImportManager,
    pub persons: Vec<Person>,
}

/// The views of a person list.
pub open spec fn person_views(v: Seq<Person>) -> Seq<PersonV> {
    v.map_values(|p: Person| p@)
}

/// The views of a walked-file list.
pub open spec fn scan_views(v: Seq<ScanEntry>) -> Seq<crate::file_manager::ScanEntryV> {
    v.map_values(|e: ScanEntry| e@)
}

impl BackendState {
    pub open spec fn persons_view(&self) -> Seq<PersonV> {
        person_views(self.persons@)
    }

    /// A session over the given store, with the given starting person list
    /// (what the caller loaded from disk).
    pub fn new(
        file_manager: FileManager,
        export_import_manager: ExportImportManager,
        persons: Vec<Person>,
    ) -> (r: BackendState)
        ensures
            r.file_manager == file_manager,
            r.export_import_manager == export_import_manager,
            r.persons_view() == persons@.map_values(|p: Person| p@),
    {
        BackendState { file_manager, export_import_manager, persons }
    }

    /// The current person list.
    pub fn list_persons(&self) -> (r: Vec<Person>)
        ensures
            person_views(r@) == self.persons_view(),
    {
        let mut out: Vec<Person> = Vec::new();
        let mut i: usize = 0;
        while i < self.persons.len()
            invariant
                i <= self.persons@.len(),
                out@.len() == i,
                person_views(out@) == self.persons_view().subrange(0, i as int),
            decreases self.persons@.len() - i,
        {
            let ghost prev = out@;
            out.push(self.persons[i].clone());
            i = i + 1;
            proof {
                assert forall|k: int| 0 <= k < i implies person_views(out@)[k]
                    == self.persons_view().subrange(0, i as int)[k] by {
                    assert(person_views(out@)[k] == out@[k]@);
                    if k < i - 1 {
                        assert(out@[k] == prev[k]);
                        assert(person_views(prev)[k] == prev[k]@);
                    }
                }
                assert(person_views(out@) =~= self.persons_view().subrange(0, i as int));
            }
        }
        proof {
            assert(person_views(out@) =~= self.persons_view());
        }
        out
    }

    /// Position of the first person with the identifier, if any.
    pub fn find_person(&self, id: &str) -> (r: Option<usize>)
        ensures
            match r {
                Some(ix) => first_match(self.persons_view(), id@, ix as int),
                None => !has_person(self.persons_view(), id@),
            },
    {
        let mut i: usize = 0;
        while i < self.persons.len()
            invariant
                i <= self.persons@.len(),
                forall|j: int| 0 <= j < i ==> (#[trigger] self.persons_view()[j]).id != id@,
            decreases self.persons@.len() - i,
        {
            if crate::chars::str_eq(self.persons[i].id.as_str(), id) {
                proof {
                    assert(self.persons_view()[i as int].id == id@);
                }
                return Some(i);
            }
            i = i + 1;
        }
        proof {
            if has_person(self.persons_view(), id@) {
                let k = choose|k: int|
                    0 <= k < self.persons_view().len() && self.persons_view()[k].id == id@;
                assert(self.persons_view()[k].id != id@);
            }
        }
        None
    }

    /// A copy of the first person with the identifier.
    pub fn get_person(&self, id: &str) -> (r: Result<Person, StoreError>)
        ensures
            match r {
                Ok(p) => exists|ix: int|
                    #[trigger] first_match(self.persons_view(), id@, ix)
                        && p@ == self.persons_view()[ix],
                Err(e) => !has_person(self.persons_view(), id@) && e == StoreError::NotFound,
            },
    {
        match self.find_person(id) {
            Some(ix) => {
                let p = self.persons[ix].clone();
                proof {
                    assert(first_match(self.persons_view(), id@, ix as int));
                }
                Ok(p)
            },
            None => Err(StoreError::NotFound),
        }
    }

    /// Create a person with the given display name and add it to the
    /// session. The caller creates the person's folders and writes the
    /// record; `FileManager::create_person_folder` and
    /// `FileManager::save_person_data` say what those are.
    pub fn add_person(&mut self, name: String) -> (r: Person)
        ensures
            final(self).file_manager == old(self).file_manager,
            final(self).export_import_manager == old(self).export_import_manager,
            final(self).persons_view() == old(self).persons_view().push(r@),
            r@.name == name@,
            r@.id.len() == 36,
            r@.created_at == r@.updated_at,
            r@.created_at.len() > 0,
            r@.notes == Seq::<char>::empty(),
            r@.tags == Seq::<Seq<char>>::empty(),
            r@.information == Seq::<PersonInfoV>::empty(),
            r@.quotes == Seq::<QuoteV>::empty(),
    {
        let person = Person::new(name);
        let out = person.clone();
        self.persons.push(person);
        proof {
            assert(final(self).persons_view() =~= old(self).persons_view().push(out@));
        }
        out
    }

    /// Remove the person with the identifier from the session and hand back
    /// a copy, for the caller to delete the person's directory subtree. An
    /// unknown identifier is `NotFound`.
    pub fn delete_person(&mut self, id: &str) -> (r: Result<Person, StoreError>)
        ensures
            final(self).file_manager == old(self).file_manager,
            final(self).export_import_manager == old(self).export_import_manager,
            match r {
                Ok(p) => p@.id == id@ && final(self).persons_view() == old(
                    self,
                ).persons_view().filter(|q: PersonV| q.id != id@),
                Err(e) => e == StoreError::NotFound && !has_person(old(self).persons_view(), id@)
                    && final(self).persons_view() == old(self).persons_view(),
            },
    {
        match self.find_person(id) {
            None => Err(StoreError::NotFound),
            Some(ix) => {
                let removed = self.persons[ix].clone();
                let ghost before = self.persons_view();
                let mut kept: Vec<Person> = Vec::new();
                let mut i: usize = 0;
                let ghost pred = |q: PersonV| q.id != id@;
                proof {
                    reveal(Seq::filter);
                }
                while i < self.persons.len()
                    invariant
                        i <= self.persons@.len(),
                        before == self.persons_view(),
                        pred == (|q: PersonV| q.id != id@),
                        kept@.map_values(|p: Person| p@) == before.subrange(0, i as int).filter(
                            pred,
                        ),
                    decreases self.persons@.len() - i,
                {
                    let ghost seen = before.subrange(0, i as int);
                    if !crate::chars::str_eq(self.persons[i].id.as_str(), id) {
                        kept.push(self.persons[i].clone());
                    }
                    i = i + 1;
                    proof {
                        reveal(Seq::filter);
                        let seen2 = before.subrange(0, i as int);
                        assert(seen2.drop_last() =~= seen);
                        assert(seen2.last() == before[i - 1]);
                        assert(kept@.map_values(|p: Person| p@) =~= seen2.filter(pred));
                    }
                }
                proof {
                    assert(before.subrange(0, before.len() as int) =~= before);
                }
                self.persons = kept;
                Ok(removed)
            },
        }
    }

    /// Append a typed information entry to the person with the identifier
    /// and hand back the updated person, for the caller to save. An unknown
    /// identifier is `NotFound`.
    pub fn add_information(&mut self, person_id: &str, info_type: String, value: String) -> (r:
        Result<Person, StoreError>)
        ensures
            final(self).file_manager == old(self).file_manager,
            final(self).export_import_manager == old(self).export_import_manager,
            match r {
                Ok(p) => exists|ix: int|
                    #[trigger] first_match(old(self).persons_view(), person_id@, ix) && final(self).persons_view() == old(self).persons_view().update(ix, p@) && info_added(
                        old(self).persons_view()[ix],
                        p@,
                        info_type@,
                        value@,
                    ),
                Err(e) => e == StoreError::NotFound && !has_person(
                    old(self).persons_view(),
                    person_id@,
                ) && final(self).persons_view() == old(self).persons_view(),
            },
    {
        match self.find_person(person_id) {
            None => Err(StoreError::NotFound),
            Some(ix) => {
                let ghost ixg = ix as int;
                let mut p = self.persons.remove(ix);
                p.add_information(info_type, value);
                let out = p.clone();
                self.persons.insert(ix, p);
                proof {
                    assert(final(self).persons_view() =~= old(self).persons_view().update(
                        ixg,
                        out@,
                    ));
                }
                Ok(out)
            },
        }
    }

    /// Remove an information entry by identifier from the person and hand
    /// back the updated person. An absent entry identifier leaves the
    /// entries unchanged; an unknown person is `NotFound`.
    pub fn remove_information(&mut self, person_id: &str, info_id: &str) -> (r: Result<
        Person,
        StoreError,
    >)
        ensures
            final(self).file_manager == old(self).file_manager,
            final(self).export_import_manager == old(self).export_import_manager,
            match r {
                Ok(p) => exists|ix: int|
                    #[trigger] first_match(old(self).persons_view(), person_id@, ix) && final(self).persons_view() == old(self).persons_view().update(ix, p@) && info_removed(
                        old(self).persons_view()[ix],
                        p@,
                        info_id@,
                    ),
                Err(e) => e == StoreError::NotFound && !has_person(
                    old(self).persons_view(),
                    person_id@,
                ) && final(self).persons_view() == old(self).persons_view(),
            },
    {
        match self.find_person(person_id) {
            None => Err(StoreError::NotFound),
            Some(ix) => {
                let ghost ixg = ix as int;
                let mut p = self.persons.remove(ix);
                p.remove_information(info_id);
                let out = p.clone();
                self.persons.insert(ix, p);
                proof {
                    assert(final(self).persons_view() =~= old(self).persons_view().update(
                        ixg,
                        out@,
                    ));
                }
                Ok(out)
            },
        }
    }

    /// Append a quote to the person with the identifier and hand back the
    /// updated person. An unknown identifier is `NotFound`.
    pub fn add_quote(
        &mut self,
        person_id: &str,
        quote: String,
        date: String,
        time: Option<String>,
        place: Option<String>,
    ) -> (r: Result<Person, StoreError>)
        ensures
            final(self).file_manager == old(self).file_manager,
            final(self).export_import_manager == old(self).export_import_manager,
            match r {
                Ok(p) => exists|ix: int|
                    #[trigger] first_match(old(self).persons_view(), person_id@, ix) && final(self).persons_view() == old(self).persons_view().update(ix, p@) && quote_added(
                        old(self).persons_view()[ix],
                        p@,
                        quote@,
                        date@,
                        opt_view(time),
                        opt_view(place),
                    ),
                Err(e) => e == StoreError::NotFound && !has_person(
                    old(self).persons_view(),
                    person_id@,
                ) && final(self).persons_view() == old(self).persons_view(),
            },
    {
        match self.find_person(person_id) {
            None => Err(StoreError::NotFound),
            Some(ix) => {
                let ghost ixg = ix as int;
                let mut p = self.persons.remove(ix);
                p.add_quote(quote, date, time, place);
                let out = p.clone();
                self.persons.insert(ix, p);
                proof {
                    assert(final(self).persons_view() =~= old(self).persons_view().update(
                        ixg,
                        out@,
                    ));
                }
                Ok(out)
            },
        }
    }

    /// Remove a quote by identifier from the person and hand back the
    /// updated person. An absent quote identifier leaves the quotes
    /// unchanged; an unknown person is `NotFound`.
    pub fn remove_quote(&mut self, person_id: &str, quote_id: &str) -> (r: Result<
        Person,
        StoreError,
    >)
        ensures
            final(self).file_manager == old(self).file_manager,
            final(self).export_import_manager == old(self).export_import_manager,
            match r {
                Ok(p) => exists|ix: int|
                    #[trigger] first_match(old(self).persons_view(), person_id@, ix) && final(self).persons_view() == old(self).persons_view().update(ix, p@) && quote_removed(
                        old(self).persons_view()[ix],
                        p@,
                        quote_id@,
                    ),
                Err(e) => e == StoreError::NotFound && !has_person(
                    old(self).persons_view(),
                    person_id@,
                ) && final(self).persons_view() == old(self).persons_view(),
            },
    {
        match self.find_person(person_id) {
            None => Err(StoreError::NotFound),
            Some(ix) => {
                let ghost ixg = ix as int;
                let mut p = self.persons.remove(ix);
                p.remove_quote(quote_id);
                let out = p.clone();
                self.persons.insert(ix, p);
                proof {
                    assert(final(self).persons_view() =~= old(self).persons_view().update(
                        ixg,
                        out@,
                    ));
                }
                Ok(out)
            },
        }
    }

    /// The evidence listing of the person with the identifier, derived from
    /// the walked files the caller hands in; see
    /// `FileManager::scan_person_evidence`.
    pub fn scan_evidence(&self, person_id: &str, files: &Vec<ScanEntry>) -> (r: Result<
        Vec<EvidenceFile>,
        StoreError,
    >)
        ensures
            match r {
                Ok(rows) => exists|ix: int|
                    {
                        &&& #[trigger] first_match(self.persons_view(), person_id@, ix)
                        &&& rows@.len() == crate::file_manager::kept_entries(
                            scan_views(files@),
                        ).len()
                        &&& forall|i: int|
                            0 <= i < rows@.len() ==> crate::file_manager::row_matches(
                                self.persons_view()[ix].id,
                                crate::file_manager::kept_entries(scan_views(files@))[i],
                                (#[trigger] rows@[i])@,
                            )
                    },
                Err(e) => e == StoreError::NotFound && !has_person(
                    self.persons_view(),
                    person_id@,
                ),
            },
    {
        match self.find_person(person_id) {
            None => Err(StoreError::NotFound),
            Some(ix) => {
                proof {
                    assert(first_match(self.persons_view(), person_id@, ix as int));
                }
                Ok(self.file_manager.scan_person_evidence(&self.persons[ix], files))
            },
        }
    }
}

impl BackendState {
    /// What saving a person comes to: the record path and text to write;
    /// see `FileManager::save_person_data`.
    pub fn save_person(&self, person: &Person) -> (r: (String, String))
        ensures
            r.0@ == crate::paths::path_join(
                crate::paths::path_join(
                    self.file_manager.root(),
                    crate::models::folder_of(person@.name),
                ),
                crate::file_manager::record_file_name(),
            ),
            r.1@ == crate::record::render_record(person@),
    {
        self.file_manager.save_person_data(person)
    }

    /// Decide the copy of an outside file into the evidence tree of the
    /// person with the identifier; see `FileManager::copy_file_to_evidence`.
    /// An unknown identifier is `NotFound`.
    pub fn copy_evidence(
        &self,
        person_id: &str,
        source_name: &str,
        evidence_type: EvidenceType,
        existing: &Vec<String>,
        size: u64,
    ) -> (r: Result<(String, EvidenceFile), StoreError>)
        ensures
            match r {
                Ok((target, row)) => has_person(self.persons_view(), person_id@)
                    && crate::paths::has_split(source_name@) && row@.original_name == source_name@
                    && row@.file_type == evidence_type && row@.size == size && row@.file_path
                    == target@,
                Err(e) => {
                    ||| e == StoreError::NotFound && !has_person(self.persons_view(), person_id@)
                    ||| !crate::paths::has_split(source_name@) && e matches StoreError::IOError(_)
                    ||| e == StoreError::UnsupportedType && crate::models::class_of_ext(
                        crate::paths::ext_of(source_name@),
                    ) is None
                },
            },
    {
        match self.find_person(person_id) {
            None => Err(StoreError::NotFound),
            Some(ix) => {
                proof {
                    assert(first_match(self.persons_view(), person_id@, ix as int));
                }
                self.file_manager.copy_file_to_evidence(
                    &self.persons[ix],
                    source_name,
                    evidence_type,
                    existing,
                    size,
                )
            },
        }
    }
}

/// The arguments of an archive export request: the destination file and an
/// optional selection of person identifiers; an absent selection means the
/// whole store.
pub struct ExportRequest {
    pub destination: String,
    pub person_ids: Option<Vec<String>>,
}

/// The arguments of an evidence ingestion request: the person, the source
/// file, and the category name to file it under.
pub struct AddEvidenceRequest {
    pub person_id: String,
    pub source_path: String,
    pub evidence_type: String,
}

// ------------------------------------------------------------------
// Laws of the command surface
// ------------------------------------------------------------------
/// Adding a person to an empty session makes a listing of exactly one
/// person: it carries the given name and holds no information and no
/// quotes. This is what `add_person` followed by `list_persons` shows, read
/// off their contracts.
pub proof fn lemma_add_person_lists_one(
    before: Seq<PersonV>,
    after: Seq<PersonV>,
    added: PersonV,
    name: Seq<char>,
)
    requires
        before.len() == 0,
        after == before.push(added),
        added.name == name,
        added.information.len() == 0,
        added.quotes.len() == 0,
    ensures
        after.len() == 1,
        after[0].name == name,
        after[0].information.len() == 0,
        after[0].quotes.len() == 0,
{
}

/// Removing an information entry nobody carries is a no-op on the entries:
/// the person keeps exactly the entries it had.
pub proof fn lemma_remove_information_absent(entries: Seq<PersonInfoV>, info_id: Seq<char>)
    requires
        forall|i: int| 0 <= i < entries.len() ==> (#[trigger] entries[i]).id != info_id,
    ensures
        entries.filter(|e: PersonInfoV| e.id != info_id) == entries,
    decreases entries.len(),
{
    reveal(Seq::filter);
    if entries.len() == 0 {
        assert(entries.filter(|e: PersonInfoV| e.id != info_id) =~= entries);
    } else {
        lemma_remove_information_absent(entries.drop_last(), info_id);
        assert(entries.filter(|e: PersonInfoV| e.id != info_id) =~= entries);
    }
}

} // verus!
