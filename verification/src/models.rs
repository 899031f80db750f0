//! The data model: persons with typed information entries, quotes and
//! evidence files, plus the pure extension-to-category classifier.
use vstd::prelude::*;

use crate::fresh::{fresh_id, now_rfc3339};

verus! {

/// The evidence categories a file can belong to. `Quote` names a subfolder
/// only; quotes themselves live in the person record.
#[derive(Debug, Clone, Copy, PartialEq, Eq, Structural)]
pub enum EvidenceType {
    Image,
    Audio,
    Video,
    Document,
    Quote,
}

/// Lower-case form of one character, for the ASCII range.
pub open spec fn lower_char(c: char) -> char {
    if 'A' <= c && c <= 'Z' {
        ((c as u32) + 32) as char
    } else {
        c
    }
}

/// Lower-case form of a character sequence, for the ASCII range.
pub open spec fn lower_chars(s: Seq<char>) -> Seq<char> {
    s.map_values(|c: char| lower_char(c))
}

/// The category a lower-case extension is mapped to, if any.
pub open spec fn class_of_lower_ext(e: Seq<char>) -> Option<EvidenceType> {
    if e == "jpg"@ || e == "jpeg"@ || e == "png"@ || e == "gif"@ || e == "bmp"@ || e == "tiff"@
        || e == "webp"@ {
        Some(EvidenceType::Image)
    } else if e == "mp3"@ || e == "wav"@ || e == "flac"@ || e == "aac"@ || e == "ogg"@
        || e == "m4a"@ {
        Some(EvidenceType::Audio)
    } else if e == "mp4"@ || e == "avi"@ || e == "mov"@ || e == "wmv"@ || e == "flv"@
        || e == "webm"@ || e == "mkv"@ {
        Some(EvidenceType::Video)
    } else if e == "pdf"@ || e == "doc"@ || e == "docx"@ || e == "txt"@ || e == "rtf"@ {
        Some(EvidenceType::Document)
    } else {
        None
    }
}

/// The category an extension is mapped to, case-insensitively.
pub open spec fn class_of_ext(e: Seq<char>) -> Option<EvidenceType> {
    class_of_lower_ext(lower_chars(e))
}

impl EvidenceType {
    /// Map a file extension, case-insensitively, to its category; extensions
    /// outside the table are unsupported and yield `None`.
    pub fn from_extension(ext: &str) -> (r: Option<EvidenceType>)
        ensures
            r == class_of_ext(ext@),
    {
        let cs = crate::chars::str_chars(ext);
        let mut low: Vec<char> = Vec::new();
        let mut i: usize = 0;
        while i < cs.len()
            invariant
                i <= cs@.len(),
                low@ == lower_chars(cs@).subrange(0, i as int),
            decreases cs@.len() - i,
        {
            low.push(lower_char_x(cs[i]));
            i = i + 1;
            proof {
                assert(low@ =~= lower_chars(cs@).subrange(0, i as int));
            }
        }
        proof {
            assert(low@ =~= lower_chars(cs@));
        }
        Self::from_lower_extension(&low)
    }

    fn from_lower_extension(low: &Vec<char>) -> (r: Option<EvidenceType>)
        ensures
            r == class_of_lower_ext(low@),
    {
        if crate::chars::chars_eq_str(low, "jpg") || crate::chars::chars_eq_str(low, "jpeg")
            || crate::chars::chars_eq_str(low, "png") || crate::chars::chars_eq_str(low, "gif")
            || crate::chars::chars_eq_str(low, "bmp") || crate::chars::chars_eq_str(low, "tiff")
            || crate::chars::chars_eq_str(low, "webp") {
            Some(EvidenceType::Image)
        } else if crate::chars::chars_eq_str(low, "mp3") || crate::chars::chars_eq_str(low, "wav")
            || crate::chars::chars_eq_str(low, "flac") || crate::chars::chars_eq_str(low, "aac")
            || crate::chars::chars_eq_str(low, "ogg") || crate::chars::chars_eq_str(low, "m4a") {
            Some(EvidenceType::Audio)
        } else if crate::chars::chars_eq_str(low, "mp4") || crate::chars::chars_eq_str(low, "avi")
            || crate::chars::chars_eq_str(low, "mov") || crate::chars::chars_eq_str(low, "wmv")
            || crate::chars::chars_eq_str(low, "flv") || crate::chars::chars_eq_str(low, "webm")
            || crate::chars::chars_eq_str(low, "mkv") {
            Some(EvidenceType::Video)
        } else if crate::chars::chars_eq_str(low, "pdf") || crate::chars::chars_eq_str(low, "doc")
            || crate::chars::chars_eq_str(low, "docx") || crate::chars::chars_eq_str(low, "txt")
            || crate::chars::chars_eq_str(low, "rtf") {
            Some(EvidenceType::Document)
        } else {
            None
        }
    }

    /// Parse a category name as the command surface spells it.
    pub fn from_str(s: &str) -> (r: Option<EvidenceType>)
        ensures
            r == Self::spec_from_str(s@),
    {
        let cs = crate::chars::str_chars(s);
        if crate::chars::chars_eq_str(&cs, "image") {
            Some(EvidenceType::Image)
        } else if crate::chars::chars_eq_str(&cs, "audio") {
            Some(EvidenceType::Audio)
        } else if crate::chars::chars_eq_str(&cs, "video") {
            Some(EvidenceType::Video)
        } else if crate::chars::chars_eq_str(&cs, "document") {
            Some(EvidenceType::Document)
        } else if crate::chars::chars_eq_str(&cs, "quote") {
            Some(EvidenceType::Quote)
        } else {
            None
        }
    }

    pub open spec fn spec_from_str(s: Seq<char>) -> Option<EvidenceType> {
        if s == "image"@ {
            Some(EvidenceType::Image)
        } else if s == "audio"@ {
            Some(EvidenceType::Audio)
        } else if s == "video"@ {
            Some(EvidenceType::Video)
        } else if s == "document"@ {
            Some(EvidenceType::Document)
        } else if s == "quote"@ {
            Some(EvidenceType::Quote)
        } else {
            None
        }
    }

    /// Canonical subfolder name for this evidence category.
    pub fn folder_name(&self) -> (r: &'static str)
        ensures
            r@ == self.folder_name_spec(),
    {
        match self {
            EvidenceType::Image => "images",
            EvidenceType::Audio => "audio",
            EvidenceType::Video => "videos",
            EvidenceType::Document => "documents",
            EvidenceType::Quote => "quotes",
        }
    }

    pub open spec fn folder_name_spec(self) -> Seq<char> {
        match self {
            EvidenceType::Image => "images"@,
            EvidenceType::Audio => "audio"@,
            EvidenceType::Video => "videos"@,
            EvidenceType::Document => "documents"@,
            EvidenceType::Quote => "quotes"@,
        }
    }

    /// All five categories, in canonical order.
    pub fn all() -> (r: Vec<EvidenceType>)
        ensures
            r@ == Self::all_spec(),
    {
        let mut v: Vec<EvidenceType> = Vec::new();
        v.push(EvidenceType::Image);
        v.push(EvidenceType::Audio);
        v.push(EvidenceType::Video);
        v.push(EvidenceType::Document);
        v.push(EvidenceType::Quote);
        proof {
            assert(v@ =~= Self::all_spec());
        }
        v
    }

    pub open spec fn all_spec() -> Seq<EvidenceType> {
        seq![
            EvidenceType::Image,
            EvidenceType::Audio,
            EvidenceType::Video,
            EvidenceType::Document,
            EvidenceType::Quote,
        ]
    }
}

/// Executable lower-casing of one character, ASCII range only.
fn lower_char_x(c: char) -> (r: char)
    ensures
        r == lower_char(c),
{
    match c {
        'A' => 'a',
        'B' => 'b',
        'C' => 'c',
        'D' => 'd',
        'E' => 'e',
        'F' => 'f',
        'G' => 'g',
        'H' => 'h',
        'I' => 'i',
        'J' => 'j',
        'K' => 'k',
        'L' => 'l',
        'M' => 'm',
        'N' => 'n',
        'O' => 'o',
        'P' => 'p',
        'Q' => 'q',
        'R' => 'r',
        'S' => 's',
        'T' => 't',
        'U' => 'u',
        'V' => 'v',
        'W' => 'w',
        'X' => 'x',
        'Y' => 'y',
        'Z' => 'z',
        _ => c,
    }
}

/// The tabs a presentation layer offers over one person's data.
#[derive(Debug, Clone, Copy, PartialEq, Eq, Structural)]
pub enum EvidenceTab {
    Information,
    Images,
    Audio,
    Videos,
    Documents,
    Quotes,
}

impl EvidenceTab {
    /// All tabs, in display order.
    pub fn all() -> (r: Vec<EvidenceTab>)
        ensures
            r@ == Self::all_spec(),
    {
        let mut v: Vec<EvidenceTab> = Vec::new();
        v.push(EvidenceTab::Information);
        v.push(EvidenceTab::Images);
        v.push(EvidenceTab::Audio);
        v.push(EvidenceTab::Videos);
        v.push(EvidenceTab::Documents);
        v.push(EvidenceTab::Quotes);
        proof {
            assert(v@ =~= Self::all_spec());
        }
        v
    }

    pub open spec fn all_spec() -> Seq<EvidenceTab> {
        seq![
            EvidenceTab::Information,
            EvidenceTab::Images,
            EvidenceTab::Audio,
            EvidenceTab::Videos,
            EvidenceTab::Documents,
            EvidenceTab::Quotes,
        ]
    }

    /// Display label of the tab.
    pub fn label(&self) -> (r: &'static str)
        ensures
            r@ == self.label_spec(),
    {
        match self {
            EvidenceTab::Information => "Information",
            EvidenceTab::Images => "Images",
            EvidenceTab::Audio => "Audio",
            EvidenceTab::Videos => "Videos",
            EvidenceTab::Documents => "Documents",
            EvidenceTab::Quotes => "Quotes",
        }
    }

    pub open spec fn label_spec(self) -> Seq<char> {
        match self {
            EvidenceTab::Information => "Information"@,
            EvidenceTab::Images => "Images"@,
            EvidenceTab::Audio => "Audio"@,
            EvidenceTab::Videos => "Videos"@,
            EvidenceTab::Documents => "Documents"@,
            EvidenceTab::Quotes => "Quotes"@,
        }
    }
}

/// One typed key/value entry attached to a person.
#[derive(Debug)]
pub struct PersonInfo {
    pub id: String,
    pub info_type: String,
    pub value: String,
    pub created_at: String,
}

pub struct PersonInfoV {
    pub id: Seq<char>,
    pub info_type: Seq<char>,
    pub value: Seq<char>,
    pub created_at: Seq<char>,
}

impl View for PersonInfo {
    type V = PersonInfoV;

    open spec fn view(&self) -> PersonInfoV {
        PersonInfoV {
            id: self.id@,
            info_type: self.info_type@,
            value: self.value@,
            created_at: self.created_at@,
        }
    }
}

impl Clone for PersonInfo {
    fn clone(&self) -> (r: Self)
        ensures
            r == *self,
    {
        PersonInfo {
            id: self.id.clone(),
            info_type: self.info_type.clone(),
            value: self.value.clone(),
            created_at: self.created_at.clone(),
        }
    }
}

/// A timestamped quote attributed to a person.
#[derive(Debug)]
pub struct Quote {
    pub id: String,
    pub person_id: String,
    pub quote: String,
    pub date: String,
    pub time: Option<String>,
    pub place: Option<String>,
    pub created_at: String,
}

pub struct QuoteV {
    pub id: Seq<char>,
    pub person_id: Seq<char>,
    pub quote: Seq<char>,
    pub date: Seq<char>,
    pub time: Option<Seq<char>>,
    pub place: Option<Seq<char>>,
    pub created_at: Seq<char>,
}

pub open spec fn opt_view(o: Option<String>) -> Option<Seq<char>> {
    match o {
        Some(s) => Some(s@),
        None => None,
    }
}

impl View for Quote {
    type V = QuoteV;

    open spec fn view(&self) -> QuoteV {
        QuoteV {
            id: self.id@,
            person_id: self.person_id@,
            quote: self.quote@,
            date: self.date@,
            time: opt_view(self.time),
            place: opt_view(self.place),
            created_at: self.created_at@,
        }
    }
}

fn clone_opt_string(o: &Option<String>) -> (r: Option<String>)
    ensures
        r == *o,
{
    match o {
        Some(s) => Some(s.clone()),
        None => None,
    }
}

impl Clone for Quote {
    fn clone(&self) -> (r: Self)
        ensures
            r == *self,
    {
        Quote {
            id: self.id.clone(),
            person_id: self.person_id.clone(),
            quote: self.quote.clone(),
            date: self.date.clone(),
            time: clone_opt_string(&self.time),
            place: clone_opt_string(&self.place),
            created_at: self.created_at.clone(),
        }
    }
}

/// A person of interest with notes, tags, information entries and quotes.
#[derive(Debug)]
pub struct Person {
    pub id: String,
    pub name: String,
    pub created_at: String,
    pub updated_at: String,
    pub notes: String,
    pub tags: Vec<String>,
    pub information: Vec<PersonInfo>,
    pub quotes: Vec<Quote>,
}

pub struct PersonV {
    pub id: Seq<char>,
    pub name: Seq<char>,
    pub created_at: Seq<char>,
    pub updated_at: Seq<char>,
    pub notes: Seq<char>,
    pub tags: Seq<Seq<char>>,
    pub information: Seq<PersonInfoV>,
    pub quotes: Seq<QuoteV>,
}

impl View for Person {
    type V = PersonV;

    open spec fn view(&self) -> PersonV {
        PersonV {
            id: self.id@,
            name: self.name@,
            created_at: self.created_at@,
            updated_at: self.updated_at@,
            notes: self.notes@,
            tags: self.tags@.map_values(|s: String| s@),
            information: self.information@.map_values(|e: PersonInfo| e@),
            quotes: self.quotes@.map_values(|e: Quote| e@),
        }
    }
}

fn clone_string_vec(v: &Vec<String>) -> (r: Vec<String>)
    ensures
        r@ == v@,
{
    let mut out: Vec<String> = Vec::new();
    let mut i: usize = 0;
    while i < v.len()
        invariant
            i <= v@.len(),
            out@ == v@.subrange(0, i as int),
        decreases v@.len() - i,
    {
        out.push(v[i].clone());
        i = i + 1;
        proof {
            assert(out@ =~= v@.subrange(0, i as int));
        }
    }
    proof {
        assert(out@ =~= v@);
    }
    out
}

fn clone_info_vec(v: &Vec<PersonInfo>) -> (r: Vec<PersonInfo>)
    ensures
        r@ == v@,
{
    let mut out: Vec<PersonInfo> = Vec::new();
    let mut i: usize = 0;
    while i < v.len()
        invariant
            i <= v@.len(),
            out@ == v@.subrange(0, i as int),
        decreases v@.len() - i,
    {
        out.push(v[i].clone());
        i = i + 1;
        proof {
            assert(out@ =~= v@.subrange(0, i as int));
        }
    }
    proof {
        assert(out@ =~= v@);
    }
    out
}

fn clone_quote_vec(v: &Vec<Quote>) -> (r: Vec<Quote>)
    ensures
        r@ == v@,
{
    let mut out: Vec<Quote> = Vec::new();
    let mut i: usize = 0;
    while i < v.len()
        invariant
            i <= v@.len(),
            out@ == v@.subrange(0, i as int),
        decreases v@.len() - i,
    {
        out.push(v[i].clone());
        i = i + 1;
        proof {
            assert(out@ =~= v@.subrange(0, i as int));
        }
    }
    proof {
        assert(out@ =~= v@);
    }
    out
}

impl Clone for Person {
    fn clone(&self) -> (r: Self)
        ensures
            r@ == self@,
    {
        let r = Person {
            id: self.id.clone(),
            name: self.name.clone(),
            created_at: self.created_at.clone(),
            updated_at: self.updated_at.clone(),
            notes: self.notes.clone(),
            tags: clone_string_vec(&self.tags),
            information: clone_info_vec(&self.information),
            quotes: clone_quote_vec(&self.quotes),
        };
        proof {
            assert(r@.tags =~= self@.tags);
            assert(r@.information =~= self@.information);
            assert(r@.quotes =~= self@.quotes);
        }
        r
    }
}

/// The derived on-disk folder name: the display name with every space
/// replaced by an underscore.
pub open spec fn folder_of(name: Seq<char>) -> Seq<char> {
    name.map_values(|c: char| if c == ' ' { '_' } else { c })
}

/// Fields of a person that no mutation of information or quotes touches.
pub open spec fn same_core(a: PersonV, b: PersonV) -> bool {
    &&& a.id == b.id
    &&& a.name == b.name
    &&& a.created_at == b.created_at
    &&& a.notes == b.notes
    &&& a.tags == b.tags
}

impl Person {
    /// A new person with a fresh identifier, the given display name, equal
    /// creation and update stamps, and everything else empty.
    pub fn new(name: String) -> (p: Person)
        ensures
            p@.name == name@,
            p@.id.len() == 36,
            p@.created_at == p@.updated_at,
            p@.created_at.len() > 0,
            p@.notes == Seq::<char>::empty(),
            p@.tags == Seq::<Seq<char>>::empty(),
            p@.information == Seq::<PersonInfoV>::empty(),
            p@.quotes == Seq::<QuoteV>::empty(),
    {
        let now = now_rfc3339();
        let p = Person {
            id: fresh_id(),
            name,
            created_at: now.clone(),
            updated_at: now,
            notes: String::new(),
            tags: Vec::new(),
            information: Vec::new(),
            quotes: Vec::new(),
        };
        proof {
            assert(p@.tags =~= Seq::<Seq<char>>::empty());
            assert(p@.information =~= Seq::<PersonInfoV>::empty());
            assert(p@.quotes =~= Seq::<QuoteV>::empty());
        }
        p
    }

    /// Refresh the update stamp, leaving every other field as it was.
    pub fn update_timestamp(&mut self)
        ensures
            same_core(final(self)@, old(self)@),
            final(self)@.information == old(self)@.information,
            final(self)@.quotes == old(self)@.quotes,
            final(self)@.updated_at.len() > 0,
    {
        self.updated_at = now_rfc3339();
    }

    /// The on-disk folder name derived from the display name.
    pub fn folder_name(&self) -> (r: String)
        ensures
            r@ == folder_of(self@.name),
    {
        let cs = crate::chars::str_chars(self.name.as_str());
        let mut out: Vec<char> = Vec::new();
        let mut i: usize = 0;
        while i < cs.len()
            invariant
                i <= cs@.len(),
                out@ == folder_of(cs@).subrange(0, i as int),
            decreases cs@.len() - i,
        {
            let c = cs[i];
            if c == ' ' {
                out.push('_');
            } else {
                out.push(c);
            }
            i = i + 1;
            proof {
                assert(out@ =~= folder_of(cs@).subrange(0, i as int));
            }
        }
        proof {
            assert(out@ =~= folder_of(cs@));
        }
        crate::chars::chars_string(&out)
    }

    /// Append a typed information entry with a fresh identifier and refresh
    /// the update stamp.
    pub fn add_information(&mut self, info_type: String, value: String)
        ensures
            same_core(final(self)@, old(self)@),
            final(self)@.quotes == old(self)@.quotes,
            final(self)@.updated_at.len() > 0,
            final(self)@.information.len() == old(self)@.information.len() + 1,
            final(self)@.information.drop_last() == old(self)@.information,
            final(self)@.information.last().info_type == info_type@,
            final(self)@.information.last().value == value@,
            final(self)@.information.last().id.len() == 36,
            final(self)@.information.last().created_at.len() > 0,
    {
        let info = PersonInfo {
            id: fresh_id(),
            info_type,
            value,
            created_at: now_rfc3339(),
        };
        self.information.push(info);
        self.update_timestamp();
        proof {
            assert(final(self)@.information.drop_last() =~= old(self)@.information);
        }
    }

    /// Remove every information entry carrying the given identifier and
    /// refresh the update stamp. An absent identifier leaves the entries
    /// unchanged.
    pub fn remove_information(&mut self, info_id: &str)
        ensures
            same_core(final(self)@, old(self)@),
            final(self)@.quotes == old(self)@.quotes,
            final(self)@.updated_at.len() > 0,
            final(self)@.information == old(self)@.information.filter(
                |i: PersonInfoV| i.id != info_id@,
            ),
    {
        let ghost pred = |i: PersonInfoV| i.id != info_id@;
        let mut kept: Vec<PersonInfo> = Vec::new();
        let mut i: usize = 0;
        proof {
            reveal(Seq::filter);
        }
        while i < self.information.len()
            invariant
                i <= self.information@.len(),
                self.information@.map_values(|e: PersonInfo| e@).subrange(0, i as int).filter(pred)
                    == kept@.map_values(|e: PersonInfo| e@),
                pred == (|e: PersonInfoV| e.id != info_id@),
            decreases self.information@.len() - i,
        {
            let ghost seen = self.information@.map_values(|e: PersonInfo| e@).subrange(
                0,
                i as int,
            );
            let keep = !crate::chars::str_eq(self.information[i].id.as_str(), info_id);
            if keep {
                let e = self.information[i].clone();
                kept.push(e);
            }
            i = i + 1;
            proof {
                reveal(Seq::filter);
                let all = self.information@.map_values(|e: PersonInfo| e@);
                let seen2 = all.subrange(0, i as int);
                assert(seen2.drop_last() =~= seen);
                assert(seen2.last() == self.information@[i - 1]@);
                assert(seen2.filter(pred) == kept@.map_values(|e: PersonInfo| e@));
            }
        }
        proof {
            assert(self.information@.map_values(|e: PersonInfo| e@).subrange(
                0,
                self.information@.len() as int,
            ) =~= self.information@.map_values(|e: PersonInfo| e@));
        }
        self.information = kept;
        self.update_timestamp();
        proof {
            assert(final(self)@.information =~= old(self)@.information.filter(
                |i: PersonInfoV| i.id != info_id@,
            ));
        }
    }

    /// Append a quote with a fresh identifier, carrying this person's
    /// identifier, and refresh the update stamp.
    pub fn add_quote(&mut self, quote: String, date: String, time: Option<String>, place: Option<
        String,
    >)
        ensures
            same_core(final(self)@, old(self)@),
            final(self)@.information == old(self)@.information,
            final(self)@.updated_at.len() > 0,
            final(self)@.quotes.len() == old(self)@.quotes.len() + 1,
            final(self)@.quotes.drop_last() == old(self)@.quotes,
            final(self)@.quotes.last().quote == quote@,
            final(self)@.quotes.last().date == date@,
            final(self)@.quotes.last().time == opt_view(time),
            final(self)@.quotes.last().place == opt_view(place),
            final(self)@.quotes.last().person_id == old(self)@.id,
            final(self)@.quotes.last().id.len() == 36,
            final(self)@.quotes.last().created_at.len() > 0,
    {
        let q = Quote {
            id: fresh_id(),
            person_id: self.id.clone(),
            quote,
            date,
            time,
            place,
            created_at: now_rfc3339(),
        };
        self.quotes.push(q);
        self.update_timestamp();
        proof {
            assert(final(self)@.quotes.drop_last() =~= old(self)@.quotes);
        }
    }

    /// Remove every quote carrying the given identifier and refresh the
    /// update stamp. An absent identifier leaves the quotes unchanged.
    pub fn remove_quote(&mut self, quote_id: &str)
        ensures
            same_core(final(self)@, old(self)@),
            final(self)@.information == old(self)@.information,
            final(self)@.updated_at.len() > 0,
            final(self)@.quotes == old(self)@.quotes.filter(|q: QuoteV| q.id != quote_id@),
    {
        let ghost pred = |q: QuoteV| q.id != quote_id@;
        let mut kept: Vec<Quote> = Vec::new();
        let mut i: usize = 0;
        proof {
            reveal(Seq::filter);
        }
        while i < self.quotes.len()
            invariant
                i <= self.quotes@.len(),
                self.quotes@.map_values(|e: Quote| e@).subrange(0, i as int).filter(pred)
                    == kept@.map_values(|e: Quote| e@),
                pred == (|q: QuoteV| q.id != quote_id@),
            decreases self.quotes@.len() - i,
        {
            let ghost seen = self.quotes@.map_values(|e: Quote| e@).subrange(0, i as int);
            let keep = !crate::chars::str_eq(self.quotes[i].id.as_str(), quote_id);
            if keep {
                let e = self.quotes[i].clone();
                kept.push(e);
            }
            i = i + 1;
            proof {
                reveal(Seq::filter);
                let all = self.quotes@.map_values(|e: Quote| e@);
                let seen2 = all.subrange(0, i as int);
                assert(seen2.drop_last() =~= seen);
                assert(seen2.last() == self.quotes@[i - 1]@);
                assert(seen2.filter(pred) == kept@.map_values(|e: Quote| e@));
            }
        }
        proof {
            assert(self.quotes@.map_values(|e: Quote| e@).subrange(
                0,
                self.quotes@.len() as int,
            ) =~= self.quotes@.map_values(|e: Quote| e@));
        }
        self.quotes = kept;
        self.update_timestamp();
        proof {
            assert(final(self)@.quotes =~= old(self)@.quotes.filter(
                |q: QuoteV| q.id != quote_id@,
            ));
        }
    }
}

/// A categorized evidence file discovered under a person's directory. Its
/// identifier is ephemeral: a scan mints fresh ones every time.
#[derive(Debug)]
pub struct EvidenceFile {
    pub id: String,
    pub person_id: String,
    pub file_path: String,
    pub file_type: EvidenceType,
    pub original_name: String,
    pub size: u64,
    pub created_at: String,
    pub notes: String,
}

pub struct EvidenceFileV {
    pub id: Seq<char>,
    pub person_id: Seq<char>,
    pub file_path: Seq<char>,
    pub file_type: EvidenceType,
    pub original_name: Seq<char>,
    pub size: u64,
    pub created_at: Seq<char>,
    pub notes: Seq<char>,
}

impl View for EvidenceFile {
    type V = EvidenceFileV;

    open spec fn view(&self) -> EvidenceFileV {
        EvidenceFileV {
            id: self.id@,
            person_id: self.person_id@,
            file_path: self.file_path@,
            file_type: self.file_type,
            original_name: self.original_name@,
            size: self.size,
            created_at: self.created_at@,
            notes: self.notes@,
        }
    }
}

impl Clone for EvidenceFile {
    fn clone(&self) -> (r: Self)
        ensures
            r == *self,
    {
        EvidenceFile {
            id: self.id.clone(),
            person_id: self.person_id.clone(),
            file_path: self.file_path.clone(),
            file_type: self.file_type,
            original_name: self.original_name.clone(),
            size: self.size,
            created_at: self.created_at.clone(),
            notes: self.notes.clone(),
        }
    }
}

} // verus!
