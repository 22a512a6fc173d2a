//! The ComicInfo.xml metadata document: its fields and how a document is read.
use vstd::prelude::*;
use vstd::string::StringExecFns;
use crate::paths::last_index_of;
use crate::text::{chars_of, string_from_chars, trim, trim_chars};
use crate::xml::{item_views, read_xml_items, xml_items_of, XmlItem};

verus! {

/// The metadata that a ComicInfo.xml document holds; each field is the first non-blank
/// value found for its element, trimmed.
#[derive(Debug, PartialEq, Eq)]
pub struct ComicInfoDocument {
    pub title: Option<String>,
    pub series: Option<String>,
    pub number: Option<String>,
    pub count: Option<String>,
    pub volume: Option<String>,
    pub alternate_series: Option<String>,
    pub alternate_number: Option<String>,
    pub summary: Option<String>,
    pub year: Option<String>,
    pub month: Option<String>,
    pub day: Option<String>,
    pub writer: Option<String>,
    pub penciller: Option<String>,
    pub inker: Option<String>,
    pub colorist: Option<String>,
    pub letterer: Option<String>,
    pub cover_artist: Option<String>,
    pub editor: Option<String>,
    pub translator: Option<String>,
    pub publisher: Option<String>,
    pub genre: Option<String>,
    pub tags: Option<String>,
    pub web: Option<String>,
    pub language_iso: Option<String>,
    pub manga: Option<String>,
    pub story_arc: Option<String>,
    pub story_arc_number: Option<String>,
    pub series_group: Option<String>,
    pub age_rating: Option<String>,
    pub gtin: Option<String>,
}

/// The elements of a ComicInfo.xml document that the library reads.
#[derive(Clone, Copy, Debug, PartialEq, Eq)]
pub enum ComicInfoField {
    Title,
    Series,
    Number,
    Count,
    Volume,
    AlternateSeries,
    AlternateNumber,
    Summary,
    Year,
    Month,
    Day,
    Writer,
    Penciller,
    Inker,
    Colorist,
    Letterer,
    CoverArtist,
    Editor,
    Translator,
    Publisher,
    Genre,
    Tags,
    Web,
    LanguageIso,
    Manga,
    StoryArc,
    StoryArcNumber,
    SeriesGroup,
    AgeRating,
    Gtin,
}

/// The element name of a field.
pub open spec fn comicinfo_field_name(field: ComicInfoField) -> Seq<char> {
    match field {
        ComicInfoField::Title => seq!['T', 'i', 't', 'l', 'e'],
        ComicInfoField::Series => seq!['S', 'e', 'r', 'i', 'e', 's'],
        ComicInfoField::Number => seq!['N', 'u', 'm', 'b', 'e', 'r'],
        ComicInfoField::Count => seq!['C', 'o', 'u', 'n', 't'],
        ComicInfoField::Volume => seq!['V', 'o', 'l', 'u', 'm', 'e'],
        ComicInfoField::AlternateSeries => seq!['A', 'l', 't', 'e', 'r', 'n', 'a', 't', 'e', 'S', 'e', 'r', 'i', 'e', 's'],
        ComicInfoField::AlternateNumber => seq!['A', 'l', 't', 'e', 'r', 'n', 'a', 't', 'e', 'N', 'u', 'm', 'b', 'e', 'r'],
        ComicInfoField::Summary => seq!['S', 'u', 'm', 'm', 'a', 'r', 'y'],
        ComicInfoField::Year => seq!['Y', 'e', 'a', 'r'],
        ComicInfoField::Month => seq!['M', 'o', 'n', 't', 'h'],
        ComicInfoField::Day => seq!['D', 'a', 'y'],
        ComicInfoField::Writer => seq!['W', 'r', 'i', 't', 'e', 'r'],
        ComicInfoField::Penciller => seq!['P', 'e', 'n', 'c', 'i', 'l', 'l', 'e', 'r'],
        ComicInfoField::Inker => seq!['I', 'n', 'k', 'e', 'r'],
        ComicInfoField::Colorist => seq!['C', 'o', 'l', 'o', 'r', 'i', 's', 't'],
        ComicInfoField::Letterer => seq!['L', 'e', 't', 't', 'e', 'r', 'e', 'r'],
        ComicInfoField::CoverArtist => seq!['C', 'o', 'v', 'e', 'r', 'A', 'r', 't', 'i', 's', 't'],
        ComicInfoField::Editor => seq!['E', 'd', 'i', 't', 'o', 'r'],
        ComicInfoField::Translator => seq!['T', 'r', 'a', 'n', 's', 'l', 'a', 't', 'o', 'r'],
        ComicInfoField::Publisher => seq!['P', 'u', 'b', 'l', 'i', 's', 'h', 'e', 'r'],
        ComicInfoField::Genre => seq!['G', 'e', 'n', 'r', 'e'],
        ComicInfoField::Tags => seq!['T', 'a', 'g', 's'],
        ComicInfoField::Web => seq!['W', 'e', 'b'],
        ComicInfoField::LanguageIso => seq!['L', 'a', 'n', 'g', 'u', 'a', 'g', 'e', 'I', 'S', 'O'],
        ComicInfoField::Manga => seq!['M', 'a', 'n', 'g', 'a'],
        ComicInfoField::StoryArc => seq!['S', 't', 'o', 'r', 'y', 'A', 'r', 'c'],
        ComicInfoField::StoryArcNumber => seq!['S', 't', 'o', 'r', 'y', 'A', 'r', 'c', 'N', 'u', 'm', 'b', 'e', 'r'],
        ComicInfoField::SeriesGroup => seq!['S', 'e', 'r', 'i', 'e', 's', 'G', 'r', 'o', 'u', 'p'],
        ComicInfoField::AgeRating => seq!['A', 'g', 'e', 'R', 'a', 't', 'i', 'n', 'g'],
        ComicInfoField::Gtin => seq!['G', 'T', 'I', 'N'],
    }
}

/// The field an element name selects, if any.
pub open spec fn comicinfo_field_for(name: Seq<char>) -> Option<ComicInfoField> {
    if name == seq!['T', 'i', 't', 'l', 'e'] {
        Some(ComicInfoField::Title)
    }
    else if name == seq!['S', 'e', 'r', 'i', 'e', 's'] {
        Some(ComicInfoField::Series)
    }
    else if name == seq!['N', 'u', 'm', 'b', 'e', 'r'] {
        Some(ComicInfoField::Number)
    }
    else if name == seq!['C', 'o', 'u', 'n', 't'] {
        Some(ComicInfoField::Count)
    }
    else if name == seq!['V', 'o', 'l', 'u', 'm', 'e'] {
        Some(ComicInfoField::Volume)
    }
    else if name == seq!['A', 'l', 't', 'e', 'r', 'n', 'a', 't', 'e', 'S', 'e', 'r', 'i', 'e', 's'] {
        Some(ComicInfoField::AlternateSeries)
    }
    else if name == seq!['A', 'l', 't', 'e', 'r', 'n', 'a', 't', 'e', 'N', 'u', 'm', 'b', 'e', 'r'] {
        Some(ComicInfoField::AlternateNumber)
    }
    else if name == seq!['S', 'u', 'm', 'm', 'a', 'r', 'y'] {
        Some(ComicInfoField::Summary)
    }
    else if name == seq!['Y', 'e', 'a', 'r'] {
        Some(ComicInfoField::Year)
    }
    else if name == seq!['M', 'o', 'n', 't', 'h'] {
        Some(ComicInfoField::Month)
    }
    else if name == seq!['D', 'a', 'y'] {
        Some(ComicInfoField::Day)
    }
    else if name == seq!['W', 'r', 'i', 't', 'e', 'r'] {
        Some(ComicInfoField::Writer)
    }
    else if name == seq!['P', 'e', 'n', 'c', 'i', 'l', 'l', 'e', 'r'] {
        Some(ComicInfoField::Penciller)
    }
    else if name == seq!['I', 'n', 'k', 'e', 'r'] {
        Some(ComicInfoField::Inker)
    }
    else if name == seq!['C', 'o', 'l', 'o', 'r', 'i', 's', 't'] {
        Some(ComicInfoField::Colorist)
    }
    else if name == seq!['L', 'e', 't', 't', 'e', 'r', 'e', 'r'] {
        Some(ComicInfoField::Letterer)
    }
    else if name == seq!['C', 'o', 'v', 'e', 'r', 'A', 'r', 't', 'i', 's', 't'] {
        Some(ComicInfoField::CoverArtist)
    }
    else if name == seq!['E', 'd', 'i', 't', 'o', 'r'] {
        Some(ComicInfoField::Editor)
    }
    else if name == seq!['T', 'r', 'a', 'n', 's', 'l', 'a', 't', 'o', 'r'] {
        Some(ComicInfoField::Translator)
    }
    else if name == seq!['P', 'u', 'b', 'l', 'i', 's', 'h', 'e', 'r'] {
        Some(ComicInfoField::Publisher)
    }
    else if name == seq!['G', 'e', 'n', 'r', 'e'] {
        Some(ComicInfoField::Genre)
    }
    else if name == seq!['T', 'a', 'g', 's'] {
        Some(ComicInfoField::Tags)
    }
    else if name == seq!['W', 'e', 'b'] {
        Some(ComicInfoField::Web)
    }
    else if name == seq!['L', 'a', 'n', 'g', 'u', 'a', 'g', 'e', 'I', 'S', 'O'] {
        Some(ComicInfoField::LanguageIso)
    }
    else if name == seq!['M', 'a', 'n', 'g', 'a'] {
        Some(ComicInfoField::Manga)
    }
    else if name == seq!['S', 't', 'o', 'r', 'y', 'A', 'r', 'c'] {
        Some(ComicInfoField::StoryArc)
    }
    else if name == seq!['S', 't', 'o', 'r', 'y', 'A', 'r', 'c', 'N', 'u', 'm', 'b', 'e', 'r'] {
        Some(ComicInfoField::StoryArcNumber)
    }
    else if name == seq!['S', 'e', 'r', 'i', 'e', 's', 'G', 'r', 'o', 'u', 'p'] {
        Some(ComicInfoField::SeriesGroup)
    }
    else if name == seq!['A', 'g', 'e', 'R', 'a', 't', 'i', 'n', 'g'] {
        Some(ComicInfoField::AgeRating)
    }
    else if name == seq!['G', 'T', 'I', 'N'] {
        Some(ComicInfoField::Gtin)
    }
 else {
        None
    }
}

/// The value of one field of a document.
pub open spec fn document_field(d: ComicInfoDocument, field: ComicInfoField) -> Option<String> {
    match field {
        ComicInfoField::Title => d.title,
        ComicInfoField::Series => d.series,
        ComicInfoField::Number => d.number,
        ComicInfoField::Count => d.count,
        ComicInfoField::Volume => d.volume,
        ComicInfoField::AlternateSeries => d.alternate_series,
        ComicInfoField::AlternateNumber => d.alternate_number,
        ComicInfoField::Summary => d.summary,
        ComicInfoField::Year => d.year,
        ComicInfoField::Month => d.month,
        ComicInfoField::Day => d.day,
        ComicInfoField::Writer => d.writer,
        ComicInfoField::Penciller => d.penciller,
        ComicInfoField::Inker => d.inker,
        ComicInfoField::Colorist => d.colorist,
        ComicInfoField::Letterer => d.letterer,
        ComicInfoField::CoverArtist => d.cover_artist,
        ComicInfoField::Editor => d.editor,
        ComicInfoField::Translator => d.translator,
        ComicInfoField::Publisher => d.publisher,
        ComicInfoField::Genre => d.genre,
        ComicInfoField::Tags => d.tags,
        ComicInfoField::Web => d.web,
        ComicInfoField::LanguageIso => d.language_iso,
        ComicInfoField::Manga => d.manga,
        ComicInfoField::StoryArc => d.story_arc,
        ComicInfoField::StoryArcNumber => d.story_arc_number,
        ComicInfoField::SeriesGroup => d.series_group,
        ComicInfoField::AgeRating => d.age_rating,
        ComicInfoField::Gtin => d.gtin,
    }
}

/// The document as a map from each field that has a value to that value.
pub open spec fn document_view(d: ComicInfoDocument) -> Map<ComicInfoField, Seq<char>> {
    Map::new(|f: ComicInfoField| document_field(d, f) is Some, |f: ComicInfoField| document_field(d, f)->0@)
}

impl ComicInfoField {
    /// The field that an element's local name selects.
    pub fn from_name(name: &str) -> (r: Option<ComicInfoField>)
        ensures
            r == comicinfo_field_for(name@),
    {
        let chars = chars_of(name);
        proof {
            reveal_strlit("Title");
            assert("Title"@ =~= seq!['T', 'i', 't', 'l', 'e']);
            reveal_strlit("Series");
            assert("Series"@ =~= seq!['S', 'e', 'r', 'i', 'e', 's']);
            reveal_strlit("Number");
            assert("Number"@ =~= seq!['N', 'u', 'm', 'b', 'e', 'r']);
            reveal_strlit("Count");
            assert("Count"@ =~= seq!['C', 'o', 'u', 'n', 't']);
            reveal_strlit("Volume");
            assert("Volume"@ =~= seq!['V', 'o', 'l', 'u', 'm', 'e']);
            reveal_strlit("AlternateSeries");
            assert("AlternateSeries"@ =~= seq!['A', 'l', 't', 'e', 'r', 'n', 'a', 't', 'e', 'S', 'e', 'r', 'i', 'e', 's']);
            reveal_strlit("AlternateNumber");
            assert("AlternateNumber"@ =~= seq!['A', 'l', 't', 'e', 'r', 'n', 'a', 't', 'e', 'N', 'u', 'm', 'b', 'e', 'r']);
            reveal_strlit("Summary");
            assert("Summary"@ =~= seq!['S', 'u', 'm', 'm', 'a', 'r', 'y']);
            reveal_strlit("Year");
            assert("Year"@ =~= seq!['Y', 'e', 'a', 'r']);
            reveal_strlit("Month");
            assert("Month"@ =~= seq!['M', 'o', 'n', 't', 'h']);
            reveal_strlit("Day");
            assert("Day"@ =~= seq!['D', 'a', 'y']);
            reveal_strlit("Writer");
            assert("Writer"@ =~= seq!['W', 'r', 'i', 't', 'e', 'r']);
            reveal_strlit("Penciller");
            assert("Penciller"@ =~= seq!['P', 'e', 'n', 'c', 'i', 'l', 'l', 'e', 'r']);
            reveal_strlit("Inker");
            assert("Inker"@ =~= seq!['I', 'n', 'k', 'e', 'r']);
            reveal_strlit("Colorist");
            assert("Colorist"@ =~= seq!['C', 'o', 'l', 'o', 'r', 'i', 's', 't']);
            reveal_strlit("Letterer");
            assert("Letterer"@ =~= seq!['L', 'e', 't', 't', 'e', 'r', 'e', 'r']);
            reveal_strlit("CoverArtist");
            assert("CoverArtist"@ =~= seq!['C', 'o', 'v', 'e', 'r', 'A', 'r', 't', 'i', 's', 't']);
            reveal_strlit("Editor");
            assert("Editor"@ =~= seq!['E', 'd', 'i', 't', 'o', 'r']);
            reveal_strlit("Translator");
            assert("Translator"@ =~= seq!['T', 'r', 'a', 'n', 's', 'l', 'a', 't', 'o', 'r']);
            reveal_strlit("Publisher");
            assert("Publisher"@ =~= seq!['P', 'u', 'b', 'l', 'i', 's', 'h', 'e', 'r']);
            reveal_strlit("Genre");
            assert("Genre"@ =~= seq!['G', 'e', 'n', 'r', 'e']);
            reveal_strlit("Tags");
            assert("Tags"@ =~= seq!['T', 'a', 'g', 's']);
            reveal_strlit("Web");
            assert("Web"@ =~= seq!['W', 'e', 'b']);
            reveal_strlit("LanguageISO");
            assert("LanguageISO"@ =~= seq!['L', 'a', 'n', 'g', 'u', 'a', 'g', 'e', 'I', 'S', 'O']);
            reveal_strlit("Manga");
            assert("Manga"@ =~= seq!['M', 'a', 'n', 'g', 'a']);
            reveal_strlit("StoryArc");
            assert("StoryArc"@ =~= seq!['S', 't', 'o', 'r', 'y', 'A', 'r', 'c']);
            reveal_strlit("StoryArcNumber");
            assert("StoryArcNumber"@ =~= seq!['S', 't', 'o', 'r', 'y', 'A', 'r', 'c', 'N', 'u', 'm', 'b', 'e', 'r']);
            reveal_strlit("SeriesGroup");
            assert("SeriesGroup"@ =~= seq!['S', 'e', 'r', 'i', 'e', 's', 'G', 'r', 'o', 'u', 'p']);
            reveal_strlit("AgeRating");
            assert("AgeRating"@ =~= seq!['A', 'g', 'e', 'R', 'a', 't', 'i', 'n', 'g']);
            reveal_strlit("GTIN");
            assert("GTIN"@ =~= seq!['G', 'T', 'I', 'N']);
        }
        if crate::text::chars_equal(chars.as_slice(), chars_of("Title").as_slice()) {
            Some(ComicInfoField::Title)
        }
        else if crate::text::chars_equal(chars.as_slice(), chars_of("Series").as_slice()) {
            Some(ComicInfoField::Series)
        }
        else if crate::text::chars_equal(chars.as_slice(), chars_of("Number").as_slice()) {
            Some(ComicInfoField::Number)
        }
        else if crate::text::chars_equal(chars.as_slice(), chars_of("Count").as_slice()) {
            Some(ComicInfoField::Count)
        }
        else if crate::text::chars_equal(chars.as_slice(), chars_of("Volume").as_slice()) {
            Some(ComicInfoField::Volume)
        }
        else if crate::text::chars_equal(chars.as_slice(), chars_of("AlternateSeries").as_slice()) {
            Some(ComicInfoField::AlternateSeries)
        }
        else if crate::text::chars_equal(chars.as_slice(), chars_of("AlternateNumber").as_slice()) {
            Some(ComicInfoField::AlternateNumber)
        }
        else if crate::text::chars_equal(chars.as_slice(), chars_of("Summary").as_slice()) {
            Some(ComicInfoField::Summary)
        }
        else if crate::text::chars_equal(chars.as_slice(), chars_of("Year").as_slice()) {
            Some(ComicInfoField::Year)
        }
        else if crate::text::chars_equal(chars.as_slice(), chars_of("Month").as_slice()) {
            Some(ComicInfoField::Month)
        }
        else if crate::text::chars_equal(chars.as_slice(), chars_of("Day").as_slice()) {
            Some(ComicInfoField::Day)
        }
        else if crate::text::chars_equal(chars.as_slice(), chars_of("Writer").as_slice()) {
            Some(ComicInfoField::Writer)
        }
        else if crate::text::chars_equal(chars.as_slice(), chars_of("Penciller").as_slice()) {
            Some(ComicInfoField::Penciller)
        }
        else if crate::text::chars_equal(chars.as_slice(), chars_of("Inker").as_slice()) {
            Some(ComicInfoField::Inker)
        }
        else if crate::text::chars_equal(chars.as_slice(), chars_of("Colorist").as_slice()) {
            Some(ComicInfoField::Colorist)
        }
        else if crate::text::chars_equal(chars.as_slice(), chars_of("Letterer").as_slice()) {
            Some(ComicInfoField::Letterer)
        }
        else if crate::text::chars_equal(chars.as_slice(), chars_of("CoverArtist").as_slice()) {
            Some(ComicInfoField::CoverArtist)
        }
        else if crate::text::chars_equal(chars.as_slice(), chars_of("Editor").as_slice()) {
            Some(ComicInfoField::Editor)
        }
        else if crate::text::chars_equal(chars.as_slice(), chars_of("Translator").as_slice()) {
            Some(ComicInfoField::Translator)
        }
        else if crate::text::chars_equal(chars.as_slice(), chars_of("Publisher").as_slice()) {
            Some(ComicInfoField::Publisher)
        }
        else if crate::text::chars_equal(chars.as_slice(), chars_of("Genre").as_slice()) {
            Some(ComicInfoField::Genre)
        }
        else if crate::text::chars_equal(chars.as_slice(), chars_of("Tags").as_slice()) {
            Some(ComicInfoField::Tags)
        }
        else if crate::text::chars_equal(chars.as_slice(), chars_of("Web").as_slice()) {
            Some(ComicInfoField::Web)
        }
        else if crate::text::chars_equal(chars.as_slice(), chars_of("LanguageISO").as_slice()) {
            Some(ComicInfoField::LanguageIso)
        }
        else if crate::text::chars_equal(chars.as_slice(), chars_of("Manga").as_slice()) {
            Some(ComicInfoField::Manga)
        }
        else if crate::text::chars_equal(chars.as_slice(), chars_of("StoryArc").as_slice()) {
            Some(ComicInfoField::StoryArc)
        }
        else if crate::text::chars_equal(chars.as_slice(), chars_of("StoryArcNumber").as_slice()) {
            Some(ComicInfoField::StoryArcNumber)
        }
        else if crate::text::chars_equal(chars.as_slice(), chars_of("SeriesGroup").as_slice()) {
            Some(ComicInfoField::SeriesGroup)
        }
        else if crate::text::chars_equal(chars.as_slice(), chars_of("AgeRating").as_slice()) {
            Some(ComicInfoField::AgeRating)
        }
        else if crate::text::chars_equal(chars.as_slice(), chars_of("GTIN").as_slice()) {
            Some(ComicInfoField::Gtin)
        }
        else {
            None
        }
    }
}

impl ComicInfoDocument {
    /// A document with no fields set.
    pub fn new() -> (d: ComicInfoDocument)
        ensures
            document_view(d) == Map::<ComicInfoField, Seq<char>>::empty(),
    {
        let d = ComicInfoDocument {
            title: None,
            series: None,
            number: None,
            count: None,
            volume: None,
            alternate_series: None,
            alternate_number: None,
            summary: None,
            year: None,
            month: None,
            day: None,
            writer: None,
            penciller: None,
            inker: None,
            colorist: None,
            letterer: None,
            cover_artist: None,
            editor: None,
            translator: None,
            publisher: None,
            genre: None,
            tags: None,
            web: None,
            language_iso: None,
            manga: None,
            story_arc: None,
            story_arc_number: None,
            series_group: None,
            age_rating: None,
            gtin: None,
        };
        proof {
            assert(document_view(d) =~= Map::<ComicInfoField, Seq<char>>::empty());
        }
        d
    }
}

} // verus!

verus! {

/// A document map after an element's text is offered for `field`: the first non-blank
/// value, trimmed, is kept.
pub open spec fn offer_field(m: Map<ComicInfoField, Seq<char>>, field: ComicInfoField, value: Seq<char>) -> Map<ComicInfoField, Seq<char>> {
    if m.contains_key(field) || trim(value).len() == 0 {
        m
    } else {
        m.insert(field, trim(value))
    }
}

fn fill_slot(slot: &mut Option<String>, value: &str)
    ensures
        (*old(slot)) is Some ==> *final(slot) == *old(slot),
        (*old(slot)) is None && trim(value@).len() > 0 ==> (*final(slot) matches Some(s) && s@ == trim(value@)),
        (*old(slot)) is None && trim(value@).len() == 0 ==> (*final(slot)) is None,
{
    if slot.is_none() {
        let trimmed = trim_chars(chars_of(value).as_slice());
        if trimmed.len() > 0 {
            *slot = Some(string_from_chars(trimmed.as_slice()));
        }
    }
}

impl ComicInfoDocument {
    /// Offers an element's text for a field: kept, trimmed, when the field has no value yet
    /// and the text is not blank.
    pub fn set_field(&mut self, field: ComicInfoField, value: String)
        ensures
            document_view(*final(self)) == offer_field(document_view(*old(self)), field, value@),
    {
        let v = value.as_str();
        match field {
            ComicInfoField::Title => fill_slot(&mut self.title, v),
            ComicInfoField::Series => fill_slot(&mut self.series, v),
            ComicInfoField::Number => fill_slot(&mut self.number, v),
            ComicInfoField::Count => fill_slot(&mut self.count, v),
            ComicInfoField::Volume => fill_slot(&mut self.volume, v),
            ComicInfoField::AlternateSeries => fill_slot(&mut self.alternate_series, v),
            ComicInfoField::AlternateNumber => fill_slot(&mut self.alternate_number, v),
            ComicInfoField::Summary => fill_slot(&mut self.summary, v),
            ComicInfoField::Year => fill_slot(&mut self.year, v),
            ComicInfoField::Month => fill_slot(&mut self.month, v),
            ComicInfoField::Day => fill_slot(&mut self.day, v),
            ComicInfoField::Writer => fill_slot(&mut self.writer, v),
            ComicInfoField::Penciller => fill_slot(&mut self.penciller, v),
            ComicInfoField::Inker => fill_slot(&mut self.inker, v),
            ComicInfoField::Colorist => fill_slot(&mut self.colorist, v),
            ComicInfoField::Letterer => fill_slot(&mut self.letterer, v),
            ComicInfoField::CoverArtist => fill_slot(&mut self.cover_artist, v),
            ComicInfoField::Editor => fill_slot(&mut self.editor, v),
            ComicInfoField::Translator => fill_slot(&mut self.translator, v),
            ComicInfoField::Publisher => fill_slot(&mut self.publisher, v),
            ComicInfoField::Genre => fill_slot(&mut self.genre, v),
            ComicInfoField::Tags => fill_slot(&mut self.tags, v),
            ComicInfoField::Web => fill_slot(&mut self.web, v),
            ComicInfoField::LanguageIso => fill_slot(&mut self.language_iso, v),
            ComicInfoField::Manga => fill_slot(&mut self.manga, v),
            ComicInfoField::StoryArc => fill_slot(&mut self.story_arc, v),
            ComicInfoField::StoryArcNumber => fill_slot(&mut self.story_arc_number, v),
            ComicInfoField::SeriesGroup => fill_slot(&mut self.series_group, v),
            ComicInfoField::AgeRating => fill_slot(&mut self.age_rating, v),
            ComicInfoField::Gtin => fill_slot(&mut self.gtin, v),
        }
        proof {
            assert(document_view(*final(self)) =~= offer_field(document_view(*old(self)), field, value@));
        }
    }
}

} // verus!

verus! {

/// The part of an element name after its namespace prefix.
pub open spec fn local_name(name: Seq<char>) -> Seq<char> {
    name.skip(last_index_of(name, ':') + 1)
}

/// The part of an element name after its last `:`.
pub fn local_xml_name(name: &str) -> (local: String)
    ensures
        local@ == local_name(name@),
{
    let chars = chars_of(name);
    let mut k = chars.len();
    proof {
        assert(chars@.take(k as int) =~= chars@);
    }
    while k > 0 && chars[k - 1] != ':'
        invariant
            k <= chars@.len(),
            chars@ == name@,
            last_index_of(name@, ':') == last_index_of(chars@.take(k as int), ':'),
        decreases k,
    {
        proof {
            assert(chars@.take(k as int).drop_last() =~= chars@.take(k - 1));
        }
        k = k - 1;
    }
    proof {
        if k > 0 {
            assert(chars@.take(k as int).last() == ':');
        }
    }
    let mut out: Vec<char> = Vec::new();
    let mut i = k;
    while i < chars.len()
        invariant
            k <= i <= chars@.len(),
            out@ == chars@.subrange(k as int, i as int),
        decreases chars@.len() - i,
    {
        out.push(chars[i]);
        i = i + 1;
        proof {
            assert(out@ =~= chars@.subrange(k as int, i as int));
        }
    }
    proof {
        assert(out@ =~= name@.skip(k as int));
    }
    string_from_chars(out.as_slice())
}

/// Why a ComicInfo.xml document could not be read.
#[derive(Debug)]
pub enum ComicInfoError {
    /// The root element is not `ComicInfo`; its local name.
    UnexpectedRoot(String),
    /// A closing tag with no open element.
    UnexpectedClose,
    /// The document ended before a complete `ComicInfo` root.
    IncompleteRoot,
    /// The XML itself is malformed; the reader's message.
    Malformed(String),
    /// Text inside a field could not be decoded.
    TextDecode,
    /// A reference inside a field could not be resolved; why.
    Reference(String),
}

/// The ghost form of a [`ComicInfoError`].
pub enum ComicInfoFailure {
    UnexpectedRoot(Seq<char>),
    UnexpectedClose,
    IncompleteRoot,
    Malformed(Seq<char>),
    TextDecode,
    Reference(Seq<char>),
}

impl View for ComicInfoError {
    type V = ComicInfoFailure;

    open spec fn view(&self) -> ComicInfoFailure {
        match self {
            ComicInfoError::UnexpectedRoot(n) => ComicInfoFailure::UnexpectedRoot(n@),
            ComicInfoError::UnexpectedClose => ComicInfoFailure::UnexpectedClose,
            ComicInfoError::IncompleteRoot => ComicInfoFailure::IncompleteRoot,
            ComicInfoError::Malformed(m) => ComicInfoFailure::Malformed(m@),
            ComicInfoError::TextDecode => ComicInfoFailure::TextDecode,
            ComicInfoError::Reference(m) => ComicInfoFailure::Reference(m@),
        }
    }
}

/// The human-readable description of a ComicInfo failure.
pub open spec fn comicinfo_failure_message(f: ComicInfoFailure) -> Seq<char> {
    match f {
        ComicInfoFailure::UnexpectedRoot(name) => "unexpected ComicInfo root element '"@ + name + "', expected 'ComicInfo'"@,
        ComicInfoFailure::UnexpectedClose => "unexpected ComicInfo closing element"@,
        ComicInfoFailure::IncompleteRoot => "ComicInfo.xml did not contain a complete ComicInfo root"@,
        ComicInfoFailure::Malformed(_) => "failed to parse ComicInfo.xml"@,
        ComicInfoFailure::TextDecode => "decode ComicInfo.xml text"@,
        ComicInfoFailure::Reference(m) => m,
    }
}

impl ComicInfoError {
    /// A human-readable description of the failure.
    pub fn message(&self) -> (text: String)
        ensures
            text@ == comicinfo_failure_message(self@),
    {
        match self {
            ComicInfoError::UnexpectedRoot(name) => {
                let mut text = String::from_str("unexpected ComicInfo root element '");
                text.append(name.as_str());
                text.append("', expected 'ComicInfo'");
                text
            },
            ComicInfoError::UnexpectedClose => String::from_str("unexpected ComicInfo closing element"),
            ComicInfoError::IncompleteRoot => String::from_str("ComicInfo.xml did not contain a complete ComicInfo root"),
            ComicInfoError::Malformed(_) => String::from_str("failed to parse ComicInfo.xml"),
            ComicInfoError::TextDecode => String::from_str("decode ComicInfo.xml text"),
            ComicInfoError::Reference(message) => message.clone(),
        }
    }
}

/// The state of reading a ComicInfo.xml document event by event.
pub struct ComicInfoParse {
    pub doc: Map<ComicInfoField, Seq<char>>,
    pub depth: int,
    pub saw_root: bool,
    pub field: Option<ComicInfoField>,
    pub value: Seq<char>,
    /// Set once the document is complete or has failed.
    pub outcome: Option<Result<Map<ComicInfoField, Seq<char>>, ComicInfoFailure>>,
}

pub open spec fn comicinfo_start() -> ComicInfoParse {
    ComicInfoParse { doc: Map::empty(), depth: 0, saw_root: false, field: None, value: Seq::empty(), outcome: None }
}

pub open spec fn comicinfo_root_name() -> Seq<char> {
    seq!['C', 'o', 'm', 'i', 'c', 'I', 'n', 'f', 'o']
}

/// The outcome when the document ends in state `s`.
pub open spec fn comicinfo_finish(s: ComicInfoParse) -> Result<Map<ComicInfoField, Seq<char>>, ComicInfoFailure> {
    if !s.saw_root || s.depth != 0 {
        Err(ComicInfoFailure::IncompleteRoot)
    } else {
        Ok(s.doc)
    }
}

/// One event's effect on reading a ComicInfo.xml document.
pub open spec fn comicinfo_step(s: ComicInfoParse, item: XmlItem) -> ComicInfoParse {
    if s.outcome is Some {
        s
    } else {
        match item {
            XmlItem::Start { name, .. } => {
                let n = local_name(name@);
                if s.depth == 0 && n != comicinfo_root_name() {
                    ComicInfoParse { outcome: Some(Err(ComicInfoFailure::UnexpectedRoot(n))), ..s }
                } else {
                    let d = s.depth + 1;
                    ComicInfoParse {
                        saw_root: s.saw_root || s.depth == 0,
                        depth: d,
                        field: if d == 2 { comicinfo_field_for(n) } else { s.field },
                        value: if d == 2 { Seq::empty() } else { s.value },
                        ..s
                    }
                }
            },
            XmlItem::Empty { name, .. } => {
                let n = local_name(name@);
                if s.depth == 0 {
                    if n != comicinfo_root_name() {
                        ComicInfoParse { outcome: Some(Err(ComicInfoFailure::UnexpectedRoot(n))), ..s }
                    } else {
                        ComicInfoParse { saw_root: true, ..s }
                    }
                } else if s.depth == 1 {
                    ComicInfoParse { field: None, ..s }
                } else {
                    s
                }
            },
            XmlItem::Text { unescaped, .. } => if s.field is Some {
                match unescaped {
                    None => ComicInfoParse { outcome: Some(Err(ComicInfoFailure::TextDecode)), ..s },
                    Some(t) => ComicInfoParse { value: s.value + t@, ..s },
                }
            } else {
                s
            },
            XmlItem::CData { text } => if s.field is Some {
                ComicInfoParse { value: s.value + text@, ..s }
            } else {
                s
            },
            XmlItem::Reference { resolved } => if s.field is Some {
                match resolved {
                    Err(m) => ComicInfoParse { outcome: Some(Err(ComicInfoFailure::Reference(m@))), ..s },
                    Ok(t) => ComicInfoParse { value: s.value + t@, ..s },
                }
            } else {
                s
            },
            XmlItem::End { .. } => if s.depth == 0 {
                ComicInfoParse { outcome: Some(Err(ComicInfoFailure::UnexpectedClose)), ..s }
            } else if s.depth == 2 && s.field is Some {
                ComicInfoParse {
                    doc: offer_field(s.doc, s.field->0, s.value),
                    field: None,
                    value: Seq::empty(),
                    depth: s.depth - 1,
                    ..s
                }
            } else {
                ComicInfoParse { depth: s.depth - 1, ..s }
            },
            XmlItem::Eof => ComicInfoParse { outcome: Some(comicinfo_finish(s)), ..s },
            XmlItem::Failed(m) => ComicInfoParse { outcome: Some(Err(ComicInfoFailure::Malformed(m@))), ..s },
            XmlItem::Other => s,
        }
    }
}

/// The state after reading the events in order.
pub open spec fn comicinfo_run(items: Seq<XmlItem>) -> ComicInfoParse
    decreases items.len(),
{
    if items.len() == 0 {
        comicinfo_start()
    } else {
        comicinfo_step(comicinfo_run(items.drop_last()), items.last())
    }
}

/// What reading the events yields: the outcome reached, or the end-of-document check when
/// the events stop without one.
pub open spec fn comicinfo_outcome(items: Seq<XmlItem>) -> Result<Map<ComicInfoField, Seq<char>>, ComicInfoFailure> {
    let s = comicinfo_run(items);
    match s.outcome {
        Some(o) => o,
        None => comicinfo_finish(s),
    }
}

} // verus!

verus! {

proof fn lemma_comicinfo_outcome_persists(items: Seq<XmlItem>, k: int)
    requires
        0 <= k <= items.len(),
        comicinfo_run(items.take(k)).outcome is Some,
    ensures
        comicinfo_run(items).outcome == comicinfo_run(items.take(k)).outcome,
    decreases items.len() - k,
{
    if k < items.len() {
        assert(items.take(k + 1).drop_last() =~= items.take(k));
        lemma_comicinfo_outcome_persists(items, k + 1);
    } else {
        assert(items.take(k) =~= items);
    }
}

fn append_str(value: &mut Vec<char>, text: &str)
    ensures
        final(value)@ == old(value)@ + text@,
{
    let chars = chars_of(text);
    let mut i: usize = 0;
    let ghost start = value@;
    while i < chars.len()
        invariant
            i <= chars@.len(),
            chars@ == text@,
            value@ == start + chars@.take(i as int),
        decreases chars@.len() - i,
    {
        value.push(chars[i]);
        i = i + 1;
        proof {
            assert(value@ =~= start + chars@.take(i as int));
        }
    }
    proof {
        assert(chars@.take(chars@.len() as int) =~= chars@);
    }
}

fn is_root_name(name: &str) -> (r: bool)
    ensures
        r == (name@ == comicinfo_root_name()),
{
    proof {
        reveal_strlit("ComicInfo");
        assert("ComicInfo"@ =~= comicinfo_root_name());
    }
    crate::text::chars_equal(chars_of(name).as_slice(), chars_of("ComicInfo").as_slice())
}

/// Reads a ComicInfo.xml document from its events: the root must be `ComicInfo`; the
/// text (with CDATA and resolved references) of each recognized child element is offered
/// for its field; the document must end with the root closed.
pub fn parse_comicinfo_items(items: &Vec<XmlItem>) -> (r: Result<ComicInfoDocument, ComicInfoError>)
    ensures
        match r {
            Ok(doc) => comicinfo_outcome(items@) == Ok::<Map<ComicInfoField, Seq<char>>, ComicInfoFailure>(document_view(doc)),
            Err(e) => comicinfo_outcome(items@) == Err::<Map<ComicInfoField, Seq<char>>, ComicInfoFailure>(e@),
        },
{
    let mut doc = ComicInfoDocument::new();
    let mut depth: usize = 0;
    let mut saw_root = false;
    let mut field: Option<ComicInfoField> = None;
    let mut value: Vec<char> = Vec::new();
    let mut i: usize = 0;
    proof {
        assert(items@.take(0) =~= Seq::<XmlItem>::empty());
    }
    while i < items.len()
        invariant
            i <= items@.len(),
            depth <= i,
            ({
                let s = comicinfo_run(items@.take(i as int));
                &&& s.outcome is None
                &&& s.doc == document_view(doc)
                &&& s.depth == depth as int
                &&& s.saw_root == saw_root
                &&& s.field == field
                &&& s.value == value@
            }),
        decreases items@.len() - i,
    {
        let ghost s = comicinfo_run(items@.take(i as int));
        proof {
            assert(items@.take(i as int + 1).drop_last() =~= items@.take(i as int));
            assert(items@.take(i as int + 1).last() == items@[i as int]);
        }
        match &items[i] {
            XmlItem::Start { name, .. } => {
                let n = local_xml_name(name.as_str());
                if depth == 0 && !is_root_name(n.as_str()) {
                    proof { lemma_comicinfo_outcome_persists(items@, i as int + 1); }
                    return Err(ComicInfoError::UnexpectedRoot(n));
                }
                if depth == 0 {
                    saw_root = true;
                }
                depth = depth + 1;
                if depth == 2 {
                    field = ComicInfoField::from_name(n.as_str());
                    value = Vec::new();
                }
            },
            XmlItem::Empty { name, .. } => {
                let n = local_xml_name(name.as_str());
                if depth == 0 {
                    if !is_root_name(n.as_str()) {
                        proof { lemma_comicinfo_outcome_persists(items@, i as int + 1); }
                        return Err(ComicInfoError::UnexpectedRoot(n));
                    }
                    saw_root = true;
                } else if depth == 1 {
                    field = None;
                }
            },
            XmlItem::Text { unescaped, .. } => {
                if field.is_some() {
                    match unescaped {
                        None => {
                            proof { lemma_comicinfo_outcome_persists(items@, i as int + 1); }
                            return Err(ComicInfoError::TextDecode);
                        },
                        Some(t) => append_str(&mut value, t.as_str()),
                    }
                }
            },
            XmlItem::CData { text } => {
                if field.is_some() {
                    append_str(&mut value, text.as_str());
                }
            },
            XmlItem::Reference { resolved } => {
                if field.is_some() {
                    match resolved {
                        Err(m) => {
                            proof { lemma_comicinfo_outcome_persists(items@, i as int + 1); }
                            return Err(ComicInfoError::Reference(m.clone()));
                        },
                        Ok(t) => append_str(&mut value, t.as_str()),
                    }
                }
            },
            XmlItem::End { .. } => {
                if depth == 0 {
                    proof { lemma_comicinfo_outcome_persists(items@, i as int + 1); }
                    return Err(ComicInfoError::UnexpectedClose);
                }
                if depth == 2 {
                    match field {
                        Some(f) => {
                            doc.set_field(f, string_from_chars(value.as_slice()));
                            field = None;
                            value = Vec::new();
                        },
                        None => {},
                    }
                }
                depth = depth - 1;
            },
            XmlItem::Eof => {
                proof { lemma_comicinfo_outcome_persists(items@, i as int + 1); }
                if !saw_root || depth != 0 {
                    return Err(ComicInfoError::IncompleteRoot);
                }
                return Ok(doc);
            },
            XmlItem::Failed(m) => {
                proof { lemma_comicinfo_outcome_persists(items@, i as int + 1); }
                return Err(ComicInfoError::Malformed(m.clone()));
            },
            XmlItem::Other => {},
        }
        i = i + 1;
    }
    proof {
        assert(items@.take(items@.len() as int) =~= items@);
    }
    if !saw_root || depth != 0 {
        return Err(ComicInfoError::IncompleteRoot);
    }
    Ok(doc)
}

/// Whether `r` is what reading the events `items` yields.
pub open spec fn comicinfo_result_of(items: Seq<XmlItem>, r: Result<ComicInfoDocument, ComicInfoError>) -> bool {
    match r {
        Ok(doc) => comicinfo_outcome(items) == Ok::<Map<ComicInfoField, Seq<char>>, ComicInfoFailure>(document_view(doc)),
        Err(e) => comicinfo_outcome(items) == Err::<Map<ComicInfoField, Seq<char>>, ComicInfoFailure>(e@),
    }
}

/// Events with the same plain values are read alike: the outcome depends on the events'
/// values alone.
pub proof fn lemma_comicinfo_outcome_by_views(a: Seq<XmlItem>, b: Seq<XmlItem>)
    requires
        item_views(a) == item_views(b),
    ensures
        comicinfo_outcome(a) == comicinfo_outcome(b),
{
    lemma_comicinfo_run_by_views(a, b);
}

proof fn lemma_comicinfo_run_by_views(a: Seq<XmlItem>, b: Seq<XmlItem>)
    requires
        item_views(a) == item_views(b),
    ensures
        comicinfo_run(a) == comicinfo_run(b),
    decreases a.len(),
{
    assert(a.len() == item_views(a).len() && b.len() == item_views(b).len());
    if a.len() > 0 {
        assert(item_views(a.drop_last()) =~= item_views(a).drop_last());
        assert(item_views(b.drop_last()) =~= item_views(b).drop_last());
        lemma_comicinfo_run_by_views(a.drop_last(), b.drop_last());
        assert(a.last()@ == item_views(a)[a.len() - 1]);
        assert(b.last()@ == item_views(b)[b.len() - 1]);
        let s = comicinfo_run(a.drop_last());
        assert(comicinfo_step(s, a.last()) == comicinfo_step(s, b.last()));
    }
}

/// Reads a ComicInfo.xml document with `quick-xml` (text not trimmed) and interprets its
/// events as [`parse_comicinfo_items`] does: the result is that of the document's events,
/// [`xml_items_of`] with text not trimmed (any list of items with those values gives it,
/// and such a list exists).
pub fn parse_comicinfo_xml(xml: &[u8]) -> (r: Result<ComicInfoDocument, ComicInfoError>)
    ensures
        forall|items: Seq<XmlItem>| #[trigger] item_views(items) == xml_items_of(xml@, false)
            ==> comicinfo_result_of(items, r),
        exists|items: Seq<XmlItem>| #[trigger] item_views(items) == xml_items_of(xml@, false),
{
    let items = read_xml_items(xml, false);
    let r = parse_comicinfo_items(&items);
    proof {
        assert forall|other: Seq<XmlItem>| #[trigger] item_views(other) == xml_items_of(xml@, false)
            implies comicinfo_result_of(other, r) by {
            lemma_comicinfo_outcome_by_views(other, items@);
        }
        assert(item_views(items@) == xml_items_of(xml@, false) && comicinfo_result_of(items@, r));
    }
    r
}

} // verus!
