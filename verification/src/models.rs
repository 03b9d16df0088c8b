//! Domain records carried across the guest boundary: manga, chapters, pages,
//! filters and listings, together with their wire-level integer codes and
//! their mathematical models.

use vstd::prelude::*;

verus! {

/// Publication status of a manga, wire codes 0 through 4.
#[derive(Clone, Copy, Debug, PartialEq, Eq, Structural)]
pub enum MangaStatus {
    Unknown,
    Ongoing,
    Completed,
    Cancelled,
    Hiatus,
}

impl MangaStatus {
    /// Wire code of each status.
    pub open spec fn spec_code(self) -> i32 {
        match self {
            MangaStatus::Unknown => 0,
            MangaStatus::Ongoing => 1,
            MangaStatus::Completed => 2,
            MangaStatus::Cancelled => 3,
            MangaStatus::Hiatus => 4,
        }
    }

    /// Decoding of a wire code; out-of-range codes fall back to `Unknown`.
    pub open spec fn spec_from_code(code: i32) -> MangaStatus {
        if code == 1 {
            MangaStatus::Ongoing
        } else if code == 2 {
            MangaStatus::Completed
        } else if code == 3 {
            MangaStatus::Cancelled
        } else if code == 4 {
            MangaStatus::Hiatus
        } else {
            MangaStatus::Unknown
        }
    }

    pub fn code(&self) -> (c: i32)
        ensures
            c == self.spec_code(),
    {
        match self {
            MangaStatus::Unknown => 0,
            MangaStatus::Ongoing => 1,
            MangaStatus::Completed => 2,
            MangaStatus::Cancelled => 3,
            MangaStatus::Hiatus => 4,
        }
    }

    pub fn from_code(code: i32) -> (s: MangaStatus)
        ensures
            s == MangaStatus::spec_from_code(code),
    {
        match code {
            1 => MangaStatus::Ongoing,
            2 => MangaStatus::Completed,
            3 => MangaStatus::Cancelled,
            4 => MangaStatus::Hiatus,
            _ => MangaStatus::Unknown,
        }
    }
}

/// Content rating of a manga, wire codes 0 through 2.
#[derive(Clone, Copy, Debug, PartialEq, Eq, Structural)]
pub enum MangaContentRating {
    Safe,
    Suggestive,
    Nsfw,
}

impl MangaContentRating {
    pub open spec fn spec_code(self) -> i32 {
        match self {
            MangaContentRating::Safe => 0,
            MangaContentRating::Suggestive => 1,
            MangaContentRating::Nsfw => 2,
        }
    }

    /// Decoding of a wire code; out-of-range codes fall back to `Safe`.
    pub open spec fn spec_from_code(code: i32) -> MangaContentRating {
        if code == 1 {
            MangaContentRating::Suggestive
        } else if code == 2 {
            MangaContentRating::Nsfw
        } else {
            MangaContentRating::Safe
        }
    }

    pub fn code(&self) -> (c: i32)
        ensures
            c == self.spec_code(),
    {
        match self {
            MangaContentRating::Safe => 0,
            MangaContentRating::Suggestive => 1,
            MangaContentRating::Nsfw => 2,
        }
    }

    pub fn from_code(code: i32) -> (r: MangaContentRating)
        ensures
            r == MangaContentRating::spec_from_code(code),
    {
        match code {
            1 => MangaContentRating::Suggestive,
            2 => MangaContentRating::Nsfw,
            _ => MangaContentRating::Safe,
        }
    }
}

/// Reading direction of a manga, wire codes 1 through 4.
#[derive(Clone, Copy, Debug, PartialEq, Eq, Structural)]
pub enum MangaViewer {
    Rtl,
    Ltr,
    Vertical,
    Scroll,
}

impl MangaViewer {
    pub open spec fn spec_code(self) -> i32 {
        match self {
            MangaViewer::Rtl => 1,
            MangaViewer::Ltr => 2,
            MangaViewer::Vertical => 3,
            MangaViewer::Scroll => 4,
        }
    }

    /// Decoding of a wire code; out-of-range codes fall back to `Rtl`.
    pub open spec fn spec_from_code(code: i32) -> MangaViewer {
        if code == 2 {
            MangaViewer::Ltr
        } else if code == 3 {
            MangaViewer::Vertical
        } else if code == 4 {
            MangaViewer::Scroll
        } else {
            MangaViewer::Rtl
        }
    }

    pub fn code(&self) -> (c: i32)
        ensures
            c == self.spec_code(),
    {
        match self {
            MangaViewer::Rtl => 1,
            MangaViewer::Ltr => 2,
            MangaViewer::Vertical => 3,
            MangaViewer::Scroll => 4,
        }
    }

    pub fn from_code(code: i32) -> (v: MangaViewer)
        ensures
            v == MangaViewer::spec_from_code(code),
    {
        match code {
            2 => MangaViewer::Ltr,
            3 => MangaViewer::Vertical,
            4 => MangaViewer::Scroll,
            _ => MangaViewer::Rtl,
        }
    }
}

/// Kind of a search filter, wire codes 0 through 9.
#[derive(Clone, Copy, Debug, PartialEq, Eq, Structural)]
pub enum FilterType {
    Base,
    Group,
    Text,
    Check,
    Select,
    Sort,
    SortSelection,
    Title,
    Author,
    Genre,
}

impl FilterType {
    pub open spec fn spec_code(self) -> i32 {
        match self {
            FilterType::Base => 0,
            FilterType::Group => 1,
            FilterType::Text => 2,
            FilterType::Check => 3,
            FilterType::Select => 4,
            FilterType::Sort => 5,
            FilterType::SortSelection => 6,
            FilterType::Title => 7,
            FilterType::Author => 8,
            FilterType::Genre => 9,
        }
    }

    pub fn code(&self) -> (c: i32)
        ensures
            c == self.spec_code(),
    {
        match self {
            FilterType::Base => 0,
            FilterType::Group => 1,
            FilterType::Text => 2,
            FilterType::Check => 3,
            FilterType::Select => 4,
            FilterType::Sort => 5,
            FilterType::SortSelection => 6,
            FilterType::Title => 7,
            FilterType::Author => 8,
            FilterType::Genre => 9,
        }
    }
}

/// Mathematical model of a [`Manga`]: every string is a sequence of characters.
pub struct MangaModel {
    pub id: Seq<char>,
    pub cover: Option<Seq<char>>,
    pub title: Option<Seq<char>>,
    pub author: Option<Seq<char>>,
    pub artist: Option<Seq<char>>,
    pub description: Option<Seq<char>>,
    pub url: Option<Seq<char>>,
    pub categories: Seq<Seq<char>>,
    pub status: MangaStatus,
    pub nsfw: MangaContentRating,
    pub viewer: MangaViewer,
}

/// A manga record. The only required field is `id`.
#[derive(Debug)]
pub struct Manga {
    pub id: String,
    pub cover: Option<String>,
    pub title: Option<String>,
    pub author: Option<String>,
    pub artist: Option<String>,
    pub description: Option<String>,
    pub url: Option<String>,
    pub categories: Vec<String>,
    pub status: MangaStatus,
    pub nsfw: MangaContentRating,
    pub viewer: MangaViewer,
}

impl View for Manga {
    type V = MangaModel;

    open spec fn view(&self) -> MangaModel {
        MangaModel {
            id: self.id@,
            cover: self.cover.deep_view(),
            title: self.title.deep_view(),
            author: self.author.deep_view(),
            artist: self.artist.deep_view(),
            description: self.description.deep_view(),
            url: self.url.deep_view(),
            categories: self.categories.deep_view(),
            status: self.status,
            nsfw: self.nsfw,
            viewer: self.viewer,
        }
    }
}

impl Manga {
    /// A manga with the given id and every optional field absent.
    pub fn new(id: String) -> (m: Manga)
        ensures
            m@ == (MangaModel {
                id: id@,
                cover: None,
                title: None,
                author: None,
                artist: None,
                description: None,
                url: None,
                categories: Seq::<Seq<char>>::empty(),
                status: MangaStatus::Unknown,
                nsfw: MangaContentRating::Safe,
                viewer: MangaViewer::Rtl,
            }),
    {
        let m = Manga {
            id,
            cover: None,
            title: None,
            author: None,
            artist: None,
            description: None,
            url: None,
            categories: Vec::new(),
            status: MangaStatus::Unknown,
            nsfw: MangaContentRating::Safe,
            viewer: MangaViewer::Rtl,
        };
        assert(m@.categories =~= Seq::<Seq<char>>::empty());
        m
    }
}

/// Mathematical model of a [`MangaResult`].
pub struct MangaResultModel {
    pub manga: Seq<MangaModel>,
    pub has_more: bool,
}

/// A page of manga search results.
#[derive(Debug)]
pub struct MangaResult {
    pub manga: Vec<Manga>,
    pub has_more: bool,
}

impl View for MangaResult {
    type V = MangaResultModel;

    open spec fn view(&self) -> MangaResultModel {
        MangaResultModel { manga: self.manga@.map_values(|m: Manga| m@), has_more: self.has_more }
    }
}

/// Mathematical model of a [`Chapter`]. Fractional numbers are carried as
/// IEEE 754 bit patterns.
pub struct ChapterModel {
    pub id: Seq<char>,
    pub title: Option<Seq<char>>,
    pub volume: Option<u32>,
    pub chapter: Option<u32>,
    pub date_uploaded: Option<u64>,
    pub scanlator: Option<Seq<char>>,
    pub url: Option<Seq<char>>,
    pub lang: Option<Seq<char>>,
}

/// A chapter record. `volume` and `chapter` hold the bit pattern of a 32-bit
/// IEEE 754 number, `date_uploaded` that of a 64-bit one; `None` stands for
/// the absent-field sentinels of the wire format.
#[derive(Debug)]
pub struct Chapter {
    pub id: String,
    pub title: Option<String>,
    pub volume: Option<u32>,
    pub chapter: Option<u32>,
    pub date_uploaded: Option<u64>,
    pub scanlator: Option<String>,
    pub url: Option<String>,
    pub lang: Option<String>,
}

impl View for Chapter {
    type V = ChapterModel;

    open spec fn view(&self) -> ChapterModel {
        ChapterModel {
            id: self.id@,
            title: self.title.deep_view(),
            volume: self.volume,
            chapter: self.chapter,
            date_uploaded: self.date_uploaded,
            scanlator: self.scanlator.deep_view(),
            url: self.url.deep_view(),
            lang: self.lang.deep_view(),
        }
    }
}

/// Mathematical model of a [`Page`].
pub struct PageModel {
    pub index: i32,
    pub image_url: Option<Seq<char>>,
    pub base64: Option<Seq<char>>,
    pub text: Option<Seq<char>>,
}

/// A single page of a chapter.
#[derive(Debug)]
pub struct Page {
    pub index: i32,
    pub image_url: Option<String>,
    pub base64: Option<String>,
    pub text: Option<String>,
}

impl View for Page {
    type V = PageModel;

    open spec fn view(&self) -> PageModel {
        PageModel {
            index: self.index,
            image_url: self.image_url.deep_view(),
            base64: self.base64.deep_view(),
            text: self.text.deep_view(),
        }
    }
}

/// A listing requested from the guest, identified by name.
#[derive(Debug)]
pub struct Listing {
    pub name: String,
}

impl View for Listing {
    type V = Seq<char>;

    open spec fn view(&self) -> Seq<char> {
        self.name@
    }
}

} // verus!
