//! The `aidoku` namespace of the host-import surface: the domain-record
//! constructors. Each reads its string fields out of guest memory by
//! pointer and length, builds the record, and stores it behind a fresh
//! descriptor. Every domain record reports the object kind to the guest.

use vstd::prelude::*;
use crate::fbits::{f32_ge_zero, f32_ge_zero_bits, f64_gt_zero, f64_gt_zero_bits};
use crate::heap::{alloc_effect, frame_requests};
use crate::memory::{le_values, opt_str, read_opt_str, read_values_i32, utf8_lossy};
use crate::models::{
    Chapter, ChapterModel, Manga, MangaContentRating, MangaModel, MangaResult, MangaResultModel,
    MangaStatus, MangaViewer, Page, PageModel,
};
use crate::store::GlobalStore;
use crate::value::{DeepLink, DeepLinkModel, Val, Value};

verus! {

/// The category strings read out of guest memory for a manga: the `k`-th
/// category lives at pointer `ptrs[k]` with length `lens[k]`; a negative
/// pointer or length, or a range leaving the memory, is skipped.
pub open spec fn categories_model(mem: Seq<u8>, ptrs: Seq<i32>, lens: Seq<i32>) -> Seq<Seq<char>>
    decreases ptrs.len(),
{
    if ptrs.len() == 0 || lens.len() < ptrs.len() {
        Seq::empty()
    } else {
        let prefix = categories_model(mem, ptrs.drop_last(), lens.drop_last());
        let p = ptrs.last();
        let l = lens.last();
        if p >= 0 && l > 0 && p + l <= mem.len() {
            prefix.push(utf8_lossy(mem.subrange(p as int, p + l)))
        } else {
            prefix
        }
    }
}

/// Reads the category strings named by the pointer and length arrays.
fn read_categories(mem: &Vec<u8>, ptrs: &Vec<i32>, lens: &Vec<i32>) -> (r: Vec<String>)
    requires
        ptrs@.len() == lens@.len(),
    ensures
        r.deep_view() == categories_model(mem@, ptrs@, lens@),
{
    let mut out: Vec<String> = Vec::new();
    let mut i: usize = 0;
    while i < ptrs.len()
        invariant
            ptrs@.len() == lens@.len(),
            i <= ptrs@.len(),
            out.deep_view() =~= categories_model(
                mem@,
                ptrs@.subrange(0, i as int),
                lens@.subrange(0, i as int),
            ),
        decreases ptrs@.len() - i,
    {
        proof {
            assert(ptrs@.subrange(0, i + 1).drop_last() =~= ptrs@.subrange(0, i as int));
            assert(lens@.subrange(0, i + 1).drop_last() =~= lens@.subrange(0, i as int));
        }
        let p = ptrs[i];
        let l = lens[i];
        if p >= 0 && l > 0 {
            match crate::memory::read_string(mem, p as u32, l as u32) {
                Some(s) => out.push(s),
                None => (),
            }
        }
        i += 1;
    }
    proof {
        assert(ptrs@.subrange(0, ptrs@.len() as int) =~= ptrs@);
        assert(lens@.subrange(0, lens@.len() as int) =~= lens@);
    }
    out
}

/// The manga model `create_manga` builds from guest memory.
pub open spec fn manga_from_guest(
    mem: Seq<u8>,
    id: Seq<char>,
    cover: u32,
    cover_len: u32,
    title: u32,
    title_len: u32,
    author: u32,
    author_len: u32,
    artist: u32,
    artist_len: u32,
    description: u32,
    description_len: u32,
    url: u32,
    url_len: u32,
    tag_ptrs: Seq<i32>,
    tag_lens: Seq<i32>,
    status: i32,
    nsfw: i32,
    viewer: i32,
) -> MangaModel {
    MangaModel {
        id,
        cover: opt_str(mem, cover, cover_len),
        title: opt_str(mem, title, title_len),
        author: opt_str(mem, author, author_len),
        artist: opt_str(mem, artist, artist_len),
        description: opt_str(mem, description, description_len),
        url: opt_str(mem, url, url_len),
        categories: categories_model(mem, tag_ptrs, tag_lens),
        status: MangaStatus::spec_from_code(status),
        nsfw: MangaContentRating::spec_from_code(nsfw),
        viewer: MangaViewer::spec_from_code(viewer),
    }
}

/// Builds a manga out of guest memory and stores it behind a fresh
/// descriptor. `-1` stands for a missing id or for tag arrays leaving the
/// memory.
pub fn create_manga(
    store: &mut GlobalStore,
    mem: &Vec<u8>,
    id: u32,
    id_len: u32,
    cover_url: u32,
    cover_url_len: u32,
    title: u32,
    title_len: u32,
    author: u32,
    author_len: u32,
    artist: u32,
    artist_len: u32,
    description: u32,
    description_len: u32,
    url: u32,
    url_len: u32,
    tags: u32,
    tags_str_lens: u32,
    tags_len: u32,
    status: i32,
    nsfw: i32,
    viewer: i32,
) -> (d: i32)
    requires
        old(store).wf(),
        old(store).can_alloc_value(),
    ensures
        final(store).wf(),
        ({
            let idm = opt_str(mem@, id, id_len);
            let readable = tags + 4 * tags_len <= mem@.len() && tags_str_lens + 4 * tags_len
                <= mem@.len();
            if idm is Some && readable {
                alloc_effect(
                    *old(store),
                    *final(store),
                    d,
                    Val::Manga(
                        manga_from_guest(
                            mem@,
                            idm->0,
                            cover_url,
                            cover_url_len,
                            title,
                            title_len,
                            author,
                            author_len,
                            artist,
                            artist_len,
                            description,
                            description_len,
                            url,
                            url_len,
                            le_values(mem@, tags, tags_len),
                            le_values(mem@, tags_str_lens, tags_len),
                            status,
                            nsfw,
                            viewer,
                        ),
                    ),
                )
            } else {
                d == -1 && *final(store) == *old(store)
            }
        }),
{
    let id_string: String = match read_opt_str(mem, id, id_len) {
        Some(s) => s,
        None => {
            return -1;
        },
    };
    let tag_ptrs: Vec<i32> = match read_values_i32(mem, tags, tags_len) {
        Some(v) => v,
        None => {
            return -1;
        },
    };
    let tag_lens: Vec<i32> = match read_values_i32(mem, tags_str_lens, tags_len) {
        Some(v) => v,
        None => {
            return -1;
        },
    };
    let categories = read_categories(mem, &tag_ptrs, &tag_lens);
    let manga = Manga {
        id: id_string,
        cover: read_opt_str(mem, cover_url, cover_url_len),
        title: read_opt_str(mem, title, title_len),
        author: read_opt_str(mem, author, author_len),
        artist: read_opt_str(mem, artist, artist_len),
        description: read_opt_str(mem, description, description_len),
        url: read_opt_str(mem, url, url_len),
        categories,
        status: MangaStatus::from_code(status),
        nsfw: MangaContentRating::from_code(nsfw),
        viewer: MangaViewer::from_code(viewer),
    };
    store.store_value(Value::Manga(manga))
}

/// The manga records among a sequence of values, in order; everything
/// else is filtered out silently.
pub open spec fn mangas_of(items: Seq<Val>) -> Seq<MangaModel>
    decreases items.len(),
{
    if items.len() == 0 {
        Seq::empty()
    } else {
        let prefix = mangas_of(items.drop_last());
        if items.last() is Manga {
            prefix.push(items.last()->Manga_0)
        } else {
            prefix
        }
    }
}

/// Wraps the manga records of the array behind `manga_arr` into a result
/// page and stores it behind a fresh descriptor; non-manga entries are
/// filtered out. `has_more` is set exactly by the wire value 1. `-1`
/// stands for a dead descriptor or a kind other than an array.
pub fn create_manga_result(store: &mut GlobalStore, manga_arr: i32, has_more: i32) -> (d: i32)
    requires
        old(store).wf(),
        old(store).can_alloc_value(),
    ensures
        final(store).wf(),
        ({
            let live = old(store).val_map().dom().contains(manga_arr as int);
            if live && old(store).val_map()[manga_arr as int] is Array {
                alloc_effect(
                    *old(store),
                    *final(store),
                    d,
                    Val::MangaResult(
                        MangaResultModel {
                            manga: mangas_of(old(store).val_map()[manga_arr as int]->Array_0),
                            has_more: has_more == 1,
                        },
                    ),
                )
            } else {
                d == -1 && *final(store) == *old(store)
            }
        }),
{
    let collected: Option<Vec<Manga>> = match store.read_value(manga_arr) {
        Some(v) => match v {
            Value::Array(items) => {
                proof {
                    crate::value::lemma_vals_of(items@);
                }
                let mut out: Vec<Manga> = Vec::new();
                let mut i: usize = 0;
                while i < items.len()
                    invariant
                        i <= items@.len(),
                        out@.map_values(|m: Manga| m@) =~= mangas_of(
                            crate::value::vals_of(items@).subrange(0, i as int),
                        ),
                        crate::value::vals_of(items@).len() == items@.len(),
                        forall|j: int| 0 <= j < items@.len() ==> crate::value::vals_of(items@)[j]
                            == items@[j]@,
                    decreases items@.len() - i,
                {
                    proof {
                        assert(crate::value::vals_of(items@).subrange(0, i + 1).drop_last()
                            =~= crate::value::vals_of(items@).subrange(0, i as int));
                    }
                    match &items[i] {
                        Value::Manga(m) => {
                            out.push(m.clone());
                        },
                        _ => (),
                    }
                    i += 1;
                }
                proof {
                    assert(crate::value::vals_of(items@).subrange(
                        0,
                        crate::value::vals_of(items@).len() as int,
                    ) =~= crate::value::vals_of(items@));
                }
                Some(out)
            },
            _ => None,
        },
        None => None,
    };
    match collected {
        Some(manga) => {
            let result = MangaResult { manga, has_more: has_more == 1 };
            store.store_value(Value::MangaResult(result))
        },
        None => -1,
    }
}

/// The chapter model `create_chapter` builds from guest memory: a
/// negative volume or chapter number and a non-positive upload date read
/// as absent.
pub open spec fn chapter_from_guest(
    mem: Seq<u8>,
    id: Seq<char>,
    title: u32,
    title_len: u32,
    volume: u32,
    chapter: u32,
    date_uploaded: u64,
    scanlator: u32,
    scanlator_len: u32,
    url: u32,
    url_len: u32,
    lang: u32,
    lang_len: u32,
) -> ChapterModel {
    ChapterModel {
        id,
        title: opt_str(mem, title, title_len),
        volume: if f32_ge_zero(volume) {
            Some(volume)
        } else {
            None
        },
        chapter: if f32_ge_zero(chapter) {
            Some(chapter)
        } else {
            None
        },
        date_uploaded: if f64_gt_zero(date_uploaded) {
            Some(date_uploaded)
        } else {
            None
        },
        scanlator: opt_str(mem, scanlator, scanlator_len),
        url: opt_str(mem, url, url_len),
        lang: opt_str(mem, lang, lang_len),
    }
}

/// Builds a chapter out of guest memory and stores it behind a fresh
/// descriptor. The fractional fields arrive as IEEE 754 bit patterns;
/// their absent-sentinels are a negative volume or chapter and a
/// non-positive upload date. `-1` stands for a missing id.
pub fn create_chapter(
    store: &mut GlobalStore,
    mem: &Vec<u8>,
    id: u32,
    id_len: u32,
    title: u32,
    title_len: u32,
    volume: u32,
    chapter: u32,
    date_uploaded: u64,
    scanlator: u32,
    scanlator_len: u32,
    url: u32,
    url_len: u32,
    lang: u32,
    lang_len: u32,
) -> (d: i32)
    requires
        old(store).wf(),
        old(store).can_alloc_value(),
    ensures
        final(store).wf(),
        ({
            let idm = opt_str(mem@, id, id_len);
            if idm is Some {
                alloc_effect(
                    *old(store),
                    *final(store),
                    d,
                    Val::Chapter(
                        chapter_from_guest(
                            mem@,
                            idm->0,
                            title,
                            title_len,
                            volume,
                            chapter,
                            date_uploaded,
                            scanlator,
                            scanlator_len,
                            url,
                            url_len,
                            lang,
                            lang_len,
                        ),
                    ),
                )
            } else {
                d == -1 && *final(store) == *old(store)
            }
        }),
{
    let id_string: String = match read_opt_str(mem, id, id_len) {
        Some(s) => s,
        None => {
            return -1;
        },
    };
    let record = Chapter {
        id: id_string,
        title: read_opt_str(mem, title, title_len),
        volume: if f32_ge_zero_bits(volume) {
            Some(volume)
        } else {
            None
        },
        chapter: if f32_ge_zero_bits(chapter) {
            Some(chapter)
        } else {
            None
        },
        date_uploaded: if f64_gt_zero_bits(date_uploaded) {
            Some(date_uploaded)
        } else {
            None
        },
        scanlator: read_opt_str(mem, scanlator, scanlator_len),
        url: read_opt_str(mem, url, url_len),
        lang: read_opt_str(mem, lang, lang_len),
    };
    store.store_value(Value::Chapter(record))
}

/// Builds a page out of guest memory and stores it behind a fresh
/// descriptor.
pub fn create_page(
    store: &mut GlobalStore,
    mem: &Vec<u8>,
    index: i32,
    image_url: u32,
    image_url_len: u32,
    base64: u32,
    base64_len: u32,
    text: u32,
    text_len: u32,
) -> (d: i32)
    requires
        old(store).wf(),
        old(store).can_alloc_value(),
    ensures
        final(store).wf(),
        alloc_effect(
            *old(store),
            *final(store),
            d,
            Val::Page(
                PageModel {
                    index,
                    image_url: opt_str(mem@, image_url, image_url_len),
                    base64: opt_str(mem@, base64, base64_len),
                    text: opt_str(mem@, text, text_len),
                },
            ),
        ),
{
    let page = Page {
        index,
        image_url: read_opt_str(mem, image_url, image_url_len),
        base64: read_opt_str(mem, base64, base64_len),
        text: read_opt_str(mem, text, text_len),
    };
    store.store_value(Value::Page(page))
}

/// Builds a deep link from the manga and chapter behind the two
/// descriptors and stores it behind a fresh descriptor; a dead descriptor
/// or one of another kind folds to an absent field.
pub fn create_deeplink(store: &mut GlobalStore, manga: i32, chapter: i32) -> (d: i32)
    requires
        old(store).wf(),
        old(store).can_alloc_value(),
    ensures
        final(store).wf(),
        ({
            let mm: Option<MangaModel> = if old(store).val_map().dom().contains(manga as int)
                && old(store).val_map()[manga as int] is Manga {
                Some(old(store).val_map()[manga as int]->Manga_0)
            } else {
                None
            };
            let cm: Option<ChapterModel> = if old(store).val_map().dom().contains(chapter as int)
                && old(store).val_map()[chapter as int] is Chapter {
                Some(old(store).val_map()[chapter as int]->Chapter_0)
            } else {
                None
            };
            alloc_effect(
                *old(store),
                *final(store),
                d,
                Val::DeepLink(DeepLinkModel { manga: mm, chapter: cm }),
            )
        }),
{
    let manga_rec: Option<Manga> = match store.read_value(manga) {
        Some(v) => match v {
            Value::Manga(m) => Some(m.clone()),
            _ => None,
        },
        None => None,
    };
    let chapter_rec: Option<Chapter> = match store.read_value(chapter) {
        Some(v) => match v {
            Value::Chapter(c) => Some(c.clone()),
            _ => None,
        },
        None => None,
    };
    store.store_value(Value::DeepLink(DeepLink { manga: manga_rec, chapter: chapter_rec }))
}

} // verus!
