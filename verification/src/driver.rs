//! The session driver: the host-side half of a guest-export call. A call
//! begins by marshalling the domain inputs into descriptors, the embedder
//! invokes the guest export with the prepared argument, and the call
//! finishes by extracting the typed result and freeing every descriptor
//! the driver allocated as well as the one the guest returned — on every
//! outcome, a fault and a type-mismatched return included.

use vstd::prelude::*;
use crate::heap::{alloc_effect, frame_requests};
use crate::models::{Chapter, ChapterModel, Listing, Manga, MangaModel, MangaResult, Page, PageModel};
use crate::store::GlobalStore;
use crate::value::{
    clone_value, lemma_vals_of, vals_of, wf_val, DeepLink, Filter, FilterModel, Val, Value,
};

verus! {

/// A prepared guest call: the descriptor to pass as the export's
/// argument (`-1` for none), and whether that descriptor was allocated by
/// the driver and is therefore the driver's to free.
pub struct PendingCall {
    pub arg: i32,
    pub allocated: bool,
}

/// The models of a filter vector, elementwise.
pub open spec fn filter_vals(s: Seq<Filter>) -> Seq<Val>
    decreases s,
{
    if s.len() == 0 {
        Seq::empty()
    } else {
        filter_vals(s.subrange(0, s.len() - 1)).push(Val::Filter(s[s.len() - 1]@))
    }
}

/// The model of a filter vector has one entry per filter, its model.
pub proof fn lemma_filter_vals(s: Seq<Filter>)
    ensures
        filter_vals(s).len() == s.len(),
        forall|i: int| 0 <= i < s.len() ==> filter_vals(s)[i] == Val::Filter(s[i]@),
    decreases s.len(),
{
    if s.len() > 0 {
        lemma_filter_vals(s.subrange(0, s.len() - 1));
    }
}

/// Whether every filter in a vector is well formed.
pub open spec fn filters_wf(s: Seq<Filter>) -> bool {
    forall|i: int| 0 <= i < s.len() ==> wf_val(*(#[trigger] s[i]@).value)
}

/// The descriptor table after a finished call: the guest-returned
/// descriptor is consumed, then the driver-allocated argument is freed.
pub open spec fn cleanup_map(m: Map<int, Val>, call: PendingCall, ret: Option<i32>) -> Map<
    int,
    Val,
> {
    let m1 = match ret {
        Some(rd) => if rd != -1 {
            m.remove(rd as int)
        } else {
            m
        },
        None => m,
    };
    if call.allocated {
        m1.remove(call.arg as int)
    } else {
        m1
    }
}

/// What the guest's return descriptor held, before any cleanup: the value
/// behind a live non-sentinel descriptor, and nothing otherwise.
pub open spec fn returned_val(m: Map<int, Val>, ret: Option<i32>) -> Option<Val> {
    match ret {
        Some(rd) => if rd != -1 && m.dom().contains(rd as int) {
            Some(m[rd as int])
        } else {
            None
        },
        None => None,
    }
}

/// Finishes a guest call: extracts the value behind the returned
/// descriptor, consumes that descriptor, and frees the driver-allocated
/// argument — whatever the guest returned, a fault (`None`) included.
fn retrieve(store: &mut GlobalStore, call: PendingCall, ret: Option<i32>) -> (r: Option<Value>)
    requires
        old(store).wf(),
    ensures
        final(store).wf(),
        final(store).val_map() == cleanup_map(old(store).val_map(), call, ret),
        final(store).next_descriptor() == old(store).next_descriptor(),
        frame_requests(*old(store), *final(store)),
        match returned_val(old(store).val_map(), ret) {
            Some(v) => r is Some && r->0@ == v && wf_val(v),
            None => r is None,
        },
{
    let extracted: Option<Value> = match ret {
        Some(rd) => {
            if rd != -1 {
                let cloned = match store.read_value(rd) {
                    Some(v) => Some(clone_value(v)),
                    None => None,
                };
                store.remove_value(rd);
                cloned
            } else {
                None
            }
        },
        None => None,
    };
    if call.allocated {
        store.remove_value(call.arg);
    }
    extracted
}

/// Prepares a manga-list call: a non-empty filter vector is marshalled
/// into an array descriptor for the guest; an empty one passes the
/// no-descriptor sentinel and allocates nothing.
pub fn begin_manga_list(store: &mut GlobalStore, filters: &Vec<Filter>) -> (c: PendingCall)
    requires
        old(store).wf(),
        old(store).can_alloc_value(),
        filters_wf(filters@),
    ensures
        final(store).wf(),
        filters@.len() == 0 ==> c.arg == -1 && !c.allocated && *final(store) == *old(store),
        filters@.len() > 0 ==> c.allocated && alloc_effect(
            *old(store),
            *final(store),
            c.arg,
            Val::Array(filter_vals(filters@)),
        ),
{
    if filters.len() == 0 {
        return PendingCall { arg: -1, allocated: false };
    }
    let mut items: Vec<Value> = Vec::new();
    let mut i: usize = 0;
    while i < filters.len()
        invariant
            i <= filters@.len(),
            items@.len() == i,
            filters_wf(filters@),
            forall|j: int| 0 <= j < i ==> items@[j]@ == Val::Filter(filters@[j]@),
        decreases filters@.len() - i,
    {
        items.push(Value::Filter(filters[i].clone()));
        i += 1;
    }
    let arr = Value::Array(items);
    proof {
        lemma_vals_of(arr->Array_0@);
        lemma_filter_vals(filters@);
        assert(arr@->Array_0 =~= filter_vals(filters@));
        assert forall|j: int| 0 <= j < filter_vals(filters@).len() implies wf_val(
            #[trigger] filter_vals(filters@)[j],
        ) by {
            assert(filter_vals(filters@)[j] == Val::Filter(filters@[j]@));
            assert(wf_val(*(filters@[j]@).value));
        }
        assert(wf_val(arr@));
    }
    let d = store.store_value(arr);
    PendingCall { arg: d, allocated: true }
}

/// Finishes a manga-list call: a returned `MangaResult` is handed back,
/// anything else is `None`; the cleanup of `retrieve` happens regardless.
pub fn finish_manga_list(store: &mut GlobalStore, call: PendingCall, ret: Option<i32>) -> (r:
    Option<MangaResult>)
    requires
        old(store).wf(),
    ensures
        final(store).wf(),
        final(store).val_map() == cleanup_map(old(store).val_map(), call, ret),
        final(store).next_descriptor() == old(store).next_descriptor(),
        frame_requests(*old(store), *final(store)),
        match returned_val(old(store).val_map(), ret) {
            Some(v) => if v is MangaResult {
                r is Some && r->0@ == v->MangaResult_0
            } else {
                r is None
            },
            None => r is None,
        },
{
    match retrieve(store, call, ret) {
        Some(v) => match v {
            Value::MangaResult(result) => Some(result),
            _ => None,
        },
        None => None,
    }
}

/// Prepares a manga-listing call: the listing is always marshalled into a
/// descriptor.
pub fn begin_manga_listing(store: &mut GlobalStore, listing: Listing) -> (c: PendingCall)
    requires
        old(store).wf(),
        old(store).can_alloc_value(),
    ensures
        final(store).wf(),
        c.allocated,
        alloc_effect(*old(store), *final(store), c.arg, Val::Listing(listing@)),
{
    let d = store.store_value(Value::Listing(listing));
    PendingCall { arg: d, allocated: true }
}

/// Finishes a manga-listing call, like a manga-list call.
pub fn finish_manga_listing(store: &mut GlobalStore, call: PendingCall, ret: Option<i32>) -> (r:
    Option<MangaResult>)
    requires
        old(store).wf(),
    ensures
        final(store).wf(),
        final(store).val_map() == cleanup_map(old(store).val_map(), call, ret),
        final(store).next_descriptor() == old(store).next_descriptor(),
        frame_requests(*old(store), *final(store)),
        match returned_val(old(store).val_map(), ret) {
            Some(v) => if v is MangaResult {
                r is Some && r->0@ == v->MangaResult_0
            } else {
                r is None
            },
            None => r is None,
        },
{
    match retrieve(store, call, ret) {
        Some(v) => match v {
            Value::MangaResult(result) => Some(result),
            _ => None,
        },
        None => None,
    }
}

/// Prepares a manga-details call: the manga is marshalled into a
/// descriptor.
pub fn begin_manga_details(store: &mut GlobalStore, manga: Manga) -> (c: PendingCall)
    requires
        old(store).wf(),
        old(store).can_alloc_value(),
    ensures
        final(store).wf(),
        c.allocated,
        alloc_effect(*old(store), *final(store), c.arg, Val::Manga(manga@)),
{
    let d = store.store_value(Value::Manga(manga));
    PendingCall { arg: d, allocated: true }
}

/// Finishes a manga-details call: a returned `Manga` is handed back,
/// anything else is `None`.
pub fn finish_manga_details(store: &mut GlobalStore, call: PendingCall, ret: Option<i32>) -> (r:
    Option<Manga>)
    requires
        old(store).wf(),
    ensures
        final(store).wf(),
        final(store).val_map() == cleanup_map(old(store).val_map(), call, ret),
        final(store).next_descriptor() == old(store).next_descriptor(),
        frame_requests(*old(store), *final(store)),
        match returned_val(old(store).val_map(), ret) {
            Some(v) => if v is Manga {
                r is Some && r->0@ == v->Manga_0
            } else {
                r is None
            },
            None => r is None,
        },
{
    match retrieve(store, call, ret) {
        Some(v) => match v {
            Value::Manga(m) => Some(m),
            _ => None,
        },
        None => None,
    }
}

/// The chapter records among a sequence of values, in order; everything
/// else is filtered out silently.
pub open spec fn chapters_of(items: Seq<Val>) -> Seq<ChapterModel>
    decreases items.len(),
{
    if items.len() == 0 {
        Seq::empty()
    } else {
        let prefix = chapters_of(items.drop_last());
        if items.last() is Chapter {
            prefix.push(items.last()->Chapter_0)
        } else {
            prefix
        }
    }
}

/// The page records among a sequence of values, in order; everything
/// else is filtered out silently.
pub open spec fn pages_of(items: Seq<Val>) -> Seq<PageModel>
    decreases items.len(),
{
    if items.len() == 0 {
        Seq::empty()
    } else {
        let prefix = pages_of(items.drop_last());
        if items.last() is Page {
            prefix.push(items.last()->Page_0)
        } else {
            prefix
        }
    }
}

/// Prepares a chapter-list call: the manga is marshalled into a
/// descriptor.
pub fn begin_chapter_list(store: &mut GlobalStore, manga: Manga) -> (c: PendingCall)
    requires
        old(store).wf(),
        old(store).can_alloc_value(),
    ensures
        final(store).wf(),
        c.allocated,
        alloc_effect(*old(store), *final(store), c.arg, Val::Manga(manga@)),
{
    let d = store.store_value(Value::Manga(manga));
    PendingCall { arg: d, allocated: true }
}

/// Finishes a chapter-list call: a returned array is flattened to its
/// chapter records in order, non-chapter entries filtered out; anything
/// else is `None`.
pub fn finish_chapter_list(store: &mut GlobalStore, call: PendingCall, ret: Option<i32>) -> (r:
    Option<Vec<Chapter>>)
    requires
        old(store).wf(),
    ensures
        final(store).wf(),
        final(store).val_map() == cleanup_map(old(store).val_map(), call, ret),
        final(store).next_descriptor() == old(store).next_descriptor(),
        frame_requests(*old(store), *final(store)),
        match returned_val(old(store).val_map(), ret) {
            Some(v) => if v is Array {
                r is Some && r->0@.map_values(|c: Chapter| c@) == chapters_of(v->Array_0)
            } else {
                r is None
            },
            None => r is None,
        },
{
    match retrieve(store, call, ret) {
        Some(v) => match v {
            Value::Array(items) => {
                proof {
                    lemma_vals_of(items@);
                }
                let mut out: Vec<Chapter> = Vec::new();
                let mut i: usize = 0;
                while i < items.len()
                    invariant
                        i <= items@.len(),
                        out@.map_values(|c: Chapter| c@) =~= chapters_of(
                            vals_of(items@).subrange(0, i as int),
                        ),
                        vals_of(items@).len() == items@.len(),
                        forall|j: int| 0 <= j < items@.len() ==> vals_of(items@)[j] == items@[j]@,
                    decreases items@.len() - i,
                {
                    proof {
                        assert(vals_of(items@).subrange(0, i + 1).drop_last() =~= vals_of(
                            items@,
                        ).subrange(0, i as int));
                    }
                    match &items[i] {
                        Value::Chapter(c) => {
                            out.push(c.clone());
                        },
                        _ => (),
                    }
                    i += 1;
                }
                proof {
                    assert(vals_of(items@).subrange(0, vals_of(items@).len() as int) =~= vals_of(
                        items@,
                    ));
                }
                Some(out)
            },
            _ => None,
        },
        None => None,
    }
}

/// Prepares a page-list call: the chapter is marshalled into a
/// descriptor.
pub fn begin_page_list(store: &mut GlobalStore, chapter: Chapter) -> (c: PendingCall)
    requires
        old(store).wf(),
        old(store).can_alloc_value(),
    ensures
        final(store).wf(),
        c.allocated,
        alloc_effect(*old(store), *final(store), c.arg, Val::Chapter(chapter@)),
{
    let d = store.store_value(Value::Chapter(chapter));
    PendingCall { arg: d, allocated: true }
}

/// Finishes a page-list call: a returned array is flattened to its page
/// records in order, non-page entries filtered out; anything else is
/// `None`.
pub fn finish_page_list(store: &mut GlobalStore, call: PendingCall, ret: Option<i32>) -> (r: Option<
    Vec<Page>,
>)
    requires
        old(store).wf(),
    ensures
        final(store).wf(),
        final(store).val_map() == cleanup_map(old(store).val_map(), call, ret),
        final(store).next_descriptor() == old(store).next_descriptor(),
        frame_requests(*old(store), *final(store)),
        match returned_val(old(store).val_map(), ret) {
            Some(v) => if v is Array {
                r is Some && r->0@.map_values(|p: Page| p@) == pages_of(v->Array_0)
            } else {
                r is None
            },
            None => r is None,
        },
{
    match retrieve(store, call, ret) {
        Some(v) => match v {
            Value::Array(items) => {
                proof {
                    lemma_vals_of(items@);
                }
                let mut out: Vec<Page> = Vec::new();
                let mut i: usize = 0;
                while i < items.len()
                    invariant
                        i <= items@.len(),
                        out@.map_values(|p: Page| p@) =~= pages_of(
                            vals_of(items@).subrange(0, i as int),
                        ),
                        vals_of(items@).len() == items@.len(),
                        forall|j: int| 0 <= j < items@.len() ==> vals_of(items@)[j] == items@[j]@,
                    decreases items@.len() - i,
                {
                    proof {
                        assert(vals_of(items@).subrange(0, i + 1).drop_last() =~= vals_of(
                            items@,
                        ).subrange(0, i as int));
                    }
                    match &items[i] {
                        Value::Page(p) => {
                            out.push(p.clone());
                        },
                        _ => (),
                    }
                    i += 1;
                }
                proof {
                    assert(vals_of(items@).subrange(0, vals_of(items@).len() as int) =~= vals_of(
                        items@,
                    ));
                }
                Some(out)
            },
            _ => None,
        },
        None => None,
    }
}

/// Prepares a notification call: the notification string is marshalled
/// into a descriptor.
pub fn begin_notification(store: &mut GlobalStore, notification: &str) -> (c: PendingCall)
    requires
        old(store).wf(),
        old(store).can_alloc_value(),
    ensures
        final(store).wf(),
        c.allocated,
        alloc_effect(*old(store), *final(store), c.arg, Val::Str(notification@)),
{
    let d = store.store_value(Value::Str(notification.to_owned()));
    PendingCall { arg: d, allocated: true }
}

/// Finishes a notification call: the guest's return is ignored, the
/// cleanup happens regardless.
pub fn finish_notification(store: &mut GlobalStore, call: PendingCall, ret: Option<i32>)
    requires
        old(store).wf(),
    ensures
        final(store).wf(),
        final(store).val_map() == cleanup_map(old(store).val_map(), call, ret),
        final(store).next_descriptor() == old(store).next_descriptor(),
        frame_requests(*old(store), *final(store)),
{
    let _ = retrieve(store, call, ret);
}

/// Prepares a deep-link call: the URL string is marshalled into a
/// descriptor.
pub fn begin_handle_url(store: &mut GlobalStore, url: &str) -> (c: PendingCall)
    requires
        old(store).wf(),
        old(store).can_alloc_value(),
    ensures
        final(store).wf(),
        c.allocated,
        alloc_effect(*old(store), *final(store), c.arg, Val::Str(url@)),
{
    let d = store.store_value(Value::Str(url.to_owned()));
    PendingCall { arg: d, allocated: true }
}

/// Finishes a deep-link call: a returned `DeepLink` is handed back,
/// anything else is `None`.
pub fn finish_handle_url(store: &mut GlobalStore, call: PendingCall, ret: Option<i32>) -> (r:
    Option<DeepLink>)
    requires
        old(store).wf(),
    ensures
        final(store).wf(),
        final(store).val_map() == cleanup_map(old(store).val_map(), call, ret),
        final(store).next_descriptor() == old(store).next_descriptor(),
        frame_requests(*old(store), *final(store)),
        match returned_val(old(store).val_map(), ret) {
            Some(v) => if v is DeepLink {
                r is Some && r->0@ == v->DeepLink_0
            } else {
                r is None
            },
            None => r is None,
        },
{
    match retrieve(store, call, ret) {
        Some(v) => match v {
            Value::DeepLink(link) => Some(link),
            _ => None,
        },
        None => None,
    }
}

/// Cleanup: a driver call allocates its argument `d`, the guest
/// allocates exactly the descriptor `g` it returns, and the finish frees
/// `g` and then `d` — the table ends exactly where it began.
pub proof fn lemma_cleanup_balanced(m: Map<int, Val>, d: int, v: Val, g: int, w: Val)
    requires
        !m.dom().contains(d),
        !m.dom().contains(g),
        g != d,
    ensures
        m.insert(d, v).insert(g, w).remove(g).remove(d) =~= m,
{
}

/// Cleanup: a driver call whose guest allocated nothing and returned no
/// descriptor still ends with the table exactly where it began.
pub proof fn lemma_cleanup_no_result(m: Map<int, Val>, d: int, v: Val)
    requires
        !m.dom().contains(d),
    ensures
        m.insert(d, v).remove(d) =~= m,
{
}

} // verus!
