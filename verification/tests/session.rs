use aidoku_runner::driver;
use aidoku_runner::heap;
use aidoku_runner::domain;
use aidoku_runner::models::{Listing, Manga};
use aidoku_runner::net;
use aidoku_runner::store::GlobalStore;
use aidoku_runner::value::{Filter, Value};
use aidoku_runner::models::FilterType;

fn write_at(mem: &mut Vec<u8>, at: usize, bytes: &[u8]) {
    mem[at..at + bytes.len()].copy_from_slice(bytes);
}

/// A scripted guest for the manga-list export: builds one manga
/// `{id:"a", title:"T"}`, wraps it into a result, cleans up after
/// itself and returns the result descriptor.
fn guest_one_manga(store: &mut GlobalStore, mem: &mut Vec<u8>) -> Option<i32> {
    write_at(mem, 0, b"a");
    write_at(mem, 2, b"T");
    let manga = domain::create_manga(
        store, mem, 0, 1, 0, 0, 2, 1, 0, 0, 0, 0, 0, 0, 0, 0, 0, 0, 0, 0, 0, 0,
    );
    let arr = heap::create_array(store);
    heap::array_append(store, arr, manga);
    heap::destroy(store, manga);
    let result = domain::create_manga_result(store, arr, 0);
    heap::destroy(store, arr);
    Some(result)
}

#[test]
fn manga_list_with_empty_filters() {
    let mut store = GlobalStore::new();
    let mut mem = vec![0u8; 16];
    let before = store.value_count();
    let call = driver::begin_manga_list(&mut store, &Vec::new());
    assert_eq!(call.arg, -1);
    let ret = guest_one_manga(&mut store, &mut mem);
    let result = driver::finish_manga_list(&mut store, call, ret).expect("a result");
    assert_eq!(result.manga.len(), 1);
    assert_eq!(result.manga[0].id, "a");
    assert_eq!(result.manga[0].title.as_deref(), Some("T"));
    assert!(!result.has_more);
    assert_eq!(store.value_count(), before);
}

#[test]
fn manga_list_filters_are_visible_to_the_guest() {
    let mut store = GlobalStore::new();
    let mut mem = vec![0u8; 32];
    write_at(&mut mem, 8, b"value");
    write_at(&mut mem, 16, b"type");
    write_at(&mut mem, 20, b"name");
    let filters = vec![Filter {
        kind: FilterType::Title,
        name: String::from("Title"),
        value: Box::new(Value::Str(String::from("1"))),
    }];
    let before = store.value_count();
    let call = driver::begin_manga_list(&mut store, &filters);
    assert!(call.arg >= 0);
    assert!(call.allocated);
    // the guest inspects the filter array it was handed
    assert_eq!(heap::value_kind(&store, call.arg), 5);
    assert_eq!(heap::array_len(&store, call.arg), 1);
    let f = heap::array_get(&mut store, call.arg, 0);
    assert_eq!(heap::value_kind(&store, f), 6);
    let v = heap::object_get(&mut store, &mem, f, 8, 5);
    assert_eq!(heap::value_kind(&store, v), 3);
    assert_eq!(heap::string_len(&store, v), 1);
    let mut out = vec![0u8; 4];
    heap::read_string(&store, &mut out, v, 0, 4);
    assert_eq!(out[0], b'1');
    let t = heap::object_get(&mut store, &mem, f, 16, 4);
    assert_eq!(heap::read_int(&store, t), 7);
    let n = heap::object_get(&mut store, &mem, f, 20, 4);
    assert_eq!(heap::string_len(&store, n), 5);
    heap::destroy(&mut store, f);
    heap::destroy(&mut store, v);
    heap::destroy(&mut store, t);
    heap::destroy(&mut store, n);
    let r = driver::finish_manga_list(&mut store, call, Some(-1));
    assert!(r.is_none());
    assert_eq!(store.value_count(), before);
}

#[test]
fn chapter_list_keeps_order_and_filters_strays() {
    let mut store = GlobalStore::new();
    let mut mem = vec![0u8; 16];
    let before = store.value_count();
    let call = driver::begin_chapter_list(&mut store, Manga::new(String::from("m")));
    // the guest returns [chapter "c1", Int(7), chapter "c2"]
    write_at(&mut mem, 0, b"c1");
    write_at(&mut mem, 2, b"c2");
    let zero = 0.0f64.to_bits();
    let negf = (-1.0f32).to_bits();
    let c1 = domain::create_chapter(&mut store, &mem, 0, 2, 0, 0, negf, negf, zero, 0, 0, 0, 0, 0, 0);
    let c2 = domain::create_chapter(&mut store, &mem, 2, 2, 0, 0, negf, negf, zero, 0, 0, 0, 0, 0, 0);
    let stray = heap::create_int(&mut store, 7);
    let arr = heap::create_array(&mut store);
    heap::array_append(&mut store, arr, c1);
    heap::array_append(&mut store, arr, stray);
    heap::array_append(&mut store, arr, c2);
    heap::destroy(&mut store, c1);
    heap::destroy(&mut store, c2);
    heap::destroy(&mut store, stray);
    let chapters = driver::finish_chapter_list(&mut store, call, Some(arr)).expect("chapters");
    assert_eq!(chapters.len(), 2);
    assert_eq!(chapters[0].id, "c1");
    assert_eq!(chapters[1].id, "c2");
    assert_eq!(store.value_count(), before);
}

#[test]
fn test_manga_list() {
    let mut store = GlobalStore::new();
    let mut mem = vec![0u8; 16];
    let filters = vec![Filter {
        kind: FilterType::Title,
        name: String::from("Title"),
        value: Box::new(Value::Str(String::from("1"))),
    }];
    let call = driver::begin_manga_list(&mut store, &filters);
    let ret = guest_one_manga(&mut store, &mut mem);
    if let Some(list) = driver::finish_manga_list(&mut store, call, ret) {
        let titles = list
            .manga
            .into_iter()
            .map(|m| m.title.unwrap_or_default())
            .collect::<Vec<String>>()
            .join(", ");
        println!("manga: {}", titles);
    }
}

#[test]
fn faulting_guest_still_gets_cleaned_up() {
    let mut store = GlobalStore::new();
    let before = store.value_count();
    let call = driver::begin_manga_details(&mut store, Manga::new(String::from("x")));
    assert_eq!(store.value_count(), before + 1);
    let r = driver::finish_manga_details(&mut store, call, None);
    assert!(r.is_none());
    assert_eq!(store.value_count(), before);
}

#[test]
fn type_mismatched_return_is_consumed() {
    let mut store = GlobalStore::new();
    let before = store.value_count();
    let call = driver::begin_manga_listing(&mut store, Listing { name: String::from("hot") });
    // the guest wrongly returns an Int
    let bad = heap::create_int(&mut store, 3);
    let r = driver::finish_manga_listing(&mut store, call, Some(bad));
    assert!(r.is_none());
    assert_eq!(store.value_count(), before);
}

#[test]
fn notification_and_url_calls_clean_up() {
    let mut store = GlobalStore::new();
    let before = store.value_count();
    let call = driver::begin_notification(&mut store, "ping");
    driver::finish_notification(&mut store, call, Some(-1));
    assert_eq!(store.value_count(), before);

    let call = driver::begin_handle_url(&mut store, "https://example.invalid/m/1");
    let manga_d = driver::begin_manga_details(&mut store, Manga::new(String::from("m1"))).arg;
    let chapter_d = -1;
    let link = domain::create_deeplink(&mut store, manga_d, chapter_d);
    heap::destroy(&mut store, manga_d);
    let r = driver::finish_handle_url(&mut store, call, Some(link)).expect("a deep link");
    assert_eq!(r.manga.expect("manga").id, "m1");
    assert!(r.chapter.is_none());
    assert_eq!(store.value_count(), before);
}

#[test]
fn request_builder_records_method_url_and_headers() {
    let mut store = GlobalStore::new();
    let mut mem = vec![0u8; 64];
    write_at(&mut mem, 0, b"http://127.0.0.1:9/echo");
    write_at(&mut mem, 32, b"K");
    write_at(&mut mem, 34, b"V");
    let rd = net::init(&mut store, 1);
    net::set_url(&mut store, &mem, rd, 0, 23);
    net::set_header(&mut store, &mem, rd, 32, 1, 34, 1);
    net::set_body(&mut store, &mem, rd, 32, 3);
    let req = store.get_request(rd).expect("a live request");
    assert_eq!(req.method, aidoku_runner::store::HttpMethod::Post);
    assert_eq!(req.url.as_deref(), Some("http://127.0.0.1:9/echo"));
    assert_eq!(req.headers.len(), 1);
    assert_eq!(req.headers[0].0, "K");
    assert_eq!(req.headers[0].1.as_deref(), Some("V"));
    assert_eq!(req.body.as_deref(), Some(&b"K\0V"[..]));
    assert!(req.response.is_none());
    // replacing a header keeps one entry
    net::set_header(&mut store, &mem, rd, 32, 1, 0, 4);
    let req = store.get_request(rd).expect("a live request");
    assert_eq!(req.headers.len(), 1);
    assert_eq!(req.headers[0].1.as_deref(), Some("http"));
    net::close(&mut store, rd);
    assert!(store.get_request(rd).is_none());
}

#[test]
fn unreachable_host_completes_with_status_400_and_no_data() {
    let mut store = GlobalStore::new();
    let mut mem = vec![0u8; 64];
    write_at(&mut mem, 0, b"http://127.0.0.1:9/");
    let rd = net::init(&mut store, 0);
    assert_eq!(net::get_data_size(&store, rd), -1);
    net::set_url(&mut store, &mem, rd, 0, 19);
    net::send(&mut store, rd);
    assert_eq!(net::get_data_size(&store, rd), 0);
    let req = store.get_request(rd).expect("a live request");
    assert_eq!(req.response.as_ref().expect("completed").status_code, 400);
    // json of an empty body fails
    assert_eq!(net::json(&mut store, rd), -1);
}

#[test]
fn send_without_url_is_a_no_op() {
    let mut store = GlobalStore::new();
    let rd = net::init(&mut store, 3);
    net::send(&mut store, rd);
    let req = store.get_request(rd).expect("a live request");
    assert!(req.response.is_none());
    assert_eq!(net::get_data_size(&store, rd), -1);
}

#[test]
fn request_descriptors_have_their_own_cursor() {
    let mut store = GlobalStore::new();
    let v = heap::create_int(&mut store, 1);
    let r0 = net::init(&mut store, 0);
    let r1 = net::init(&mut store, 4);
    assert_eq!(v, 0);
    assert_eq!(r0, 0);
    assert_eq!(r1, 1);
    net::close(&mut store, r0);
    assert_eq!(net::init(&mut store, 2), 2);
}
