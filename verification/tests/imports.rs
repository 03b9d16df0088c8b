use aidoku_runner::defaults;
use aidoku_runner::domain;
use aidoku_runner::fbits;
use aidoku_runner::heap;
use aidoku_runner::json;
use aidoku_runner::store::GlobalStore;
use aidoku_runner::value::Value;

fn write_at(mem: &mut Vec<u8>, at: usize, bytes: &[u8]) {
    mem[at..at + bytes.len()].copy_from_slice(bytes);
}

#[test]
fn descriptor_ids_are_monotonic_and_never_reused() {
    let mut store = GlobalStore::new();
    assert_eq!(heap::create_null(&mut store), 0);
    assert_eq!(heap::create_int(&mut store, 7), 1);
    assert_eq!(heap::create_bool(&mut store, 1), 2);
    heap::destroy(&mut store, 1);
    assert_eq!(heap::create_array(&mut store), 3);
    heap::destroy(&mut store, 0);
    heap::destroy(&mut store, 2);
    assert_eq!(heap::create_object(&mut store), 4);
}

#[test]
fn primitive_round_trips() {
    let mut store = GlobalStore::new();
    let d_null = heap::create_null(&mut store);
    let d_int = heap::create_int(&mut store, -123456789012345678);
    let d_float = heap::create_float(&mut store, 2.5f64.to_bits());
    let d_str = heap::create_string(&mut store);
    let d_bool = heap::create_bool(&mut store, 2);
    let d_arr = heap::create_array(&mut store);
    let d_obj = heap::create_object(&mut store);
    let d_date = heap::create_date(&mut store, 1715040000.0f64.to_bits());

    assert_eq!(heap::value_kind(&store, d_null), 0);
    assert_eq!(heap::value_kind(&store, d_int), 1);
    assert_eq!(heap::value_kind(&store, d_float), 2);
    assert_eq!(heap::value_kind(&store, d_str), 3);
    assert_eq!(heap::value_kind(&store, d_bool), 4);
    assert_eq!(heap::value_kind(&store, d_arr), 5);
    assert_eq!(heap::value_kind(&store, d_obj), 6);
    assert_eq!(heap::value_kind(&store, d_date), 7);
    assert_eq!(heap::value_kind(&store, 999), 0);

    assert_eq!(heap::read_int(&store, d_int), -123456789012345678);
    assert_eq!(heap::read_float(&store, d_float), 2.5f64.to_bits());
    assert_eq!(heap::read_bool(&store, d_bool), 1);
    assert_eq!(heap::read_date(&store, d_date), 1715040000.0f64.to_bits());
    assert_eq!(heap::string_len(&store, d_str), 0);

    // documented coercions
    assert_eq!(heap::read_int(&store, d_float), 2);
    assert_eq!(heap::read_int(&store, d_bool), 1);
    assert_eq!(heap::read_float(&store, d_int), ((-123456789012345678i64) as f64).to_bits());
    assert_eq!(heap::read_bool(&store, d_int), 1);
    assert_eq!(heap::read_date(&store, d_float), 2.5f64.to_bits());

    // sentinels for mismatches and dead descriptors
    assert_eq!(heap::read_int(&store, d_str), -1);
    assert_eq!(heap::read_float(&store, d_str), (-1.0f64).to_bits());
    assert_eq!(heap::read_bool(&store, d_str), 0);
    assert_eq!(heap::read_date(&store, d_str), (-1.0f64).to_bits());
    assert_eq!(heap::read_int(&store, 999), -1);
}

#[test]
fn copied_strings_read_back() {
    let mut store = GlobalStore::new();
    let d = store.store_value(Value::Str(String::from("nonsense")));
    assert_eq!(heap::string_len(&store, d), 8);
    let mut mem = vec![0u8; 16];
    heap::read_string(&store, &mut mem, d, 2, 100);
    assert_eq!(&mem[2..10], b"nonsense");
    // a bounded read copies only the prefix
    let mut mem2 = vec![0u8; 16];
    heap::read_string(&store, &mut mem2, d, 0, 3);
    assert_eq!(&mem2[0..3], b"non");
    assert_eq!(mem2[3], 0);
}

#[test]
fn integer_to_float_bits_match_the_hardware() {
    for &x in &[
        0i64,
        1,
        -1,
        42,
        -42,
        1023,
        1 << 52,
        (1 << 53) + 1,
        9007199254740993,
        1234567890123456789,
        -1234567890123456789,
        i64::MAX,
        i64::MIN,
        i64::MAX - 1,
        i64::MIN + 1,
    ] {
        assert_eq!(fbits::i64_to_f64(x), (x as f64).to_bits(), "for {x}");
    }
}

#[test]
fn float_truncation_matches_the_hardware() {
    for &f in &[
        0.0f64,
        -0.0,
        0.5,
        -0.5,
        3.99,
        -3.99,
        1e10,
        -1e10,
        1e18,
        -1e18,
        1e30,
        -1e30,
        f64::NAN,
        f64::INFINITY,
        f64::NEG_INFINITY,
        9.223372036854775e18,
        -9.3e18,
    ] {
        assert_eq!(fbits::f64_trunc_i64(f.to_bits()), f as i64, "for {f}");
    }
}

#[test]
fn object_get_on_manga_yields_fresh_id_string() {
    let mut store = GlobalStore::new();
    let mut mem = vec![0u8; 64];
    write_at(&mut mem, 0, b"a");
    write_at(&mut mem, 8, b"id");
    let d = domain::create_manga(
        &mut store, &mem, 0, 1, 0, 0, 0, 0, 0, 0, 0, 0, 0, 0, 0, 0, 0, 0, 0, 1, 0, 1,
    );
    assert_eq!(heap::value_kind(&store, d), 6);
    let id_d = heap::object_get(&mut store, &mem, d, 8, 2);
    assert!(id_d >= 0);
    assert_ne!(id_d, d);
    assert_eq!(heap::value_kind(&store, id_d), 3);
    assert_eq!(heap::string_len(&store, id_d), 1);
    let mut out = vec![0u8; 4];
    heap::read_string(&store, &mut out, id_d, 0, 4);
    assert_eq!(out[0], b'a');
}

#[test]
fn sentinels_for_unknown_keys_and_bad_indices() {
    let mut store = GlobalStore::new();
    let mut mem = vec![0u8; 32];
    write_at(&mut mem, 0, b"missing");
    let obj = heap::create_object(&mut store);
    assert_eq!(heap::object_get(&mut store, &mem, obj, 0, 7), -1);
    let arr = heap::create_array(&mut store);
    let item = heap::create_int(&mut store, 5);
    heap::array_append(&mut store, arr, item);
    assert_eq!(heap::array_len(&store, arr), 1);
    assert_eq!(heap::array_get(&mut store, arr, 1), -1);
    assert_eq!(heap::array_get(&mut store, arr, -1), -1);
    let got = heap::array_get(&mut store, arr, 0);
    assert_eq!(heap::read_int(&store, got), 5);
}

#[test]
fn object_set_and_values() {
    let mut store = GlobalStore::new();
    let mut mem = vec![0u8; 32];
    write_at(&mut mem, 0, b"k1");
    write_at(&mut mem, 4, b"k2");
    let obj = heap::create_object(&mut store);
    let v1 = heap::create_int(&mut store, 10);
    let v2 = heap::create_int(&mut store, 20);
    heap::object_set(&mut store, &mem, obj, 0, 2, v1);
    heap::object_set(&mut store, &mem, obj, 4, 2, v2);
    assert_eq!(heap::object_len(&store, obj), 2);
    let got = heap::object_get(&mut store, &mem, obj, 4, 2);
    assert_eq!(heap::read_int(&store, got), 20);
    // replacing under the same key keeps the size
    let v3 = heap::create_int(&mut store, 30);
    heap::object_set(&mut store, &mem, obj, 0, 2, v3);
    assert_eq!(heap::object_len(&store, obj), 2);
    let got2 = heap::object_get(&mut store, &mem, obj, 0, 2);
    assert_eq!(heap::read_int(&store, got2), 30);
    let vals = heap::object_values(&mut store, obj);
    assert_eq!(heap::value_kind(&store, vals), 5);
    assert_eq!(heap::array_len(&store, vals), 2);
}

#[test]
fn copies_are_deep() {
    let mut store = GlobalStore::new();
    let mut mem = vec![0u8; 8];
    write_at(&mut mem, 0, b"k");
    let arr = heap::create_array(&mut store);
    let item = heap::create_int(&mut store, 1);
    heap::array_append(&mut store, arr, item);
    let copy = heap::copy(&mut store, arr);
    // growing the copy leaves the original alone
    heap::array_append(&mut store, copy, item);
    assert_eq!(heap::array_len(&store, arr), 1);
    assert_eq!(heap::array_len(&store, copy), 2);
    assert_eq!(heap::copy(&mut store, 999), -1);
}

#[test]
fn response_key_accessors() {
    let res = aidoku_runner::store::Response { status_code: 200, data: vec![1, 2, 3] };
    match res.get_value("status_code") {
        Some(Value::Int(code)) => assert_eq!(code, 200),
        _ => panic!("expected an integer status"),
    }
    match res.get_value("data") {
        Some(Value::Array(items)) => {
            assert_eq!(items.len(), 3);
            assert!(matches!(items[0], Value::Int(1)));
            assert!(matches!(items[2], Value::Int(3)));
        }
        _ => panic!("expected a byte array"),
    }
    assert!(res.get_value("other").is_none());
}

#[test]
fn defaults_round_trip() {
    let mut store = GlobalStore::new();
    let mut mem = vec![0u8; 8];
    write_at(&mut mem, 0, b"k");
    let v = heap::create_int(&mut store, 42);
    defaults::set(&mut store, &mem, 0, 1, v);
    let got = defaults::get(&mut store, &mem, 0, 1);
    assert!(got >= 0);
    assert_ne!(got, v);
    assert_eq!(heap::read_int(&store, got), 42);
    write_at(&mut mem, 2, b"x");
    assert_eq!(defaults::get(&mut store, &mem, 2, 1), -1);
}

#[test]
fn chapter_sentinels_fold_to_absent_fields() {
    let mut store = GlobalStore::new();
    let mut mem = vec![0u8; 8];
    write_at(&mut mem, 0, b"c1");
    let d = domain::create_chapter(
        &mut store,
        &mem,
        0,
        2,
        0,
        0,
        (-1.0f32).to_bits(),
        2.5f32.to_bits(),
        0.0f64.to_bits(),
        0,
        0,
        0,
        0,
        0,
        0,
    );
    assert_eq!(heap::value_kind(&store, d), 6);
    match store.read_value(d) {
        Some(Value::Chapter(c)) => {
            assert_eq!(c.id, "c1");
            assert!(c.volume.is_none());
            assert_eq!(c.chapter, Some(2.5f32.to_bits()));
            assert!(c.date_uploaded.is_none());
        }
        _ => panic!("expected a chapter"),
    }
}

#[test]
fn date_format_tokens_translate() {
    assert_eq!(
        aidoku_runner::dates::translate_format_string("yyyy-MM-dd"),
        "%Y-%m-%d"
    );
    assert_eq!(
        aidoku_runner::dates::translate_format_string("EEEE d HH:mm:ss"),
        "%A %d %H:%M:%S"
    );
    assert_eq!(aidoku_runner::dates::translate_format_string("EEE dd"), "%a %d");
}

#[test]
fn date_string_parses_to_utc_midnight() {
    let mut store = GlobalStore::new();
    let d = store.store_value(Value::Str(String::from("2024-05-07")));
    let mut mem = vec![0u8; 16];
    write_at(&mut mem, 0, b"yyyy-MM-dd");
    let bits = aidoku_runner::dates::read_date_string(&store, &mem, d, 0, 10, 0, 0, 0, 0);
    assert_eq!(f64::from_bits(bits), 1715040000.0);
}

#[test]
fn date_string_failure_is_minus_one() {
    let mut store = GlobalStore::new();
    let d = store.store_value(Value::Str(String::from("not a date")));
    let mut mem = vec![0u8; 16];
    write_at(&mut mem, 0, b"yyyy-MM-dd");
    let bits = aidoku_runner::dates::read_date_string(&store, &mem, d, 0, 10, 0, 0, 0, 0);
    assert_eq!(f64::from_bits(bits), -1.0);
    let n = heap::create_int(&mut store, 3);
    let bits2 = aidoku_runner::dates::read_date_string(&store, &mem, n, 0, 10, 0, 0, 0, 0);
    assert_eq!(f64::from_bits(bits2), -1.0);
}

#[test]
fn json_parse_builds_typed_values() {
    let mut store = GlobalStore::new();
    let text = " {\"a\": 1, \"b\": [true, null, 2.5, \"x\\n\"], \"a\": 3} ";
    let d = json::parse_str(&mut store, text);
    assert!(d >= 0);
    assert_eq!(heap::value_kind(&store, d), 6);
    let mut mem = vec![0u8; 8];
    write_at(&mut mem, 0, b"ab");
    // the later duplicate of "a" wins
    let a = heap::object_get(&mut store, &mem, d, 0, 1);
    assert_eq!(heap::read_int(&store, a), 3);
    assert_eq!(heap::object_len(&store, d), 2);
    let b = heap::object_get(&mut store, &mem, d, 1, 1);
    assert_eq!(heap::value_kind(&store, b), 5);
    assert_eq!(heap::array_len(&store, b), 4);
    let e0 = heap::array_get(&mut store, b, 0);
    assert_eq!(heap::read_bool(&store, e0), 1);
    let e1 = heap::array_get(&mut store, b, 1);
    assert_eq!(heap::value_kind(&store, e1), 0);
    let e2 = heap::array_get(&mut store, b, 2);
    assert_eq!(heap::read_float(&store, e2), 2.5f64.to_bits());
    let e3 = heap::array_get(&mut store, b, 3);
    assert_eq!(heap::string_len(&store, e3), 2);
}

#[test]
fn json_numbers_split_between_int_and_float() {
    let mut store = GlobalStore::new();
    let d = json::parse_str(&mut store, "[0, -7, 9223372036854775807, -9223372036854775808, 9223372036854775808, 1e2, -0.5]");
    assert!(d >= 0);
    assert_eq!(heap::array_len(&store, d), 7);
    let kinds: Vec<i32> = (0..7)
        .map(|i| {
            let e = heap::array_get(&mut store, d, i);
            heap::value_kind(&store, e)
        })
        .collect();
    assert_eq!(kinds, vec![1, 1, 1, 1, 2, 2, 2]);
    let e2 = heap::array_get(&mut store, d, 2);
    assert_eq!(heap::read_int(&store, e2), i64::MAX);
    let e3 = heap::array_get(&mut store, d, 3);
    assert_eq!(heap::read_int(&store, e3), i64::MIN);
    let e4 = heap::array_get(&mut store, d, 4);
    assert_eq!(heap::read_float(&store, e4), 9223372036854775808.0f64.to_bits());
    let e6 = heap::array_get(&mut store, d, 6);
    assert_eq!(heap::read_float(&store, e6), (-0.5f64).to_bits());
}

#[test]
fn malformed_json_is_rejected() {
    let mut store = GlobalStore::new();
    assert_eq!(json::parse_str(&mut store, "{\"a\": "), -1);
    assert_eq!(json::parse_str(&mut store, "01"), -1);
    assert_eq!(json::parse_str(&mut store, "[1,]"), -1);
    assert_eq!(json::parse_str(&mut store, "\"\\ud800\""), -1);
    assert_eq!(json::parse_str(&mut store, "1 2"), -1);
    assert_eq!(json::parse_str(&mut store, ""), -1);
    let mem = vec![0u8; 4];
    assert_eq!(json::parse(&mut store, &mem, 0, 0), -1);
}

#[test]
fn json_escapes_round_trip_through_parse() {
    let mut store = GlobalStore::new();
    let d = json::parse_str(&mut store, "\"a\\u0041\\n\\\\\\\"\\u00e9\\ud83d\\ude00\"");
    assert!(d >= 0);
    match store.read_value(d) {
        Some(Value::Str(s)) => assert_eq!(s, "aA\n\\\"\u{e9}\u{1f600}"),
        _ => panic!("expected a string"),
    }
}

#[test]
fn serialize_then_parse_is_identity_on_samples() {
    let mut store = GlobalStore::new();
    let d = json::parse_str(
        &mut store,
        "{\"list\": [1, \"two\", {\"deep\": true}, null], \"n\": -12, \"s\": \"q\\\"uote\\u0001\"}",
    );
    assert!(d >= 0);
    let v = store.read_value(d).unwrap();
    let text = json::serialize(v).expect("value came from JSON");
    let mut store2 = GlobalStore::new();
    let d2 = json::parse_str(&mut store2, text.as_str());
    assert!(d2 >= 0);
    let v2 = store2.read_value(d2).unwrap();
    let text2 = json::serialize(v2).expect("value came from JSON");
    assert_eq!(text, text2);
}

#[test]
fn serialize_rejects_values_outside_the_json_domain() {
    assert!(json::serialize(&Value::Float(2.5f64.to_bits())).is_none());
    assert!(json::serialize(&Value::Date(0)).is_none());
    assert!(json::serialize(&Value::Node).is_none());
    assert_eq!(json::serialize(&Value::Int(-5)).unwrap(), "-5");
    assert_eq!(
        json::serialize(&Value::Str(String::from("a\"b"))).unwrap(),
        "\"a\\\"b\""
    );
}

#[test]
fn manga_result_filters_non_manga_entries() {
    let mut store = GlobalStore::new();
    let mut mem = vec![0u8; 8];
    write_at(&mut mem, 0, b"m1");
    let m = domain::create_manga(
        &mut store, &mem, 0, 2, 0, 0, 0, 0, 0, 0, 0, 0, 0, 0, 0, 0, 0, 0, 0, 0, 0, 0,
    );
    let arr = heap::create_array(&mut store);
    let stray = heap::create_int(&mut store, 9);
    heap::array_append(&mut store, arr, m);
    heap::array_append(&mut store, arr, stray);
    let res = domain::create_manga_result(&mut store, arr, 1);
    match store.read_value(res) {
        Some(Value::MangaResult(r)) => {
            assert_eq!(r.manga.len(), 1);
            assert_eq!(r.manga[0].id, "m1");
            assert!(r.has_more);
        }
        _ => panic!("expected a manga result"),
    }
    assert_eq!(domain::create_manga_result(&mut store, stray, 0), -1);
}

#[test]
fn manga_categories_come_from_tag_arrays() {
    let mut store = GlobalStore::new();
    let mut mem = vec![0u8; 64];
    write_at(&mut mem, 0, b"id");
    write_at(&mut mem, 4, b"one");
    write_at(&mut mem, 8, b"two");
    // two tag pointers and their lengths, little-endian
    write_at(&mut mem, 16, &4i32.to_le_bytes());
    write_at(&mut mem, 20, &8i32.to_le_bytes());
    write_at(&mut mem, 24, &3i32.to_le_bytes());
    write_at(&mut mem, 28, &3i32.to_le_bytes());
    let d = domain::create_manga(
        &mut store, &mem, 0, 2, 0, 0, 0, 0, 0, 0, 0, 0, 0, 0, 0, 0, 16, 24, 2, 1, 2, 3,
    );
    match store.read_value(d) {
        Some(Value::Manga(m)) => {
            assert_eq!(m.categories, vec!["one".to_string(), "two".to_string()]);
            assert_eq!(m.status, aidoku_runner::models::MangaStatus::Ongoing);
            assert_eq!(m.nsfw, aidoku_runner::models::MangaContentRating::Nsfw);
            assert_eq!(m.viewer, aidoku_runner::models::MangaViewer::Vertical);
        }
        _ => panic!("expected a manga"),
    }
    // a missing id is refused
    assert_eq!(
        domain::create_manga(
            &mut store, &mem, 0, 0, 0, 0, 0, 0, 0, 0, 0, 0, 0, 0, 0, 0, 0, 0, 0, 0, 0, 0,
        ),
        -1
    );
}
