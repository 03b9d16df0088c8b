//! The `net` namespace of the host-import surface: the blocking HTTP
//! request builder. A request descriptor is built up by `set_url`,
//! `set_header` and `set_body`, performed synchronously by `send`, and
//! read out by `get_data_size` and `get_data`. A transport failure
//! completes the request with status 400 and an empty body.

use core::str::FromStr;
use reqwest::header::{HeaderMap, HeaderName, HeaderValue};
use vstd::prelude::*;
use crate::heap::wrote_region;
use crate::memory::{in_bounds, utf8_lossy};
use crate::store::{GlobalStore, HttpMethod, Request, RequestModel, Response, ResponseModel};
use crate::value::{
    assoc_find, lemma_obj_first_hit, lemma_obj_update_absent, lemma_obj_update_unique, obj_update,
};

verus! {

/// The value side of the store and the defaults are untouched between
/// `pre` and `post`.
pub open spec fn frame_values(pre: GlobalStore, post: GlobalStore) -> bool {
    &&& post.val_map() == pre.val_map()
    &&& post.next_descriptor() == pre.next_descriptor()
    &&& post.live_count() == pre.live_count()
    &&& post.defaults_assoc() == pre.defaults_assoc()
}

/// Allocates a fresh pending request with the method of the given wire
/// code; an unknown code falls back to GET.
pub fn init(store: &mut GlobalStore, method: i32) -> (d: i32)
    requires
        old(store).wf(),
        old(store).can_alloc_request(),
    ensures
        final(store).wf(),
        d as int == old(store).next_request(),
        final(store).next_request() == old(store).next_request() + 1,
        final(store).req_map() == old(store).req_map().insert(
            d as int,
            RequestModel {
                method: HttpMethod::spec_from_code(method),
                url: None,
                headers: Seq::<(Seq<char>, Option<Seq<char>>)>::empty(),
                body: None,
                response: None,
            },
        ),
        frame_values(*old(store), *final(store)),
{
    store.new_request(HttpMethod::from_code(method))
}

/// Removes a request descriptor; removing a dead one is a no-op.
pub fn close(store: &mut GlobalStore, descriptor: i32)
    requires
        old(store).wf(),
    ensures
        final(store).wf(),
        final(store).req_map() == old(store).req_map().remove(descriptor as int),
        final(store).next_request() == old(store).next_request(),
        frame_values(*old(store), *final(store)),
{
    store.remove_request(descriptor)
}

/// Sets the URL of the request behind `descriptor` to the string at
/// `(value, len)`. A range leaving the memory or a dead descriptor
/// leaves everything unchanged.
pub fn set_url(store: &mut GlobalStore, mem: &Vec<u8>, descriptor: i32, value: u32, len: u32)
    requires
        old(store).wf(),
    ensures
        final(store).wf(),
        ({
            let ok = value + len <= mem@.len();
            let u = utf8_lossy(mem@.subrange(value as int, value + len));
            let applies = ok && old(store).req_map().dom().contains(descriptor as int);
            &&& applies ==> final(store).req_map() == old(store).req_map().insert(
                descriptor as int,
                RequestModel { url: Some(u), ..old(store).req_map()[descriptor as int] },
            ) && final(store).next_request() == old(store).next_request() && frame_values(
                *old(store),
                *final(store),
            )
            &&& !applies ==> *final(store) == *old(store)
        }),
{
    let url: String = match crate::memory::read_string(mem, value, len) {
        Some(s) => s,
        None => {
            return ;
        },
    };
    let req: Request = match store.get_request(descriptor) {
        Some(r) => r.duplicate(),
        None => {
            return ;
        },
    };
    let updated = Request { url: Some(url), ..req };
    store.set_request(descriptor, updated);
}

/// Sets the header named by the key at `(key, key_len)` of the request
/// behind `descriptor` to the string at `(value, value_len)`, replacing
/// an existing header with that name. A range leaving the memory or a
/// dead descriptor leaves everything unchanged.
pub fn set_header(
    store: &mut GlobalStore,
    mem: &Vec<u8>,
    descriptor: i32,
    key: u32,
    key_len: u32,
    value: u32,
    value_len: u32,
)
    requires
        old(store).wf(),
    ensures
        final(store).wf(),
        ({
            let ok = key + key_len <= mem@.len() && value + value_len <= mem@.len();
            let k = utf8_lossy(mem@.subrange(key as int, key + key_len));
            let v = utf8_lossy(mem@.subrange(value as int, value + value_len));
            let applies = ok && old(store).req_map().dom().contains(descriptor as int);
            &&& applies ==> final(store).req_map() == old(store).req_map().insert(
                descriptor as int,
                RequestModel {
                    headers: obj_update(
                        old(store).req_map()[descriptor as int].headers,
                        k,
                        Some(v),
                    ),
                    ..old(store).req_map()[descriptor as int]
                },
            ) && final(store).next_request() == old(store).next_request() && frame_values(
                *old(store),
                *final(store),
            )
            &&& !applies ==> *final(store) == *old(store)
        }),
{
    let kstr: String = match crate::memory::read_string(mem, key, key_len) {
        Some(s) => s,
        None => {
            return ;
        },
    };
    let vstr: String = match crate::memory::read_string(mem, value, value_len) {
        Some(s) => s,
        None => {
            return ;
        },
    };
    let req: Request = match store.get_request(descriptor) {
        Some(r) => r.duplicate(),
        None => {
            return ;
        },
    };
    let mut headers = req.headers;
    let ghost pre = old(store).req_map()[descriptor as int].headers;
    proof {
        assert(Seq::new(
            headers@.len(),
            |i: int| (headers@[i].0@, headers@[i].1.deep_view()),
        ) =~= pre);
    }
    match assoc_find(&headers, kstr.as_str()) {
        Some(i) => {
            proof {
                lemma_obj_first_hit(pre, kstr@, i as int);
            }
            headers.set(i, (kstr, Some(vstr)));
        },
        None => {
            proof {
                lemma_obj_update_absent(pre, kstr@, Some(vstr@));
                lemma_obj_update_unique(pre, kstr@, Some(vstr@));
            }
            headers.push((kstr, Some(vstr)));
        },
    }
    let updated = Request {
        method: req.method,
        url: req.url,
        headers,
        body: req.body,
        response: req.response,
    };
    proof {
        assert(updated@.headers =~= obj_update(pre, kstr@, Some(vstr@)));
    }
    store.set_request(descriptor, updated);
}

/// Sets the body of the request behind `descriptor` to the bytes at
/// `(value, len)`. A range leaving the memory or a dead descriptor
/// leaves everything unchanged.
pub fn set_body(store: &mut GlobalStore, mem: &Vec<u8>, descriptor: i32, value: u32, len: u32)
    requires
        old(store).wf(),
    ensures
        final(store).wf(),
        ({
            let ok = value + len <= mem@.len();
            let b = mem@.subrange(value as int, value + len);
            let applies = ok && old(store).req_map().dom().contains(descriptor as int);
            &&& applies ==> final(store).req_map() == old(store).req_map().insert(
                descriptor as int,
                RequestModel { body: Some(b), ..old(store).req_map()[descriptor as int] },
            ) && final(store).next_request() == old(store).next_request() && frame_values(
                *old(store),
                *final(store),
            )
            &&& !applies ==> *final(store) == *old(store)
        }),
{
    let data: Vec<u8> = match crate::memory::read_bytes(mem, value, len) {
        Some(b) => b,
        None => {
            return ;
        },
    };
    let req: Request = match store.get_request(descriptor) {
        Some(r) => r.duplicate(),
        None => {
            return ;
        },
    };
    let updated = Request { body: Some(data), ..req };
    store.set_request(descriptor, updated);
}

/// The request-line name of each HTTP method.
pub open spec fn method_text(m: HttpMethod) -> Seq<char> {
    match m {
        HttpMethod::Get => "GET"@,
        HttpMethod::Post => "POST"@,
        HttpMethod::Head => "HEAD"@,
        HttpMethod::Put => "PUT"@,
        HttpMethod::Delete => "DELETE"@,
    }
}

/// The request-line name of an HTTP method, exactly `method_text`.
fn method_str(method: &HttpMethod) -> (r: &'static str)
    ensures
        r@ == method_text(*method),
{
    match method {
        HttpMethod::Get => "GET",
        HttpMethod::Post => "POST",
        HttpMethod::Head => "HEAD",
        HttpMethod::Put => "PUT",
        HttpMethod::Delete => "DELETE",
    }
}

/// The flattened text of a header value: an absent value reads as empty.
pub open spec fn header_value_text(v: Option<Seq<char>>) -> Seq<char> {
    match v {
        Some(s) => s,
        None => Seq::<char>::empty(),
    }
}

/// Flattens the headers for the transport: each key is kept exactly, and
/// an absent value reads as the empty string.
fn header_strings(headers: &Vec<(String, Option<String>)>) -> (r: Vec<(String, String)>)
    ensures
        r@.len() == headers@.len(),
        forall|i: int|
            0 <= i < headers@.len() ==> (#[trigger] r@[i]).0@ == headers@[i].0@ && r@[i].1@
                == header_value_text(headers@[i].1.deep_view()),
{
    let mut out: Vec<(String, String)> = Vec::new();
    let mut i: usize = 0;
    while i < headers.len()
        invariant
            i <= headers@.len(),
            out@.len() == i,
            forall|j: int|
                0 <= j < i ==> (#[trigger] out@[j]).0@ == headers@[j].0@ && out@[j].1@
                    == header_value_text(headers@[j].1.deep_view()),
        decreases headers@.len() - i,
    {
        let k = headers[i].0.clone();
        let v = match &headers[i].1 {
            Some(s) => s.clone(),
            None => String::new(),
        };
        out.push((k, v));
        i += 1;
    }
    out
}

/// Relies on reqwest's blocking client: performs one HTTP round trip with
/// the given method name, URL, headers and body, and hands back the
/// status and body bytes, or nothing on a transport failure. Headers that
/// reqwest rejects as ill-formed are skipped. Nothing is promised of the
/// network's answer.
#[verifier::external_body]
fn http_send(
    method: &str,
    url: &str,
    headers: &Vec<(String, String)>,
    body: &Option<Vec<u8>>,
) -> Option<(u16, Vec<u8>)> {
    let m = reqwest::Method::from_bytes(method.as_bytes()).ok()?;
    let mut hm = HeaderMap::new();
    for (k, v) in headers.iter() {
        if let (Ok(n), Ok(va)) = (HeaderName::from_str(k), HeaderValue::from_str(v)) {
            hm.insert(n, va);
        }
    }
    let mut rb = reqwest::blocking::Client::new().request(m, url).headers(hm);
    if let Some(b) = body {
        rb = rb.body(b.clone());
    }
    let res = rb.send().ok()?;
    Some((res.status().as_u16(), res.bytes().map(|b| b.to_vec()).unwrap_or_default()))
}

/// The response a send outcome completes a request with: the transport's
/// status and bytes, or status 400 with an empty body on failure.
pub open spec fn response_of_outcome(outcome: Option<(u16, Seq<u8>)>) -> ResponseModel {
    match outcome {
        Some(o) => ResponseModel { status_code: o.0 as i32, data: o.1 },
        None => ResponseModel { status_code: 400, data: Seq::<u8>::empty() },
    }
}

/// Completes a request with the outcome of a send: whatever came back,
/// the response is filled per `response_of_outcome` and nothing else
/// changes.
pub fn complete_request(req: Request, outcome: Option<(u16, Vec<u8>)>) -> (r: Request)
    ensures
        r@ == (RequestModel {
            response: Some(
                response_of_outcome(
                    match outcome {
                        Some(o) => Some((o.0, o.1@)),
                        None => None,
                    },
                ),
            ),
            ..req@
        }),
{
    let response = match outcome {
        Some(o) => Response { status_code: o.0 as i32, data: o.1 },
        None => Response { status_code: 400, data: Vec::new() },
    };
    let r = Request { response: Some(response), ..req };
    proof {
        assert(r@ =~= (RequestModel {
            response: Some(
                response_of_outcome(
                    match outcome {
                        Some(o) => Some((o.0, o.1@)),
                        None => None,
                    },
                ),
            ),
            ..req@
        }));
    }
    r
}

/// Performs the request behind `descriptor` synchronously and stores the
/// response: some outcome's status and bytes, or status 400 with an empty
/// body on a transport failure. What goes to the transport is pinned by
/// the helpers' contracts: the method's request-line name per
/// `method_text`, the request's URL and body as stored, and its headers
/// flattened per `header_value_text`. A dead descriptor or an unset URL
/// leaves everything unchanged; the request's method, URL, headers and
/// body are kept as they were.
pub fn send(store: &mut GlobalStore, descriptor: i32)
    requires
        old(store).wf(),
    ensures
        final(store).wf(),
        ({
            let applies = old(store).req_map().dom().contains(descriptor as int) && old(
                store,
            ).req_map()[descriptor as int].url is Some;
            &&& applies ==> exists|outcome: Option<(u16, Seq<u8>)>|
                final(store).req_map() == old(store).req_map().insert(
                    descriptor as int,
                    RequestModel {
                        response: Some(#[trigger] response_of_outcome(outcome)),
                        ..old(store).req_map()[descriptor as int]
                    },
                ) && final(store).next_request() == old(store).next_request() && frame_values(
                    *old(store),
                    *final(store),
                )
            &&& !applies ==> *final(store) == *old(store)
        }),
{
    let req: Request = match store.get_request(descriptor) {
        Some(r) => r.duplicate(),
        None => {
            return ;
        },
    };
    let url: &String = match &req.url {
        Some(u) => u,
        None => {
            return ;
        },
    };
    let hs = header_strings(&req.headers);
    let outcome = http_send(method_str(&req.method), url.as_str(), &hs, &req.body);
    let completed = complete_request(req, outcome);
    store.set_request(descriptor, completed);
}

/// The byte length of the response of the request behind `descriptor`;
/// `-1` stands for a dead descriptor or a request not yet sent.
pub fn get_data_size(store: &GlobalStore, descriptor: i32) -> (n: i32)
    ensures
        ({
            let live = store.req_map().dom().contains(descriptor as int);
            &&& (live && store.req_map()[descriptor as int].response is Some && store.req_map()[
                descriptor as int
            ].response->0.data.len() <= i32::MAX ==> n == store.req_map()[
                descriptor as int
            ].response->0.data.len())
            &&& (!live || store.req_map()[descriptor as int].response is None ==> n == -1)
        }),
{
    match store.get_request(descriptor) {
        Some(req) => match &req.response {
            Some(res) => #[verifier::truncate] (res.data.len() as i32),
            None => -1,
        },
        None => -1,
    }
}

/// Parses the response body of the request behind `descriptor` as a JSON
/// document into a fresh value descriptor; `-1` stands for a dead
/// descriptor, an unsent request or malformed JSON.
pub fn json(store: &mut GlobalStore, descriptor: i32) -> (d: i32)
    requires
        old(store).wf(),
        old(store).can_alloc_value(),
    ensures
        final(store).wf(),
        ({
            let live = old(store).req_map().dom().contains(descriptor as int);
            let doc = if live && old(store).req_map()[descriptor as int].response is Some {
                crate::json::spec_parse_doc(
                    crate::memory::utf8_lossy(
                        old(store).req_map()[descriptor as int].response->0.data,
                    ),
                )
            } else {
                None
            };
            match doc {
                Some(v) => crate::heap::alloc_effect(*old(store), *final(store), d, v),
                None => d == -1 && *final(store) == *old(store),
            }
        }),
{
    let body: Vec<u8> = match store.get_request(descriptor) {
        Some(req) => match &req.response {
            Some(res) => crate::store::clone_bytes(&res.data),
            None => {
                return -1;
            },
        },
        None => {
            return -1;
        },
    };
    let text = crate::memory::lossy_string(&body);
    crate::json::parse_str(store, text.as_str())
}

/// The prefix of the response data that a read with the given size budget
/// copies out: the whole body, unless `0 <= size < len` cuts it.
pub open spec fn data_read_prefix(data: Seq<u8>, size: i32) -> Seq<u8> {
    if 0 <= size < data.len() {
        data.subrange(0, size as int)
    } else {
        data
    }
}

/// Copies up to `size` bytes of the response body of the request behind
/// `descriptor` into guest memory at `buff`. A dead descriptor, an unsent
/// request, a negative destination or a destination range leaving the
/// memory leaves the memory untouched.
pub fn get_data(store: &GlobalStore, mem: &mut Vec<u8>, descriptor: i32, buff: i32, size: i32)
    ensures
        final(mem)@.len() == old(mem)@.len(),
        ({
            let live = store.req_map().dom().contains(descriptor as int);
            if live && store.req_map()[descriptor as int].response is Some && buff >= 0 {
                let data = data_read_prefix(
                    store.req_map()[descriptor as int].response->0.data,
                    size,
                );
                if in_bounds(old(mem)@.len(), buff as u32, data.len() as int) {
                    wrote_region(old(mem)@, final(mem)@, buff as int, data)
                } else {
                    final(mem)@ == old(mem)@
                }
            } else {
                final(mem)@ == old(mem)@
            }
        }),
{
    if buff < 0 {
        return ;
    }
    let data: Vec<u8> = match store.get_request(descriptor) {
        Some(req) => match &req.response {
            Some(res) => {
                let total = res.data.len();
                let k: usize = if size >= 0 && (size as usize) < total {
                    size as usize
                } else {
                    total
                };
                let mut out: Vec<u8> = Vec::new();
                let mut i: usize = 0;
                while i < k
                    invariant
                        k <= res.data@.len(),
                        i <= k,
                        out@ =~= res.data@.subrange(0, i as int),
                    decreases k - i,
                {
                    out.push(res.data[i]);
                    i += 1;
                }
                out
            },
            None => {
                return ;
            },
        },
        None => {
            return ;
        },
    };
    proof {
        assert(data@ =~= data_read_prefix(
            store.req_map()[descriptor as int].response->0.data,
            size,
        ));
    }
    crate::memory::write_bytes(mem, &data, buff as u32);
}

} // verus!
