//! Session-scoped state: the descriptor table holding typed values on
//! behalf of the guest, the parallel request store for HTTP requests, and
//! the defaults map. Descriptor ids are handed out by a monotonic cursor
//! and are never reused within a session.

use vstd::prelude::*;
use crate::value::{clone_value, wf_val, Val, Value};

verus! {

/// An HTTP method, wire codes 0 through 4.
#[derive(Clone, Copy, Debug, PartialEq, Eq, Structural)]
pub enum HttpMethod {
    Get,
    Post,
    Head,
    Put,
    Delete,
}

impl HttpMethod {
    pub open spec fn spec_code(self) -> i32 {
        match self {
            HttpMethod::Get => 0,
            HttpMethod::Post => 1,
            HttpMethod::Head => 2,
            HttpMethod::Put => 3,
            HttpMethod::Delete => 4,
        }
    }

    /// Decoding of a wire code; out-of-range codes fall back to `Get`.
    pub open spec fn spec_from_code(code: i32) -> HttpMethod {
        if code == 1 {
            HttpMethod::Post
        } else if code == 2 {
            HttpMethod::Head
        } else if code == 3 {
            HttpMethod::Put
        } else if code == 4 {
            HttpMethod::Delete
        } else {
            HttpMethod::Get
        }
    }

    pub fn code(&self) -> (c: i32)
        ensures
            c == self.spec_code(),
    {
        match self {
            HttpMethod::Get => 0,
            HttpMethod::Post => 1,
            HttpMethod::Head => 2,
            HttpMethod::Put => 3,
            HttpMethod::Delete => 4,
        }
    }

    pub fn from_code(code: i32) -> (m: HttpMethod)
        ensures
            m == HttpMethod::spec_from_code(code),
    {
        match code {
            1 => HttpMethod::Post,
            2 => HttpMethod::Head,
            3 => HttpMethod::Put,
            4 => HttpMethod::Delete,
            _ => HttpMethod::Get,
        }
    }
}

/// Mathematical model of a [`Response`].
#[verifier::ext_equal]
pub struct ResponseModel {
    pub status_code: i32,
    pub data: Seq<u8>,
}

/// A completed HTTP response: a status code and the raw body bytes.
#[derive(Debug)]
pub struct Response {
    pub status_code: i32,
    pub data: Vec<u8>,
}

impl View for Response {
    type V = ResponseModel;

    open spec fn view(&self) -> ResponseModel {
        ResponseModel { status_code: self.status_code, data: self.data@ }
    }
}

/// The key-accessor protocol of a response: `status_code` is an `Int` and
/// `data` an `Array` of byte-valued `Int`s.
pub open spec fn response_field(r: ResponseModel, key: Seq<char>) -> Option<Val> {
    if key == "status_code"@ {
        Some(Val::Int(r.status_code as i64))
    } else if key == "data"@ {
        Some(Val::Array(Seq::new(r.data.len(), |i: int| Val::Int(r.data[i] as i64))))
    } else {
        None
    }
}

/// A copy of a byte vector.
pub fn clone_bytes(v: &Vec<u8>) -> (r: Vec<u8>)
    ensures
        r@ == v@,
{
    let mut r: Vec<u8> = Vec::new();
    let mut i: usize = 0;
    while i < v.len()
        invariant
            i <= v.len(),
            r@ =~= v@.subrange(0, i as int),
        decreases v.len() - i,
    {
        r.push(v[i]);
        i += 1;
    }
    proof {
        assert(r@ =~= v@);
    }
    r
}

impl Response {
    /// The field named by `key` as a fresh value, per the key-accessor
    /// protocol.
    pub fn get_value(&self, key: &str) -> (r: Option<Value>)
        ensures
            match response_field(self@, key@) {
                Some(v) => r is Some && r->0@ == v,
                None => r is None,
            },
    {
        if crate::value::str_eq(key, "status_code") {
            Some(Value::Int(self.status_code as i64))
        } else if crate::value::str_eq(key, "data") {
            let mut items: Vec<Value> = Vec::new();
            let mut i: usize = 0;
            while i < self.data.len()
                invariant
                    i <= self.data.len(),
                    items@.len() == i,
                    forall|j: int| 0 <= j < i ==> items@[j] == Value::Int(self.data@[j] as i64),
                decreases self.data.len() - i,
            {
                items.push(Value::Int(self.data[i] as i64));
                i += 1;
            }
            let out = Value::Array(items);
            proof {
                crate::value::lemma_vals_of(out->Array_0@);
                assert(out@->Array_0 =~= response_field(self@, key@)->Some_0->Array_0);
            }
            Some(out)
        } else {
            None
        }
    }

    /// A deep copy with the same model.
    pub fn duplicate(&self) -> (r: Response)
        ensures
            r@ == self@,
    {
        Response { status_code: self.status_code, data: clone_bytes(&self.data) }
    }
}

/// Mathematical model of a [`Request`].
#[verifier::ext_equal]
pub struct RequestModel {
    pub method: HttpMethod,
    pub url: Option<Seq<char>>,
    pub headers: Seq<(Seq<char>, Option<Seq<char>>)>,
    pub body: Option<Seq<u8>>,
    pub response: Option<ResponseModel>,
}

/// An HTTP request under construction: a method, an optional URL, headers
/// in insertion order, an optional body, and the response once `send` has
/// completed it.
#[derive(Debug)]
pub struct Request {
    pub method: HttpMethod,
    pub url: Option<String>,
    pub headers: Vec<(String, Option<String>)>,
    pub body: Option<Vec<u8>>,
    pub response: Option<Response>,
}

impl View for Request {
    type V = RequestModel;

    open spec fn view(&self) -> RequestModel {
        RequestModel {
            method: self.method,
            url: self.url.deep_view(),
            headers: Seq::new(
                self.headers@.len(),
                |i: int| (self.headers@[i].0@, self.headers@[i].1.deep_view()),
            ),
            body: match self.body {
                Some(b) => Some(b@),
                None => None,
            },
            response: match self.response {
                Some(r) => Some(r@),
                None => None,
            },
        }
    }
}

/// Whether the header keys of a request model are pairwise distinct.
pub open spec fn headers_unique(headers: Seq<(Seq<char>, Option<Seq<char>>)>) -> bool {
    crate::value::obj_keys_unique(headers)
}

impl Request {
    /// A fresh pending request with the given method.
    pub fn new(method: HttpMethod) -> (r: Request)
        ensures
            r@ == (RequestModel {
                method,
                url: None,
                headers: Seq::<(Seq<char>, Option<Seq<char>>)>::empty(),
                body: None,
                response: None,
            }),
    {
        let r = Request { method, url: None, headers: Vec::new(), body: None, response: None };
        proof {
            assert(r@.headers =~= Seq::<(Seq<char>, Option<Seq<char>>)>::empty());
        }
        r
    }

    /// A deep copy with the same model.
    pub fn duplicate(&self) -> (r: Request)
        ensures
            r@ == self@,
    {
        let mut headers: Vec<(String, Option<String>)> = Vec::new();
        let mut i: usize = 0;
        while i < self.headers.len()
            invariant
                i <= self.headers.len(),
                headers@.len() == i,
                forall|j: int| 0 <= j < i ==> headers@[j].0@ == self.headers@[j].0@ && headers@[
                    j
                ].1.deep_view() == self.headers@[j].1.deep_view(),
            decreases self.headers.len() - i,
        {
            let k = self.headers[i].0.clone();
            let v = match &self.headers[i].1 {
                Some(s) => Some(s.clone()),
                None => None,
            };
            headers.push((k, v));
            i += 1;
        }
        let r = Request {
            method: self.method,
            url: match &self.url {
                Some(u) => Some(u.clone()),
                None => None,
            },
            headers,
            body: match &self.body {
                Some(b) => Some(clone_bytes(b)),
                None => None,
            },
            response: match &self.response {
                Some(resp) => Some(resp.duplicate()),
                None => None,
            },
        };
        proof {
            assert(r@.headers =~= self@.headers);
            assert(r@ =~= self@);
        }
        r
    }
}

/// The number of live entries in a slot sequence.
pub open spec fn count_some<T>(s: Seq<Option<T>>) -> nat
    decreases s.len(),
{
    if s.len() == 0 {
        0
    } else {
        count_some(s.drop_last()) + (if s.last() is Some {
            1nat
        } else {
            0nat
        })
    }
}

/// Appending a slot adds its contribution to the live count.
pub proof fn lemma_count_some_push<T>(s: Seq<Option<T>>, x: Option<T>)
    ensures
        count_some(s.push(x)) == count_some(s) + (if x is Some {
            1nat
        } else {
            0nat
        }),
{
    assert(s.push(x).drop_last() =~= s);
}

/// Overwriting a slot exchanges its old contribution for the new one.
pub proof fn lemma_count_some_update<T>(s: Seq<Option<T>>, i: int, x: Option<T>)
    requires
        0 <= i < s.len(),
    ensures
        count_some(s.update(i, x)) + (if s[i] is Some {
            1nat
        } else {
            0nat
        }) == count_some(s) + (if x is Some {
            1nat
        } else {
            0nat
        }),
    decreases s.len(),
{
    let t = s.update(i, x);
    if i == s.len() - 1 {
        assert(t.drop_last() =~= s.drop_last());
    } else {
        lemma_count_some_update(s.drop_last(), i, x);
        assert(t.drop_last() =~= s.drop_last().update(i, x));
    }
}

/// The session-scoped global store: the descriptor table for typed values,
/// the request store, and the defaults map. Each table pairs a slot vector
/// with an implicit monotonic cursor, the vector's length: descriptor `d`
/// lives in slot `d`, and removal clears the slot without shrinking the
/// vector, so ids are never reused.
pub struct GlobalStore {
    pub values: Vec<Option<Value>>,
    pub requests: Vec<Option<Request>>,
    pub defaults: Vec<(String, Value)>,
}

impl GlobalStore {
    /// The descriptor table as a map from live descriptor to the model of
    /// its value.
    pub open spec fn val_map(self) -> Map<int, Val> {
        Map::new(
            |d: int| 0 <= d < self.values@.len() && self.values@[d] is Some,
            |d: int| self.values@[d]->Some_0@,
        )
    }

    /// The cursor of the descriptor table: the id the next allocation
    /// returns.
    pub open spec fn next_descriptor(self) -> int {
        self.values@.len() as int
    }

    /// The number of live descriptors.
    pub open spec fn live_count(self) -> nat {
        count_some(self.values@)
    }

    /// The request store as a map from live request descriptor to the model
    /// of its request.
    pub open spec fn req_map(self) -> Map<int, RequestModel> {
        Map::new(
            |d: int| 0 <= d < self.requests@.len() && self.requests@[d] is Some,
            |d: int| self.requests@[d]->Some_0@,
        )
    }

    /// The cursor of the request store.
    pub open spec fn next_request(self) -> int {
        self.requests@.len() as int
    }

    /// The defaults map as a pair sequence in insertion order, with
    /// pairwise distinct keys.
    pub open spec fn defaults_assoc(self) -> Seq<(Seq<char>, Val)> {
        Seq::new(self.defaults@.len(), |i: int| (self.defaults@[i].0@, self.defaults@[i].1@))
    }

    /// Whether the defaults keys are pairwise distinct.
    pub open spec fn defaults_keys_unique(self) -> bool {
        forall|i: int, j: int| 0 <= i < j < self.defaults@.len() ==> self.defaults@[i].0@
            != self.defaults@[j].0@
    }

    /// Well-formedness: every stored value is well formed, defaults keys
    /// are distinct, every stored request has distinct header keys, and
    /// both tables still have room in the 32-bit descriptor space.
    pub open spec fn wf(self) -> bool {
        &&& forall|d: int| 0 <= d < self.values@.len() && self.values@[d] is Some ==> wf_val(
            #[trigger] self.values@[d]->Some_0@,
        )
        &&& self.defaults_keys_unique()
        &&& forall|i: int| 0 <= i < self.defaults@.len() ==> wf_val(
            #[trigger] self.defaults@[i].1@,
        )
        &&& forall|d: int| 0 <= d < self.requests@.len() && self.requests@[d] is Some
            ==> headers_unique(#[trigger] self.requests@[d]->Some_0@.headers)
        &&& self.values@.len() <= 0x7fff_ffff
        &&& self.requests@.len() <= 0x7fff_ffff
    }

    /// Whether the descriptor table can allocate one more id.
    pub open spec fn can_alloc_value(self) -> bool {
        self.values@.len() < 0x7fff_ffff
    }

    /// Whether the request store can allocate one more id.
    pub open spec fn can_alloc_request(self) -> bool {
        self.requests@.len() < 0x7fff_ffff
    }

    /// A fresh store: both cursors at the start, nothing live, no defaults.
    pub fn new() -> (s: GlobalStore)
        ensures
            s.wf(),
            s.val_map() =~= Map::<int, Val>::empty(),
            s.req_map() =~= Map::<int, RequestModel>::empty(),
            s.defaults_assoc() =~= Seq::<(Seq<char>, Val)>::empty(),
            s.next_descriptor() == 0,
            s.next_request() == 0,
            s.live_count() == 0,
    {
        GlobalStore { values: Vec::new(), requests: Vec::new(), defaults: Vec::new() }
    }

    /// The value behind a descriptor, or `None` for a dead or unknown one.
    pub fn read_value(&self, descriptor: i32) -> (r: Option<&Value>)
        ensures
            match r {
                Some(v) => self.val_map().dom().contains(descriptor as int) && v@ == self.val_map()[
                    descriptor as int
                ] && (self.wf() ==> wf_val(v@)),
                None => !self.val_map().dom().contains(descriptor as int),
            },
    {
        if descriptor >= 0 && (descriptor as usize) < self.values.len() {
            match &self.values[descriptor as usize] {
                Some(v) => Some(v),
                None => None,
            }
        } else {
            None
        }
    }

    /// Allocates a fresh descriptor for `obj`: the cursor is returned and
    /// advanced, and `obj` becomes its value. Ids are handed out in
    /// strictly increasing order and never reused.
    pub fn store_value(&mut self, obj: Value) -> (d: i32)
        requires
            old(self).wf(),
            old(self).can_alloc_value(),
            wf_val(obj@),
        ensures
            final(self).wf(),
            d as int == old(self).next_descriptor(),
            final(self).next_descriptor() == old(self).next_descriptor() + 1,
            final(self).val_map() =~= old(self).val_map().insert(d as int, obj@),
            final(self).live_count() == old(self).live_count() + 1,
            final(self).req_map() =~= old(self).req_map(),
            final(self).next_request() == old(self).next_request(),
            final(self).defaults_assoc() == old(self).defaults_assoc(),
    {
        let d = self.values.len() as i32;
        proof {
            lemma_count_some_push(self.values@, Some(obj));
        }
        self.values.push(Some(obj));
        d
    }

    /// Replaces the value behind a live descriptor.
    pub fn set_value(&mut self, descriptor: i32, obj: Value)
        requires
            old(self).wf(),
            old(self).val_map().dom().contains(descriptor as int),
            wf_val(obj@),
        ensures
            final(self).wf(),
            final(self).val_map() =~= old(self).val_map().insert(descriptor as int, obj@),
            final(self).next_descriptor() == old(self).next_descriptor(),
            final(self).live_count() == old(self).live_count(),
            final(self).req_map() =~= old(self).req_map(),
            final(self).next_request() == old(self).next_request(),
            final(self).defaults_assoc() == old(self).defaults_assoc(),
    {
        proof {
            lemma_count_some_update(self.values@, descriptor as int, Some(obj));
        }
        let idx = descriptor as usize;
        self.values.set(idx, Some(obj));
    }

    /// Removes a descriptor; removing a dead or unknown one is a no-op.
    /// The cursor is unchanged, so the id is not reused later.
    pub fn remove_value(&mut self, descriptor: i32)
        requires
            old(self).wf(),
        ensures
            final(self).wf(),
            final(self).val_map() =~= old(self).val_map().remove(descriptor as int),
            final(self).next_descriptor() == old(self).next_descriptor(),
            final(self).live_count() == old(self).live_count() - (if old(self).val_map().dom()
                .contains(descriptor as int) {
                1nat
            } else {
                0nat
            }),
            final(self).req_map() =~= old(self).req_map(),
            final(self).next_request() == old(self).next_request(),
            final(self).defaults_assoc() == old(self).defaults_assoc(),
    {
        if descriptor >= 0 && (descriptor as usize) < self.values.len() {
            proof {
                lemma_count_some_update(self.values@, descriptor as int, None::<Value>);
            }
            let idx = descriptor as usize;
            self.values.set(idx, None);
        }
    }

    /// Allocates a fresh request descriptor for a pending request with the
    /// given method, on the request store's own cursor.
    pub fn new_request(&mut self, method: HttpMethod) -> (d: i32)
        requires
            old(self).wf(),
            old(self).can_alloc_request(),
        ensures
            final(self).wf(),
            d as int == old(self).next_request(),
            final(self).next_request() == old(self).next_request() + 1,
            final(self).req_map() =~= old(self).req_map().insert(
                d as int,
                RequestModel {
                    method,
                    url: None,
                    headers: Seq::<(Seq<char>, Option<Seq<char>>)>::empty(),
                    body: None,
                    response: None,
                },
            ),
            final(self).val_map() =~= old(self).val_map(),
            final(self).next_descriptor() == old(self).next_descriptor(),
            final(self).live_count() == old(self).live_count(),
            final(self).defaults_assoc() == old(self).defaults_assoc(),
    {
        let d = self.requests.len() as i32;
        let req = Request::new(method);
        self.requests.push(Some(req));
        d
    }

    /// The request behind a request descriptor, or `None`.
    pub fn get_request(&self, descriptor: i32) -> (r: Option<&Request>)
        ensures
            match r {
                Some(req) => self.req_map().dom().contains(descriptor as int) && req@
                    == self.req_map()[descriptor as int] && (self.wf() ==> headers_unique(
                    req@.headers,
                )),
                None => !self.req_map().dom().contains(descriptor as int),
            },
    {
        if descriptor >= 0 && (descriptor as usize) < self.requests.len() {
            match &self.requests[descriptor as usize] {
                Some(req) => Some(req),
                None => None,
            }
        } else {
            None
        }
    }

    /// Replaces the request behind a live request descriptor.
    pub fn set_request(&mut self, descriptor: i32, request: Request)
        requires
            old(self).wf(),
            old(self).req_map().dom().contains(descriptor as int),
            headers_unique(request@.headers),
        ensures
            final(self).wf(),
            final(self).req_map() =~= old(self).req_map().insert(descriptor as int, request@),
            final(self).next_request() == old(self).next_request(),
            final(self).val_map() =~= old(self).val_map(),
            final(self).next_descriptor() == old(self).next_descriptor(),
            final(self).live_count() == old(self).live_count(),
            final(self).defaults_assoc() == old(self).defaults_assoc(),
    {
        let idx = descriptor as usize;
        self.requests.set(idx, Some(request));
    }

    /// Removes a request descriptor; removing a dead or unknown one is a
    /// no-op.
    pub fn remove_request(&mut self, descriptor: i32)
        requires
            old(self).wf(),
        ensures
            final(self).wf(),
            final(self).req_map() =~= old(self).req_map().remove(descriptor as int),
            final(self).next_request() == old(self).next_request(),
            final(self).val_map() =~= old(self).val_map(),
            final(self).next_descriptor() == old(self).next_descriptor(),
            final(self).live_count() == old(self).live_count(),
            final(self).defaults_assoc() == old(self).defaults_assoc(),
    {
        if descriptor >= 0 && (descriptor as usize) < self.requests.len() {
            let idx = descriptor as usize;
            self.requests.set(idx, None);
        }
    }

    /// The number of live descriptors, counted.
    pub fn value_count(&self) -> (n: usize)
        ensures
            n == self.live_count(),
    {
        let mut n: usize = 0;
        let mut i: usize = 0;
        while i < self.values.len()
            invariant
                i <= self.values.len(),
                n == count_some(self.values@.subrange(0, i as int)),
                n <= i,
            decreases self.values.len() - i,
        {
            proof {
                assert(self.values@.subrange(0, i + 1).drop_last() =~= self.values@.subrange(
                    0,
                    i as int,
                ));
            }
            if self.values[i].is_some() {
                n += 1;
            }
            i += 1;
        }
        proof {
            assert(self.values@.subrange(0, self.values@.len() as int) =~= self.values@);
        }
        n
    }
}

/// Every live descriptor is below the cursor, so a fresh allocation never
/// collides with one: descriptor ids are unique for the session.
pub proof fn lemma_descriptor_ids_below_cursor(s: GlobalStore, d: int)
    requires
        s.val_map().dom().contains(d),
    ensures
        0 <= d < s.next_descriptor(),
{
}

} // verus!
