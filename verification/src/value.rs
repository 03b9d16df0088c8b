//! The typed value variant held behind guest descriptors, its mathematical
//! model, kind codes, deep cloning and the key-accessor protocol of the
//! domain records.

use vstd::prelude::*;
use vstd::string::StrSliceExecFns;
use crate::models::{
    Chapter, ChapterModel, FilterType, Manga, MangaContentRating, MangaModel, MangaResult,
    MangaResultModel, MangaStatus, MangaViewer, Listing, Page, PageModel,
};

verus! {

/// A search filter handed to the guest: a kind, a name and an arbitrary value.
#[derive(Debug)]
pub struct Filter {
    pub kind: FilterType,
    pub name: String,
    pub value: Box<Value>,
}

/// Mathematical model of a [`Filter`].
#[verifier::ext_equal]
pub struct FilterModel {
    pub kind: FilterType,
    pub name: Seq<char>,
    pub value: Box<Val>,
}

/// A deep link resolved by the guest: an optional manga and chapter.
#[derive(Debug)]
pub struct DeepLink {
    pub manga: Option<Manga>,
    pub chapter: Option<Chapter>,
}

/// Mathematical model of a [`DeepLink`].
#[verifier::ext_equal]
pub struct DeepLinkModel {
    pub manga: Option<MangaModel>,
    pub chapter: Option<ChapterModel>,
}

/// The typed value variant stored in the descriptor table. Fractional
/// numbers are carried as the bit pattern of a 64-bit IEEE 754 number, so
/// `Float` and `Date` hold a `u64`.
#[derive(Debug)]
pub enum Value {
    Null,
    Int(i64),
    Float(u64),
    Str(String),
    Bool(bool),
    Array(Vec<Value>),
    Object(Vec<(String, Value)>),
    Date(u64),
    Node,
    Unknown,
    Manga(Manga),
    MangaResult(MangaResult),
    Filter(Filter),
    Listing(Listing),
    Chapter(Chapter),
    Page(Page),
    DeepLink(DeepLink),
}

/// Mathematical model of a [`Value`]: strings are character sequences,
/// arrays are sequences and objects are sequences of key-value pairs in
/// insertion order.
#[verifier::ext_equal]
pub enum Val {
    Null,
    Int(i64),
    Float(u64),
    Str(Seq<char>),
    Bool(bool),
    Array(Seq<Val>),
    Object(Seq<(Seq<char>, Val)>),
    Date(u64),
    Node,
    Unknown,
    Manga(MangaModel),
    MangaResult(MangaResultModel),
    Filter(FilterModel),
    Listing(Seq<char>),
    Chapter(ChapterModel),
    Page(PageModel),
    DeepLink(DeepLinkModel),
}

impl View for Filter {
    type V = FilterModel;

    open spec fn view(&self) -> FilterModel {
        FilterModel { kind: self.kind, name: self.name@, value: Box::new(val_of(*self.value)) }
    }
}

impl Clone for Filter {
    /// A deep copy with the same model.
    fn clone(&self) -> (r: Self)
        ensures
            r@ == self@,
    {
        Filter {
            kind: self.kind,
            name: self.name.clone(),
            value: Box::new(clone_value(&self.value)),
        }
    }
}

/// The model of a value: the shape of the tree with every string replaced by
/// its character sequence.
pub open spec fn val_of(v: Value) -> Val
    decreases v,
{
    match v {
        Value::Null => Val::Null,
        Value::Int(i) => Val::Int(i),
        Value::Float(b) => Val::Float(b),
        Value::Str(s) => Val::Str(s@),
        Value::Bool(b) => Val::Bool(b),
        Value::Array(items) => Val::Array(vals_of(items@)),
        Value::Object(pairs) => Val::Object(pair_vals_of(pairs@)),
        Value::Date(b) => Val::Date(b),
        Value::Node => Val::Node,
        Value::Unknown => Val::Unknown,
        Value::Manga(m) => Val::Manga(m@),
        Value::MangaResult(r) => Val::MangaResult(r@),
        Value::Filter(f) => Val::Filter(
            FilterModel { kind: f.kind, name: f.name@, value: Box::new(val_of(*f.value)) },
        ),
        Value::Listing(l) => Val::Listing(l@),
        Value::Chapter(c) => Val::Chapter(c@),
        Value::Page(p) => Val::Page(p@),
        Value::DeepLink(d) => Val::DeepLink(
            DeepLinkModel {
                manga: match d.manga {
                    Some(m) => Some(m@),
                    None => None,
                },
                chapter: match d.chapter {
                    Some(c) => Some(c@),
                    None => None,
                },
            },
        ),
    }
}

/// The models of a sequence of values, elementwise.
pub open spec fn vals_of(s: Seq<Value>) -> Seq<Val>
    decreases s,
{
    if s.len() == 0 {
        Seq::empty()
    } else {
        vals_of(s.subrange(0, s.len() - 1)).push(val_of(s[s.len() - 1]))
    }
}

/// The models of an object's pair vector, elementwise.
pub open spec fn pair_vals_of(s: Seq<(String, Value)>) -> Seq<(Seq<char>, Val)>
    decreases s,
{
    if s.len() == 0 {
        Seq::empty()
    } else {
        pair_vals_of(s.subrange(0, s.len() - 1)).push(
            (s[s.len() - 1].0@, val_of(s[s.len() - 1].1)),
        )
    }
}

/// The model of a value vector has one entry per element, the element's
/// model.
pub broadcast proof fn lemma_vals_of(s: Seq<Value>)
    ensures
        (#[trigger] vals_of(s)).len() == s.len(),
        forall|i: int| 0 <= i < s.len() ==> vals_of(s)[i] == val_of(s[i]),
    decreases s.len(),
{
    if s.len() > 0 {
        lemma_vals_of(s.subrange(0, s.len() - 1));
    }
}

/// The model of an object's pair vector has one entry per pair: the key's
/// characters and the value's model.
pub broadcast proof fn lemma_pair_vals_of(s: Seq<(String, Value)>)
    ensures
        (#[trigger] pair_vals_of(s)).len() == s.len(),
        forall|i: int| 0 <= i < s.len() ==> pair_vals_of(s)[i] == (s[i].0@, val_of(s[i].1)),
    decreases s.len(),
{
    if s.len() > 0 {
        lemma_pair_vals_of(s.subrange(0, s.len() - 1));
    }
}

impl View for Value {
    type V = Val;

    open spec fn view(&self) -> Val {
        val_of(*self)
    }
}

/// Kind code of each model variant as exported to the guest. Every domain
/// record reports the object kind, 6.
pub open spec fn kind_code(v: Val) -> i32 {
    match v {
        Val::Null => 0,
        Val::Int(_) => 1,
        Val::Float(_) => 2,
        Val::Str(_) => 3,
        Val::Bool(_) => 4,
        Val::Array(_) => 5,
        Val::Object(_) => 6,
        Val::Date(_) => 7,
        Val::Node => 8,
        Val::Unknown => 9,
        _ => 6,
    }
}

impl Value {
    /// Kind code of this value: `Null=0, Int=1, Float=2, String=3, Bool=4,
    /// Array=5, Object=6, Date=7, Node=8, Unknown=9`; domain records
    /// report 6.
    pub fn kind(&self) -> (k: i32)
        ensures
            k == kind_code(self@),
    {
        match self {
            Value::Null => 0,
            Value::Int(_) => 1,
            Value::Float(_) => 2,
            Value::Str(_) => 3,
            Value::Bool(_) => 4,
            Value::Array(_) => 5,
            Value::Object(_) => 6,
            Value::Date(_) => 7,
            Value::Node => 8,
            Value::Unknown => 9,
            Value::Manga(_) => 6,
            Value::MangaResult(_) => 6,
            Value::Filter(_) => 6,
            Value::Listing(_) => 6,
            Value::Chapter(_) => 6,
            Value::Page(_) => 6,
            Value::DeepLink(_) => 6,
        }
    }
}

/// Whether the keys of an object's pair sequence are pairwise distinct.
pub open spec fn obj_keys_unique<V>(pairs: Seq<(Seq<char>, V)>) -> bool {
    forall|i: int, j: int| 0 <= i < j < pairs.len() ==> pairs[i].0 != pairs[j].0
}

/// Lookup of a key in an object's pair sequence: the first pair with that
/// key, scanned left to right.
pub open spec fn obj_lookup<V>(pairs: Seq<(Seq<char>, V)>, key: Seq<char>) -> Option<V>
    decreases pairs.len(),
{
    if pairs.len() == 0 {
        None
    } else if pairs[0].0 == key {
        Some(pairs[0].1)
    } else {
        obj_lookup(pairs.drop_first(), key)
    }
}

/// Update of a key in an object's pair sequence: the first pair with that
/// key is replaced in place, and a missing key is appended at the end.
pub open spec fn obj_update<V>(pairs: Seq<(Seq<char>, V)>, key: Seq<char>, v: V) -> Seq<
    (Seq<char>, V),
>
    decreases pairs.len(),
{
    if pairs.len() == 0 {
        seq![(key, v)]
    } else if pairs[0].0 == key {
        seq![(key, v)] + pairs.drop_first()
    } else {
        seq![pairs[0]] + obj_update(pairs.drop_first(), key, v)
    }
}

/// A lookup finds the first pair carrying the key.
pub proof fn lemma_obj_lookup_at<V>(pairs: Seq<(Seq<char>, V)>, key: Seq<char>, i: int)
    requires
        0 <= i < pairs.len(),
        pairs[i].0 == key,
        forall|j: int| 0 <= j < i ==> pairs[j].0 != key,
    ensures
        obj_lookup(pairs, key) == Some(pairs[i].1),
    decreases i,
{
    if i > 0 {
        lemma_obj_lookup_at(pairs.drop_first(), key, i - 1);
    }
}

/// A lookup of a key no pair carries yields nothing.
pub proof fn lemma_obj_lookup_absent<V>(pairs: Seq<(Seq<char>, V)>, key: Seq<char>)
    requires
        forall|j: int| 0 <= j < pairs.len() ==> pairs[j].0 != key,
    ensures
        obj_lookup(pairs, key) is None,
    decreases pairs.len(),
{
    if pairs.len() > 0 {
        lemma_obj_lookup_absent(pairs.drop_first(), key);
    }
}

/// When the key is present, an update rewrites its first pair in place.
pub proof fn lemma_obj_update_found<V>(pairs: Seq<(Seq<char>, V)>, key: Seq<char>, v: V, i: int)
    requires
        0 <= i < pairs.len(),
        pairs[i].0 == key,
        forall|j: int| 0 <= j < i ==> pairs[j].0 != key,
    ensures
        obj_update(pairs, key, v) =~= pairs.update(i, (key, v)),
    decreases i,
{
    if i == 0 {
        assert(obj_update(pairs, key, v) =~= pairs.update(0, (key, v)));
    } else {
        lemma_obj_update_found(pairs.drop_first(), key, v, i - 1);
        assert(obj_update(pairs, key, v) =~= seq![pairs[0]] + pairs.drop_first().update(
            i - 1,
            (key, v),
        ));
        assert(seq![pairs[0]] + pairs.drop_first().update(i - 1, (key, v)) =~= pairs.update(
            i,
            (key, v),
        ));
    }
}

/// When the key is absent, an update appends a new pair.
pub proof fn lemma_obj_update_absent<V>(pairs: Seq<(Seq<char>, V)>, key: Seq<char>, v: V)
    requires
        forall|j: int| 0 <= j < pairs.len() ==> pairs[j].0 != key,
    ensures
        obj_update(pairs, key, v) =~= pairs.push((key, v)),
    decreases pairs.len(),
{
    if pairs.len() == 0 {
        assert(obj_update(pairs, key, v) =~= pairs.push((key, v)));
    } else {
        lemma_obj_update_absent(pairs.drop_first(), key, v);
        assert(obj_update(pairs, key, v) =~= seq![pairs[0]] + pairs.drop_first().push((key, v)));
        assert(seq![pairs[0]] + pairs.drop_first().push((key, v)) =~= pairs.push((key, v)));
    }
}

/// An update leaves distinct keys distinct.
pub proof fn lemma_obj_update_unique<V>(pairs: Seq<(Seq<char>, V)>, key: Seq<char>, v: V)
    requires
        obj_keys_unique(pairs),
    ensures
        obj_keys_unique(obj_update(pairs, key, v)),
{
    if exists|w: int| 0 <= w < pairs.len() && pairs[w].0 == key {
        let w = choose|w: int| 0 <= w < pairs.len() && pairs[w].0 == key;
        lemma_obj_first_hit(pairs, key, w);
    } else {
        lemma_obj_update_absent(pairs, key, v);
        let out = pairs.push((key, v));
        assert forall|a: int, b: int| 0 <= a < b < out.len() implies out[a].0 != out[b].0 by {
            if b < pairs.len() {
                assert(pairs[a].0 != pairs[b].0);
            }
        }
    }
}

/// When the keys are distinct, a pair carrying the key is the first one,
/// so an update rewrites exactly its slot, for any new value.
pub proof fn lemma_obj_first_hit<V>(pairs: Seq<(Seq<char>, V)>, key: Seq<char>, w: int)
    requires
        0 <= w < pairs.len(),
        pairs[w].0 == key,
        obj_keys_unique(pairs),
    ensures
        forall|v: V| obj_update(pairs, key, v) =~= pairs.update(w, (key, v)),
        forall|v: V| obj_keys_unique(obj_update(pairs, key, v)),
{
    assert forall|j: int| 0 <= j < w implies pairs[j].0 != key by {
        assert(pairs[j].0 != pairs[w].0);
    }
    assert forall|v: V| obj_update(pairs, key, v) =~= pairs.update(w, (key, v)) by {
        lemma_obj_update_found(pairs, key, v, w);
    }
    assert forall|v: V| obj_keys_unique(obj_update(pairs, key, v)) by {
        lemma_obj_update_found(pairs, key, v, w);
        assert forall|a: int, b: int|
            0 <= a < b < pairs.update(w, (key, v)).len() implies pairs.update(
            w,
            (key, v),
        )[a].0 != pairs.update(w, (key, v))[b].0 by {
            assert(pairs[a].0 != pairs[b].0);
        }
    }
}

/// Looking a key up right after updating it yields the new value; every
/// other key is untouched.
pub proof fn lemma_lookup_after_update<V>(
    pairs: Seq<(Seq<char>, V)>,
    key: Seq<char>,
    v: V,
    other: Seq<char>,
)
    ensures
        obj_lookup(obj_update(pairs, key, v), key) == Some(v),
        other != key ==> obj_lookup(obj_update(pairs, key, v), other) == obj_lookup(pairs, other),
    decreases pairs.len(),
{
    reveal_with_fuel(obj_lookup, 3);
    if pairs.len() == 0 {
        assert(obj_update(pairs, key, v) =~= seq![(key, v)]);
        assert(obj_update(pairs, key, v).drop_first() =~= Seq::<(Seq<char>, V)>::empty());
    } else if pairs[0].0 == key {
        assert(obj_update(pairs, key, v)[0] == (key, v));
        assert(obj_update(pairs, key, v).drop_first() =~= pairs.drop_first());
    } else {
        lemma_lookup_after_update(pairs.drop_first(), key, v, other);
        assert(obj_update(pairs, key, v)[0] == pairs[0]);
        assert(obj_update(pairs, key, v).drop_first() =~= obj_update(pairs.drop_first(), key, v));
    }
}

/// The index of the first pair of `pairs` whose key reads `key`, if any.
pub fn assoc_find<T>(pairs: &Vec<(String, T)>, key: &str) -> (r: Option<usize>)
    ensures
        match r {
            Some(i) => i < pairs@.len() && pairs@[i as int].0@ == key@ && forall|j: int|
                0 <= j < i ==> pairs@[j].0@ != key@,
            None => forall|j: int| 0 <= j < pairs@.len() ==> pairs@[j].0@ != key@,
        },
{
    let mut i: usize = 0;
    while i < pairs.len()
        invariant
            i <= pairs@.len(),
            forall|j: int| 0 <= j < i ==> pairs@[j].0@ != key@,
        decreases pairs@.len() - i,
    {
        if str_eq(pairs[i].0.as_str(), key) {
            return Some(i);
        }
        i += 1;
    }
    None
}

/// Well-formedness of a model value: every object in the tree has pairwise
/// distinct keys.
pub open spec fn wf_val(v: Val) -> bool
    decreases v,
{
    match v {
        Val::Array(items) => forall|i: int| 0 <= i < items.len() ==> wf_val(#[trigger] items[i]),
        Val::Object(pairs) => obj_keys_unique(pairs) && forall|i: int|
            0 <= i < pairs.len() ==> wf_val(#[trigger] pairs[i].1),
        Val::Filter(f) => wf_val(*f.value),
        _ => true,
    }
}

/// Equality of character sequences, decided character by character.
pub fn str_eq(a: &str, b: &str) -> (r: bool)
    ensures
        r == (a@ == b@),
{
    let la = a.unicode_len();
    let lb = b.unicode_len();
    if la != lb {
        return false;
    }
    let mut i: usize = 0;
    while i < la
        invariant
            la == a@.len(),
            la == b@.len(),
            i <= la,
            forall|j: int| 0 <= j < i ==> a@[j] == b@[j],
        decreases la - i,
    {
        if a.get_char(i) != b.get_char(i) {
            return false;
        }
        i += 1;
    }
    proof {
        assert(a@ =~= b@);
    }
    true
}

fn clone_opt_string(o: &Option<String>) -> (r: Option<String>)
    ensures
        r == *o,
{
    match o {
        Some(s) => Some(s.clone()),
        None => None,
    }
}

fn clone_string_vec(v: &Vec<String>) -> (r: Vec<String>)
    ensures
        r@ == v@,
{
    let mut r: Vec<String> = Vec::new();
    let mut i: usize = 0;
    while i < v.len()
        invariant
            i <= v.len(),
            r@ =~= v@.subrange(0, i as int),
        decreases v.len() - i,
    {
        r.push(v[i].clone());
        i += 1;
    }
    proof {
        assert(r@ =~= v@);
    }
    r
}

impl Clone for Manga {
    /// A deep copy with the same model.
    fn clone(&self) -> (r: Self)
        ensures
            r@ == self@,
    {
        Manga {
            id: self.id.clone(),
            cover: clone_opt_string(&self.cover),
            title: clone_opt_string(&self.title),
            author: clone_opt_string(&self.author),
            artist: clone_opt_string(&self.artist),
            description: clone_opt_string(&self.description),
            url: clone_opt_string(&self.url),
            categories: clone_string_vec(&self.categories),
            status: self.status,
            nsfw: self.nsfw,
            viewer: self.viewer,
        }
    }
}

impl Clone for Chapter {
    /// A deep copy with the same model.
    fn clone(&self) -> (r: Self)
        ensures
            r@ == self@,
    {
        Chapter {
            id: self.id.clone(),
            title: clone_opt_string(&self.title),
            volume: self.volume,
            chapter: self.chapter,
            date_uploaded: self.date_uploaded,
            scanlator: clone_opt_string(&self.scanlator),
            url: clone_opt_string(&self.url),
            lang: clone_opt_string(&self.lang),
        }
    }
}

impl Clone for Page {
    /// A deep copy with the same model.
    fn clone(&self) -> (r: Self)
        ensures
            r@ == self@,
    {
        Page {
            index: self.index,
            image_url: clone_opt_string(&self.image_url),
            base64: clone_opt_string(&self.base64),
            text: clone_opt_string(&self.text),
        }
    }
}

impl Clone for Listing {
    /// A deep copy with the same model.
    fn clone(&self) -> (r: Self)
        ensures
            r@ == self@,
    {
        Listing { name: self.name.clone() }
    }
}

impl Clone for MangaResult {
    /// A deep copy with the same model.
    fn clone(&self) -> (r: Self)
        ensures
            r@ == self@,
    {
        let mut manga: Vec<Manga> = Vec::new();
        let mut i: usize = 0;
        while i < self.manga.len()
            invariant
                i <= self.manga.len(),
                manga@.len() == i,
                forall|j: int| 0 <= j < i ==> manga@[j]@ == self.manga@[j]@,
            decreases self.manga.len() - i,
        {
            manga.push(self.manga[i].clone());
            i += 1;
        }
        let r = MangaResult { manga, has_more: self.has_more };
        proof {
            assert(r@.manga =~= self@.manga);
        }
        r
    }
}

impl Clone for DeepLink {
    /// A deep copy with the same model.
    fn clone(&self) -> (r: Self)
        ensures
            r@ == self@,
    {
        DeepLink {
            manga: match &self.manga {
                Some(m) => Some(m.clone()),
                None => None,
            },
            chapter: match &self.chapter {
                Some(c) => Some(c.clone()),
                None => None,
            },
        }
    }
}

impl View for DeepLink {
    type V = DeepLinkModel;

    open spec fn view(&self) -> DeepLinkModel {
        DeepLinkModel {
            manga: match self.manga {
                Some(m) => Some(m@),
                None => None,
            },
            chapter: match self.chapter {
                Some(c) => Some(c@),
                None => None,
            },
        }
    }
}

/// A deep copy of a value with the same model.
pub fn clone_value(v: &Value) -> (r: Value)
    ensures
        r@ == v@,
    decreases *v,
{
    match v {
        Value::Null => Value::Null,
        Value::Int(i) => Value::Int(*i),
        Value::Float(b) => Value::Float(*b),
        Value::Str(s) => Value::Str(s.clone()),
        Value::Bool(b) => Value::Bool(*b),
        Value::Array(items) => {
            proof {
                assert(decreases_to!(*v => *items));
                assert(decreases_to!(*items => items@));
            }
            let out = clone_values(items);
            proof {
                lemma_vals_of(items@);
                lemma_vals_of(out@);
                assert(vals_of(out@) =~= vals_of(items@));
            }
            Value::Array(out)
        },
        Value::Object(pairs) => {
            proof {
                assert(decreases_to!(*v => *pairs));
                assert(decreases_to!(*pairs => pairs@));
            }
            let out = clone_pairs(pairs);
            proof {
                lemma_pair_vals_of(pairs@);
                lemma_pair_vals_of(out@);
                assert(pair_vals_of(out@) =~= pair_vals_of(pairs@));
            }
            Value::Object(out)
        },
        Value::Date(b) => Value::Date(*b),
        Value::Node => Value::Node,
        Value::Unknown => Value::Unknown,
        Value::Manga(m) => Value::Manga(m.clone()),
        Value::MangaResult(r) => Value::MangaResult(r.clone()),
        Value::Filter(f) => {
            proof {
                assert(decreases_to!(*v => *f));
            }
            Value::Filter(
                Filter { kind: f.kind, name: f.name.clone(), value: Box::new(clone_value(&f.value)) },
            )
        },
        Value::Listing(l) => Value::Listing(l.clone()),
        Value::Chapter(c) => Value::Chapter(c.clone()),
        Value::Page(p) => Value::Page(p.clone()),
        Value::DeepLink(d) => Value::DeepLink(d.clone()),
    }
}

/// Deep copies of a vector of values, elementwise.
pub fn clone_values(items: &Vec<Value>) -> (r: Vec<Value>)
    ensures
        r@.len() == items@.len(),
        forall|j: int| 0 <= j < items@.len() ==> r@[j]@ == items@[j]@,
    decreases items@,
{
    let mut out: Vec<Value> = Vec::new();
    let mut i: usize = 0;
    while i < items.len()
        invariant
            i <= items.len(),
            out@.len() == i,
            forall|j: int| 0 <= j < i ==> out@[j]@ == items@[j]@,
        decreases items@.len() - i,
    {
        proof {
            assert(decreases_to!(items@ => items@[i as int]));
        }
        out.push(clone_value(&items[i]));
        i += 1;
    }
    out
}

/// Deep copies of an object's pair vector, elementwise.
pub fn clone_pairs(pairs: &Vec<(String, Value)>) -> (r: Vec<(String, Value)>)
    ensures
        r@.len() == pairs@.len(),
        forall|j: int| 0 <= j < pairs@.len() ==> r@[j].0@ == pairs@[j].0@ && r@[j].1@
            == pairs@[j].1@,
    decreases pairs@,
{
    let mut out: Vec<(String, Value)> = Vec::new();
    let mut i: usize = 0;
    while i < pairs.len()
        invariant
            i <= pairs.len(),
            out@.len() == i,
            forall|j: int| 0 <= j < i ==> out@[j].0@ == pairs@[j].0@ && out@[j].1@ == pairs@[j].1@,
        decreases pairs@.len() - i,
    {
        proof {
            assert(decreases_to!(pairs@ => pairs@[i as int]));
            assert(decreases_to!(pairs@[i as int] => pairs@[i as int].1));
        }
        let k = pairs[i].0.clone();
        let v = clone_value(&pairs[i].1);
        out.push((k, v));
        i += 1;
    }
    out
}

impl Clone for Value {
    /// A deep copy with the same model.
    fn clone(&self) -> (r: Self)
        ensures
            r@ == self@,
    {
        clone_value(self)
    }
}

/// The key-accessor protocol of a manga: the field named by `key` as a
/// value, or `None` for an unknown key. A manga exposes its `id`.
pub open spec fn manga_field(m: MangaModel, key: Seq<char>) -> Option<Val> {
    if key == "id"@ {
        Some(Val::Str(m.id))
    } else {
        None
    }
}

impl Manga {
    /// The field named by `key` as a fresh value, per the key-accessor
    /// protocol.
    pub fn get_value(&self, key: &str) -> (r: Option<Value>)
        ensures
            match manga_field(self@, key@) {
                Some(v) => r is Some && r->0@ == v,
                None => r is None,
            },
    {
        if str_eq(key, "id") {
            Some(Value::Str(self.id.clone()))
        } else {
            None
        }
    }
}

/// The key-accessor protocol of a filter: `type` is the kind's wire code,
/// `name` the name and `value` the held value.
pub open spec fn filter_field(f: FilterModel, key: Seq<char>) -> Option<Val> {
    if key == "type"@ {
        Some(Val::Int(f.kind.spec_code() as i64))
    } else if key == "name"@ {
        Some(Val::Str(f.name))
    } else if key == "value"@ {
        Some(*f.value)
    } else {
        None
    }
}

impl Filter {
    /// The field named by `key` as a fresh value, per the key-accessor
    /// protocol.
    pub fn get_value(&self, key: &str) -> (r: Option<Value>)
        ensures
            match filter_field(FilterModel {
                kind: self.kind,
                name: self.name@,
                value: Box::new(self.value@),
            }, key@) {
                Some(v) => r is Some && r->0@ == v,
                None => r is None,
            },
    {
        if str_eq(key, "type") {
            Some(Value::Int(self.kind.code() as i64))
        } else if str_eq(key, "name") {
            Some(Value::Str(self.name.clone()))
        } else if str_eq(key, "value") {
            Some((*self.value).clone())
        } else {
            None
        }
    }
}

} // verus!
