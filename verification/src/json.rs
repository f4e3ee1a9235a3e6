//! A JSON document model (objects keep their key order) and the accessors
//! the parsers and the settings merge read it through.
use vstd::prelude::*;
use crate::text::str_eq;

verus! {

/// A JSON number as the parser classified it: non-negative integers,
/// negative integers, and everything else as a finite double, held here by
/// its shortest round-trip decimal text (`"76.0"`, `"1e300"`).
#[derive(Debug, PartialEq)]
pub enum JsonNumber {
    PosInt(u64),
    NegInt(i64),
    Float(String),
}

/// The mathematical value of a [`JsonNumber`].
pub enum JsonNumberV {
    PosInt(u64),
    NegInt(i64),
    Float(Seq<char>),
}

impl View for JsonNumber {
    type V = JsonNumberV;

    open spec fn view(&self) -> JsonNumberV {
        match self {
            JsonNumber::PosInt(u) => JsonNumberV::PosInt(*u),
            JsonNumber::NegInt(i) => JsonNumberV::NegInt(*i),
            JsonNumber::Float(t) => JsonNumberV::Float(t@),
        }
    }
}

/// A parsed JSON value. `Object` holds its entries in document order.
#[derive(Debug, PartialEq)]
pub enum Json {
    Null,
    Bool(bool),
    Number(JsonNumber),
    Str(String),
    Array(Vec<Json>),
    Object(Vec<(String, Json)>),
}

/// The mathematical value of a [`Json`].
pub enum JsonV {
    Null,
    Bool(bool),
    Number(JsonNumberV),
    Str(Seq<char>),
    Array(Seq<JsonV>),
    Object(Seq<(Seq<char>, JsonV)>),
}

/// Entries of an object, as values.
pub type Entries = Seq<(Seq<char>, JsonV)>;

impl Json {
    pub open spec fn view_json(self) -> JsonV
        decreases self,
    {
        match self {
            Json::Null => JsonV::Null,
            Json::Bool(b) => JsonV::Bool(b),
            Json::Number(n) => JsonV::Number(n@),
            Json::Str(s) => JsonV::Str(s@),
            Json::Array(v) => JsonV::Array(views(v@)),
            Json::Object(e) => JsonV::Object(entry_views(e@)),
        }
    }
}

pub open spec fn views(s: Seq<Json>) -> Seq<JsonV>
    decreases s,
{
    if s.len() == 0 {
        Seq::empty()
    } else {
        seq![s[0].view_json()] + views(s.subrange(1, s.len() as int))
    }
}

pub open spec fn entry_views(s: Seq<(String, Json)>) -> Entries
    decreases s,
{
    if s.len() == 0 {
        Seq::empty()
    } else {
        seq![(s[0].0@, s[0].1.view_json())] + entry_views(s.subrange(1, s.len() as int))
    }
}

impl View for Json {
    type V = JsonV;

    open spec fn view(&self) -> JsonV {
        self.view_json()
    }
}


pub broadcast proof fn lemma_views(s: Seq<Json>)
    ensures
        #[trigger] views(s).len() == s.len(),
        forall|i: int| 0 <= i < s.len() ==> #[trigger] views(s)[i] == s[i].view_json(),
    decreases s.len(),
{
    if s.len() > 0 {
        lemma_views(s.subrange(1, s.len() as int));
        assert forall|i: int| 0 <= i < s.len() implies #[trigger] views(s)[i] == s[i].view_json() by {
            if i > 0 {
                assert(s.subrange(1, s.len() as int)[i - 1] == s[i]);
            }
        }
    }
}

pub broadcast proof fn lemma_entry_views(s: Seq<(String, Json)>)
    ensures
        #[trigger] entry_views(s).len() == s.len(),
        forall|i: int| 0 <= i < s.len() ==> #[trigger] entry_views(s)[i] == (s[i].0@, s[i].1.view_json()),
    decreases s.len(),
{
    if s.len() > 0 {
        lemma_entry_views(s.subrange(1, s.len() as int));
        assert forall|i: int| 0 <= i < s.len() implies #[trigger] entry_views(s)[i] == (s[i].0@, s[i].1.view_json()) by {
            if i > 0 {
                assert(s.subrange(1, s.len() as int)[i - 1] == s[i]);
            }
        }
    }
}

/// Index of the first entry holding `k`.
pub open spec fn find_key(e: Entries, k: Seq<char>) -> Option<int>
    decreases e.len(),
{
    if e.len() == 0 {
        None
    } else if e[0].0 == k {
        Some(0)
    } else {
        match find_key(e.subrange(1, e.len() as int), k) {
            Some(i) => Some(i + 1),
            None => None,
        }
    }
}

/// The value stored under `k` (the first entry holding it).
pub open spec fn obj_get(e: Entries, k: Seq<char>) -> Option<JsonV> {
    match find_key(e, k) {
        Some(i) => Some(e[i].1),
        None => None,
    }
}

/// Map insertion: replaces the value in place when `k` is present,
/// otherwise appends the entry at the end.
pub open spec fn obj_insert(e: Entries, k: Seq<char>, v: JsonV) -> Entries {
    match find_key(e, k) {
        Some(i) => e.update(i, (k, v)),
        None => e.push((k, v)),
    }
}

/// Map removal by swapping the last entry into the removed slot.
pub open spec fn obj_remove(e: Entries, k: Seq<char>) -> Entries {
    match find_key(e, k) {
        Some(i) => e.update(i, e.last()).drop_last(),
        None => e,
    }
}

/// `find_key` is the least index holding `k`.
pub proof fn lemma_find_key(e: Entries, k: Seq<char>, i: int)
    requires
        0 <= i <= e.len(),
        forall|j: int| 0 <= j < i ==> (#[trigger] e[j]).0 != k,
    ensures
        i < e.len() && e[i].0 == k ==> find_key(e, k) == Some(i),
        i == e.len() ==> find_key(e, k) is None,
    decreases i,
{
    if i > 0 {
        let t = e.subrange(1, e.len() as int);
        assert forall|j: int| 0 <= j < i - 1 implies (#[trigger] t[j]).0 != k by {
            assert(t[j] == e[j + 1]);
        }
        lemma_find_key(t, k, i - 1);
        assert(e[0].0 != k);
        if i < e.len() {
            assert(t[i - 1] == e[i]);
        }
    }
}

/// What `find_key` returns holds `k`, and no earlier entry does.
pub proof fn lemma_find_key_result(e: Entries, k: Seq<char>)
    ensures
        find_key(e, k) matches Some(i) ==> 0 <= i < e.len() && e[i].0 == k
            && forall|j: int| 0 <= j < i ==> (#[trigger] e[j]).0 != k,
        find_key(e, k) is None ==> forall|j: int| 0 <= j < e.len() ==> (#[trigger] e[j]).0 != k,
    decreases e.len(),
{
    if e.len() > 0 {
        let t = e.subrange(1, e.len() as int);
        lemma_find_key_result(t, k);
        assert forall|j: int| 1 <= j < e.len() implies e[j] == #[trigger] t[j - 1] by {}
        if e[0].0 != k {
            match find_key(t, k) {
                Some(i) => {
                    assert(find_key(e, k) == Some(i + 1));
                    assert forall|j: int| 0 <= j < i + 1 implies (#[trigger] e[j]).0 != k by {
                        if j > 0 { assert(e[j] == t[j - 1]); }
                    }
                },
                None => {
                    assert forall|j: int| 0 <= j < e.len() implies (#[trigger] e[j]).0 != k by {
                        if j > 0 { assert(e[j] == t[j - 1]); }
                    }
                },
            }
        }
    }
}

/// Looking up the key just inserted gives the inserted value.
pub proof fn lemma_insert_get_same(e: Entries, k: Seq<char>, v: JsonV)
    ensures
        obj_get(obj_insert(e, k, v), k) == Some(v),
        find_key(obj_insert(e, k, v), k) is Some,
{
    lemma_find_key_result(e, k);
    let e2 = obj_insert(e, k, v);
    match find_key(e, k) {
        Some(i) => {
            assert forall|j: int| 0 <= j < i implies (#[trigger] e2[j]).0 != k by {}
            lemma_find_key(e2, k, i);
        },
        None => {
            assert forall|j: int| 0 <= j < e.len() implies (#[trigger] e2[j]).0 != k by {}
            lemma_find_key(e2, k, e.len() as int);
        },
    }
}

/// Inserting under one key leaves the other keys' lookups alone.
pub proof fn lemma_insert_get_other(e: Entries, k: Seq<char>, v: JsonV, k2: Seq<char>)
    requires
        k2 != k,
    ensures
        obj_get(obj_insert(e, k, v), k2) == obj_get(e, k2),
        find_key(obj_insert(e, k, v), k2) == find_key(e, k2),
{
    lemma_find_key_result(e, k);
    lemma_find_key_result(e, k2);
    let e2 = obj_insert(e, k, v);
    match find_key(e, k2) {
        Some(i) => {
            assert forall|j: int| 0 <= j < i implies (#[trigger] e2[j]).0 != k2 by {}
            lemma_find_key(e2, k2, i);
        },
        None => {
            assert forall|j: int| 0 <= j < e2.len() implies (#[trigger] e2[j]).0 != k2 by {}
            lemma_find_key(e2, k2, e2.len() as int);
        },
    }
}

/// Inserting the value already stored under a key changes nothing.
pub proof fn lemma_insert_existing(e: Entries, k: Seq<char>, v: JsonV)
    requires
        obj_get(e, k) == Some(v),
    ensures
        obj_insert(e, k, v) == e,
{
    lemma_find_key_result(e, k);
    let i = find_key(e, k).unwrap();
    assert(e[i] == (k, v));
    assert(obj_insert(e, k, v) =~= e);
}

/// Insertion keeps keys distinct.
pub proof fn lemma_insert_unique(e: Entries, k: Seq<char>, v: JsonV)
    requires
        keys_unique(e),
    ensures
        keys_unique(obj_insert(e, k, v)),
{
    lemma_find_key_result(e, k);
}

/// Removal keeps keys distinct and takes out exactly one entry when the
/// key is present.
pub proof fn lemma_remove_unique(e: Entries, k: Seq<char>)
    requires
        keys_unique(e),
    ensures
        keys_unique(obj_remove(e, k)),
        find_key(e, k) is Some ==> obj_remove(e, k).len() == e.len() - 1,
        find_key(obj_remove(e, k), k) is None,
{
    lemma_find_key_result(e, k);
    let r = obj_remove(e, k);
    match find_key(e, k) {
        Some(i) => {
            assert forall|a: int, b: int| 0 <= a < b < r.len() implies (#[trigger] r[a]).0 != (#[trigger] r[b]).0 by {
                if a == i { assert(r[a] == e[e.len() - 1]); }
                if b == i { assert(r[b] == e[e.len() - 1]); }
            }
            assert forall|j: int| 0 <= j < r.len() implies (#[trigger] r[j]).0 != k by {
                if j == i { assert(r[j] == e[e.len() - 1]); }
            }
            lemma_find_key(r, k, r.len() as int);
        },
        None => {
            lemma_find_key(r, k, r.len() as int);
        },
    }
}

/// With distinct keys, removing one key leaves the other lookups alone.
pub proof fn lemma_remove_get_other(e: Entries, k: Seq<char>, k2: Seq<char>)
    requires
        keys_unique(e),
        k2 != k,
    ensures
        obj_get(obj_remove(e, k), k2) == obj_get(e, k2),
{
    lemma_find_key_result(e, k);
    lemma_find_key_result(e, k2);
    lemma_remove_unique(e, k);
    let r = obj_remove(e, k);
    match find_key(e, k) {
        Some(i) => {
            match find_key(e, k2) {
                Some(j) => {
                    // the entry for k2 is now at j, or at i when it was the last one
                    let pos = if j == e.len() - 1 { i } else { j };
                    assert(r[pos] == e[j]);
                    assert forall|t: int| 0 <= t < pos implies (#[trigger] r[t]).0 != k2 by {
                        if t == i { assert(r[t] == e[e.len() - 1]); }
                    }
                    lemma_find_key(r, k2, pos);
                },
                None => {
                    assert forall|t: int| 0 <= t < r.len() implies (#[trigger] r[t]).0 != k2 by {
                        if t == i { assert(r[t] == e[e.len() - 1]); }
                    }
                    lemma_find_key(r, k2, r.len() as int);
                },
            }
        },
        None => {},
    }
}

impl JsonV {
    /// `Value::get` with a string key: the member of an object, `None`
    /// for anything else.
    pub open spec fn get(self, k: Seq<char>) -> Option<JsonV> {
        match self {
            JsonV::Object(e) => obj_get(e, k),
            _ => None,
        }
    }

    pub open spec fn as_str(self) -> Option<Seq<char>> {
        match self {
            JsonV::Str(s) => Some(s),
            _ => None,
        }
    }

    pub open spec fn as_bool(self) -> Option<bool> {
        match self {
            JsonV::Bool(b) => Some(b),
            _ => None,
        }
    }

    pub open spec fn as_array(self) -> Option<Seq<JsonV>> {
        match self {
            JsonV::Array(a) => Some(a),
            _ => None,
        }
    }

    pub open spec fn as_object(self) -> Option<Entries> {
        match self {
            JsonV::Object(e) => Some(e),
            _ => None,
        }
    }

    /// `Value::as_i64`: integers that fit in an `i64`.
    pub open spec fn as_i64(self) -> Option<int> {
        match self {
            JsonV::Number(JsonNumberV::PosInt(u)) => if u <= i64::MAX { Some(u as int) } else { None },
            JsonV::Number(JsonNumberV::NegInt(i)) => Some(i as int),
            _ => None,
        }
    }
}

/// Position of the first entry keyed `k`.
pub fn find_entry(e: &Vec<(String, Json)>, k: &str) -> (r: Option<usize>)
    ensures
        match r {
            Some(i) => i < e@.len() && find_key(entry_views(e@), k@) == Some(i as int),
            None => find_key(entry_views(e@), k@) is None,
        },
{
    broadcast use lemma_entry_views, vstd::std_specs::vec::group_vec_axioms;
    let mut i: usize = 0;
    while i < e.len()
        invariant
            i <= e@.len(),
            forall|j: int| 0 <= j < i ==> (#[trigger] entry_views(e@)[j]).0 != k@,
        decreases e@.len() - i,
    {
        proof { lemma_entry_views(e@); }
        if str_eq(e[i].0.as_str(), k) {
            proof { lemma_find_key(entry_views(e@), k@, i as int); }
            return Some(i);
        }
        i += 1;
    }
    proof {
        lemma_entry_views(e@);
        lemma_find_key(entry_views(e@), k@, i as int);
    }
    None
}

impl Json {
    /// `Value::get` with a string key.
    pub fn get(&self, k: &str) -> (r: Option<&Json>)
        ensures
            match r {
                Some(v) => self@.get(k@) == Some(v@),
                None => self@.get(k@) is None,
            },
    {
        broadcast use lemma_entry_views, vstd::std_specs::vec::group_vec_axioms;
        match self {
            Json::Object(e) => match find_entry(e, k) {
                Some(i) => Some(&e[i].1),
                None => None,
            },
            _ => None,
        }
    }

    pub fn as_str(&self) -> (r: Option<&str>)
        ensures
            match r {
                Some(s) => self@.as_str() == Some(s@),
                None => self@.as_str() is None,
            },
    {
        match self {
            Json::Str(s) => Some(s.as_str()),
            _ => None,
        }
    }

    pub fn as_bool(&self) -> (r: Option<bool>)
        ensures
            r == self@.as_bool(),
    {
        match self {
            Json::Bool(b) => Some(*b),
            _ => None,
        }
    }

    pub fn as_i64(&self) -> (r: Option<i64>)
        ensures
            match r {
                Some(n) => self@.as_i64() == Some(n as int),
                None => self@.as_i64() is None,
            },
    {
        match self {
            Json::Number(JsonNumber::PosInt(u)) => if *u <= 9223372036854775807u64 { Some(*u as i64) } else { None },
            Json::Number(JsonNumber::NegInt(i)) => Some(*i),
            _ => None,
        }
    }

    pub fn is_object(&self) -> (r: bool)
        ensures
            r == self@ is Object,
    {
        match self {
            Json::Object(_) => true,
            _ => false,
        }
    }

    pub fn is_array(&self) -> (r: bool)
        ensures
            r == self@ is Array,
    {
        match self {
            Json::Array(_) => true,
            _ => false,
        }
    }

    pub fn is_null(&self) -> (r: bool)
        ensures
            r == self@ is Null,
    {
        match self {
            Json::Null => true,
            _ => false,
        }
    }

    /// A copy with the same value.
    #[verifier::loop_isolation(false)]
    pub fn deep_clone(&self) -> (r: Json)
        ensures
            r@ == self@,
        decreases self,
    {
        broadcast use lemma_views, lemma_entry_views, vstd::std_specs::vec::group_vec_axioms;
        match self {
            Json::Null => Json::Null,
            Json::Bool(b) => Json::Bool(*b),
            Json::Number(JsonNumber::PosInt(u)) => Json::Number(JsonNumber::PosInt(*u)),
            Json::Number(JsonNumber::NegInt(i)) => Json::Number(JsonNumber::NegInt(*i)),
            Json::Number(JsonNumber::Float(t)) => Json::Number(JsonNumber::Float(t.clone())),
            Json::Str(s) => Json::Str(s.clone()),
            Json::Array(v) => {
                let mut out: Vec<Json> = Vec::new();
                let mut i: usize = 0;
                while i < v.len()
                    invariant
                        i <= v@.len(),
                        out@.len() == i,
                        forall|j: int| 0 <= j < i ==> (#[trigger] out@[j]).view_json() == v@[j].view_json(),
                    decreases v@.len() - i,
                {
                    proof { assert(decreases_to!(*self => v@[i as int])); }
                    let c = v[i].deep_clone();
                    out.push(c);
                    i += 1;
                }
                proof { lemma_views(out@); lemma_views(v@); }
                assert(views(out@) =~= views(v@));
                Json::Array(out)
            },
            Json::Object(e) => {
                let mut out: Vec<(String, Json)> = Vec::new();
                let mut i: usize = 0;
                while i < e.len()
                    invariant
                        i <= e@.len(),
                        out@.len() == i,
                        forall|j: int| 0 <= j < i ==> (#[trigger] out@[j]).0@ == e@[j].0@ && out@[j].1.view_json() == e@[j].1.view_json(),
                    decreases e@.len() - i,
                {
                    proof { assert(decreases_to!(*self => e@[i as int].1)); }
                    let c = e[i].1.deep_clone();
                    out.push((e[i].0.clone(), c));
                    i += 1;
                }
                proof { lemma_entry_views(out@); lemma_entry_views(e@); }
                assert(entry_views(out@) =~= entry_views(e@));
                Json::Object(out)
            },
        }
    }
}

/// A copy of an object's entries with the same value.
pub fn clone_map(m: &Vec<(String, Json)>) -> (r: Vec<(String, Json)>)
    ensures
        entry_views(r@) == entry_views(m@),
{
    let mut out: Vec<(String, Json)> = Vec::new();
    let mut i: usize = 0;
    while i < m.len()
        invariant
            i <= m@.len(),
            out@.len() == i,
            forall|j: int| 0 <= j < i ==> (#[trigger] out@[j]).0@ == m@[j].0@ && out@[j].1@ == m@[j].1@,
        decreases m@.len() - i,
    {
        out.push((m[i].0.clone(), m[i].1.deep_clone()));
        i += 1;
    }
    proof {
        lemma_entry_views(out@);
        lemma_entry_views(m@);
        assert(entry_views(out@) =~= entry_views(m@));
    }
    out
}

/// In-place map insertion on object entries (`Map::insert`).
pub fn entries_insert(e: &mut Vec<(String, Json)>, k: String, v: Json)
    ensures
        entry_views(final(e)@) == obj_insert(entry_views(old(e)@), k@, v@),
{
    broadcast use lemma_entry_views, vstd::std_specs::vec::group_vec_axioms;
    match find_entry(e, k.as_str()) {
        Some(i) => {
            e.set(i, (k, v));
            assert(entry_views(e@) =~= obj_insert(entry_views(old(e)@), k@, v@));
        },
        None => {
            e.push((k, v));
            assert(entry_views(e@) =~= obj_insert(entry_views(old(e)@), k@, v@));
        },
    }
}

/// In-place map removal on object entries (`Map::remove`, which swaps the
/// last entry into the vacated slot).
pub fn entries_remove(e: &mut Vec<(String, Json)>, k: &str)
    ensures
        entry_views(final(e)@) == obj_remove(entry_views(old(e)@), k@),
{
    broadcast use lemma_entry_views, vstd::std_specs::vec::group_vec_axioms;
    match find_entry(e, k) {
        Some(i) => {
            let _ = e.swap_remove(i);
            assert(entry_views(e@) =~= obj_remove(entry_views(old(e)@), k@));
        },
        None => {},
    }
}


/// Whether a float's text denotes zero (`0.0` and `-0.0` compare equal).
pub open spec fn is_zero_text(t: Seq<char>) -> bool {
    t == "0.0"@ || t == "-0.0"@
}

/// Number equality: same class and equal value.
pub open spec fn num_eq(a: JsonNumberV, b: JsonNumberV) -> bool {
    match (a, b) {
        (JsonNumberV::PosInt(x), JsonNumberV::PosInt(y)) => x == y,
        (JsonNumberV::NegInt(x), JsonNumberV::NegInt(y)) => x == y,
        (JsonNumberV::Float(x), JsonNumberV::Float(y)) => x == y || (is_zero_text(x) && is_zero_text(y)),
        _ => false,
    }
}

/// JSON value equality: arrays element-wise, objects as maps (same size,
/// every key of one found in the other with an equal value, order
/// ignored).
pub open spec fn json_eq(a: JsonV, b: JsonV) -> bool
    decreases a,
{
    match a {
        JsonV::Null => b is Null,
        JsonV::Bool(x) => b == JsonV::Bool(x),
        JsonV::Number(x) => match b {
            JsonV::Number(y) => num_eq(x, y),
            _ => false,
        },
        JsonV::Str(x) => b == JsonV::Str(x),
        JsonV::Array(x) => match b {
            JsonV::Array(y) => x.len() == y.len() && seq_eq(x, y),
            _ => false,
        },
        JsonV::Object(x) => match b {
            JsonV::Object(y) => x.len() == y.len() && entries_within(x, y),
            _ => false,
        },
    }
}

pub open spec fn seq_eq(x: Seq<JsonV>, y: Seq<JsonV>) -> bool
    decreases x,
{
    if x.len() == 0 {
        true
    } else {
        y.len() > 0 && json_eq(x[0], y[0]) && seq_eq(x.subrange(1, x.len() as int), y.subrange(1, y.len() as int))
    }
}

pub open spec fn entries_within(x: Entries, y: Entries) -> bool
    decreases x,
{
    if x.len() == 0 {
        true
    } else {
        match obj_get(y, x[0].0) {
            Some(w) => json_eq(x[0].1, w) && entries_within(x.subrange(1, x.len() as int), y),
            None => false,
        }
    }
}

pub proof fn lemma_seq_eq(x: Seq<JsonV>, y: Seq<JsonV>)
    requires
        x.len() == y.len(),
    ensures
        seq_eq(x, y) == forall|i: int| 0 <= i < x.len() ==> json_eq(#[trigger] x[i], y[i]),
    decreases x.len(),
{
    if x.len() > 0 {
        let xt = x.subrange(1, x.len() as int);
        let yt = y.subrange(1, y.len() as int);
        lemma_seq_eq(xt, yt);
        if forall|i: int| 0 <= i < x.len() ==> json_eq(#[trigger] x[i], y[i]) {
            assert forall|i: int| 0 <= i < xt.len() implies json_eq(#[trigger] xt[i], yt[i]) by {
                assert(xt[i] == x[i + 1] && yt[i] == y[i + 1]);
            }
        }
        if seq_eq(x, y) {
            assert forall|i: int| 0 <= i < x.len() implies json_eq(#[trigger] x[i], y[i]) by {
                if i > 0 {
                    assert(xt[i - 1] == x[i] && yt[i - 1] == y[i]);
                }
            }
        }
    }
}

pub proof fn lemma_entries_within(x: Entries, y: Entries)
    ensures
        entries_within(x, y) == forall|i: int| 0 <= i < x.len() ==>
            (#[trigger] obj_get(y, x[i].0)) is Some && json_eq(x[i].1, obj_get(y, x[i].0).unwrap()),
    decreases x.len(),
{
    if x.len() > 0 {
        let xt = x.subrange(1, x.len() as int);
        lemma_entries_within(xt, y);
        if forall|i: int| 0 <= i < x.len() ==>
            (#[trigger] obj_get(y, x[i].0)) is Some && json_eq(x[i].1, obj_get(y, x[i].0).unwrap()) {
            assert(obj_get(y, x[0].0) is Some);
            assert forall|i: int| 0 <= i < xt.len() implies
                (#[trigger] obj_get(y, xt[i].0)) is Some && json_eq(xt[i].1, obj_get(y, xt[i].0).unwrap()) by {
                assert(xt[i] == x[i + 1]);
            }
        }
        if entries_within(x, y) {
            assert forall|i: int| 0 <= i < x.len() implies
                (#[trigger] obj_get(y, x[i].0)) is Some && json_eq(x[i].1, obj_get(y, x[i].0).unwrap()) by {
                if i > 0 {
                    assert(xt[i - 1] == x[i]);
                }
            }
        }
    }
}

/// Object keys are pairwise distinct.
pub open spec fn keys_unique(e: Entries) -> bool {
    forall|i: int, j: int| 0 <= i < j < e.len() ==> (#[trigger] e[i]).0 != (#[trigger] e[j]).0
}

/// Well-formed values: every object, at any depth, has distinct keys (as
/// a map does).
pub open spec fn wf(a: JsonV) -> bool
    decreases a,
{
    match a {
        JsonV::Array(x) => seq_wf(x),
        JsonV::Object(e) => keys_unique(e) && entries_wf(e),
        _ => true,
    }
}

pub open spec fn seq_wf(x: Seq<JsonV>) -> bool
    decreases x,
{
    if x.len() == 0 {
        true
    } else {
        wf(x[0]) && seq_wf(x.subrange(1, x.len() as int))
    }
}

pub open spec fn entries_wf(e: Entries) -> bool
    decreases e,
{
    if e.len() == 0 {
        true
    } else {
        wf(e[0].1) && entries_wf(e.subrange(1, e.len() as int))
    }
}

pub proof fn lemma_seq_wf(x: Seq<JsonV>)
    ensures
        seq_wf(x) == forall|i: int| 0 <= i < x.len() ==> wf(#[trigger] x[i]),
    decreases x.len(),
{
    if x.len() > 0 {
        let t = x.subrange(1, x.len() as int);
        lemma_seq_wf(t);
        assert forall|i: int| 1 <= i < x.len() implies x[i] == #[trigger] t[i - 1] by {}
        if forall|i: int| 0 <= i < x.len() ==> wf(#[trigger] x[i]) {
            assert forall|i: int| 0 <= i < t.len() implies wf(#[trigger] t[i]) by {
                assert(t[i] == x[i + 1]);
            }
        }
        if seq_wf(x) {
            assert forall|i: int| 0 <= i < x.len() implies wf(#[trigger] x[i]) by {
                if i > 0 { assert(t[i - 1] == x[i]); }
            }
        }
    }
}

pub proof fn lemma_entries_wf(e: Entries)
    ensures
        entries_wf(e) == forall|i: int| 0 <= i < e.len() ==> wf(#[trigger] e[i].1),
    decreases e.len(),
{
    if e.len() > 0 {
        let t = e.subrange(1, e.len() as int);
        lemma_entries_wf(t);
        assert forall|i: int| 1 <= i < e.len() implies e[i] == #[trigger] t[i - 1] by {}
        if forall|i: int| 0 <= i < e.len() ==> wf(#[trigger] e[i].1) {
            assert forall|i: int| 0 <= i < t.len() implies wf(#[trigger] t[i].1) by {
                assert(t[i] == e[i + 1]);
            }
        }
        if entries_wf(e) {
            assert forall|i: int| 0 <= i < e.len() implies wf(#[trigger] e[i].1) by {
                if i > 0 { assert(t[i - 1] == e[i]); }
            }
        }
    }
}

/// With distinct keys, looking up an entry's key finds that entry.
pub proof fn lemma_find_unique(e: Entries, i: int)
    requires
        keys_unique(e),
        0 <= i < e.len(),
    ensures
        find_key(e, e[i].0) == Some(i),
        obj_get(e, e[i].0) == Some(e[i].1),
{
    assert forall|j: int| 0 <= j < i implies (#[trigger] e[j]).0 != e[i].0 by {}
    lemma_find_key(e, e[i].0, i);
}

/// Inserting a well-formed value keeps an object well-formed.
pub proof fn lemma_insert_wf(e: Entries, k: Seq<char>, v: JsonV)
    requires
        wf(JsonV::Object(e)),
        wf(v),
    ensures
        wf(JsonV::Object(obj_insert(e, k, v))),
{
    let n = obj_insert(e, k, v);
    lemma_insert_unique(e, k, v);
    lemma_entries_wf(e);
    lemma_entries_wf(n);
    lemma_find_key_result(e, k);
    assert forall|i: int| 0 <= i < n.len() implies wf(#[trigger] n[i].1) by {
        if i < e.len() && !(find_key(e, k) == Some(i)) {
            assert(n[i] == e[i]);
        }
    }
}

/// Removing a key keeps an object well-formed.
pub proof fn lemma_remove_wf(e: Entries, k: Seq<char>)
    requires
        wf(JsonV::Object(e)),
    ensures
        wf(JsonV::Object(obj_remove(e, k))),
{
    let n = obj_remove(e, k);
    lemma_remove_unique(e, k);
    lemma_entries_wf(e);
    lemma_entries_wf(n);
    lemma_find_key_result(e, k);
    assert forall|i: int| 0 <= i < n.len() implies wf(#[trigger] n[i].1) by {
        if find_key(e, k) == Some(i) {
            assert(n[i] == e[e.len() - 1]);
        } else {
            assert(n[i] == e[i]);
        }
    }
}

/// A member of a well-formed object is well-formed.
pub proof fn lemma_get_wf(e: Entries, k: Seq<char>)
    requires
        wf(JsonV::Object(e)),
    ensures
        obj_get(e, k) matches Some(v) ==> wf(v),
{
    lemma_entries_wf(e);
    lemma_find_key_result(e, k);
}

/// Every well-formed value equals itself.
pub proof fn lemma_json_eq_refl(a: JsonV)
    requires
        wf(a),
    ensures
        json_eq(a, a),
    decreases a,
{
    match a {
        JsonV::Array(x) => {
            lemma_seq_wf(x);
            assert forall|i: int| 0 <= i < x.len() implies json_eq(#[trigger] x[i], x[i]) by {
                lemma_json_eq_refl(x[i]);
            }
            lemma_seq_eq(x, x);
        },
        JsonV::Object(x) => {
            lemma_entries_wf(x);
            assert forall|i: int| 0 <= i < x.len() implies
                (#[trigger] obj_get(x, x[i].0)) is Some && json_eq(x[i].1, obj_get(x, x[i].0).unwrap()) by {
                lemma_find_unique(x, i);
                lemma_json_eq_refl(x[i].1);
            }
            lemma_entries_within(x, x);
        },
        JsonV::Number(n) => {},
        _ => {},
    }
}

fn str_value_eq(a: &String, b: &String) -> (r: bool)
    ensures
        r == (a@ == b@),
{
    str_eq(a.as_str(), b.as_str())
}

fn is_zero_float_text(t: &String) -> (r: bool)
    ensures
        r == is_zero_text(t@),
{
    str_eq(t.as_str(), "0.0") || str_eq(t.as_str(), "-0.0")
}

/// Number equality as `serde_json::Number` decides it.
pub fn number_equal(a: &JsonNumber, b: &JsonNumber) -> (r: bool)
    ensures
        r == num_eq(a@, b@),
{
    match (a, b) {
        (JsonNumber::PosInt(x), JsonNumber::PosInt(y)) => *x == *y,
        (JsonNumber::NegInt(x), JsonNumber::NegInt(y)) => *x == *y,
        (JsonNumber::Float(x), JsonNumber::Float(y)) => str_value_eq(x, y) || (is_zero_float_text(x)
            && is_zero_float_text(y)),
        _ => false,
    }
}

/// Value equality as `serde_json::Value`'s `==` decides it.
#[verifier::loop_isolation(false)]
pub fn json_equal(a: &Json, b: &Json) -> (r: bool)
    ensures
        r == json_eq(a@, b@),
    decreases a,
{
    broadcast use lemma_views, lemma_entry_views, vstd::std_specs::vec::group_vec_axioms;
    match (a, b) {
        (Json::Null, Json::Null) => true,
        (Json::Bool(x), Json::Bool(y)) => *x == *y,
        (Json::Number(x), Json::Number(y)) => number_equal(x, y),
        (Json::Str(x), Json::Str(y)) => str_value_eq(x, y),
        (Json::Array(x), Json::Array(y)) => {
            proof { lemma_views(x@); lemma_views(y@); }
            if x.len() != y.len() {
                return false;
            }
            proof { lemma_seq_eq(views(x@), views(y@)); }
            let mut i: usize = 0;
            while i < x.len()
                invariant
                    i <= x@.len(),
                    forall|j: int| 0 <= j < i ==> json_eq(#[trigger] views(x@)[j], views(y@)[j]),
                decreases x@.len() - i,
            {
                proof { assert(decreases_to!(*a => x@[i as int])); }
                if !json_equal(&x[i], &y[i]) {
                    assert(views(x@)[i as int] == x@[i as int]@ && views(y@)[i as int] == y@[i as int]@);
                    return false;
                }
                i += 1;
            }
            true
        },
        (Json::Object(x), Json::Object(y)) => {
            proof { lemma_entry_views(x@); lemma_entry_views(y@); }
            if x.len() != y.len() {
                return false;
            }
            proof { lemma_entries_within(entry_views(x@), entry_views(y@)); }
            let mut i: usize = 0;
            while i < x.len()
                invariant
                    i <= x@.len(),
                    forall|j: int| 0 <= j < i ==> (#[trigger] obj_get(entry_views(y@), entry_views(x@)[j].0)) is Some
                        && json_eq(entry_views(x@)[j].1, obj_get(entry_views(y@), entry_views(x@)[j].0).unwrap()),
                decreases x@.len() - i,
            {
                match find_entry(y, x[i].0.as_str()) {
                    None => {
                        assert(entry_views(x@)[i as int].0 == x@[i as int].0@);
                        return false;
                    },
                    Some(k) => {
                        proof { assert(decreases_to!(*a => x@[i as int].1)); }
                        assert(entry_views(x@)[i as int].0 == x@[i as int].0@);
                        assert(obj_get(entry_views(y@), entry_views(x@)[i as int].0) == Some(y@[k as int].1@));
                        if !json_equal(&x[i].1, &y[k].1) {
                            return false;
                        }
                    },
                }
                i += 1;
            }
            true
        },
        (Json::Null, _) | (Json::Bool(_), _) | (Json::Number(_), _) | (Json::Str(_), _)
        | (Json::Array(_), _) | (Json::Object(_), _) => false,
    }
}

} // verus!
