//! Which price-table entry a model name resolves to, and the token counts
//! a request is priced on. The per-token prices themselves are floating
//! point and stay with the caller.
//!
//! A name is trimmed, its provider prefix (`anthropic/`) dropped, and then
//! looked up as is, by its date-suffix-stripped alias, or as the newest
//! dated variant of a dateless name.
use vstd::prelude::*;
use crate::text::{is_unicode_space, push_char, str_eq};
use crate::transcript::AssistantUsage;

verus! {

/// Cache file name inside the app data directory.
pub const CACHE_FILE_NAME: &'static str = "pricing-cache.json";

/// Token counts to price; mirrors the `requests` columns.
#[derive(Debug, Clone, Copy, PartialEq, Eq, Structural)]
pub struct UsageTokens {
    pub input_tokens: i64,
    pub output_tokens: i64,
    pub cache_read_tokens: i64,
    pub cache_creation_tokens: i64,
    /// 5m/1h cache-creation split when the transcript carries it; with
    /// neither, all cache-creation tokens price at the 5m rate.
    pub cache_creation_5m_tokens: Option<i64>,
    pub cache_creation_1h_tokens: Option<i64>,
}

impl Default for UsageTokens {
    fn default() -> (r: UsageTokens)
        ensures
            r == (UsageTokens {
                input_tokens: 0,
                output_tokens: 0,
                cache_read_tokens: 0,
                cache_creation_tokens: 0,
                cache_creation_5m_tokens: None,
                cache_creation_1h_tokens: None,
            }),
    {
        UsageTokens {
            input_tokens: 0,
            output_tokens: 0,
            cache_read_tokens: 0,
            cache_creation_tokens: 0,
            cache_creation_5m_tokens: None,
            cache_creation_1h_tokens: None,
        }
    }
}

impl UsageTokens {
    /// The token counts of a transcript usage line.
    pub fn from_usage(u: &AssistantUsage) -> (r: UsageTokens)
        ensures
            r.input_tokens == u.input_tokens,
            r.output_tokens == u.output_tokens,
            r.cache_read_tokens == u.cache_read_tokens,
            r.cache_creation_tokens == u.cache_creation_tokens,
            r.cache_creation_5m_tokens == u.cache_creation_5m_tokens,
            r.cache_creation_1h_tokens == u.cache_creation_1h_tokens,
    {
        UsageTokens {
            input_tokens: u.input_tokens,
            output_tokens: u.output_tokens,
            cache_read_tokens: u.cache_read_tokens,
            cache_creation_tokens: u.cache_creation_tokens,
            cache_creation_5m_tokens: u.cache_creation_5m_tokens,
            cache_creation_1h_tokens: u.cache_creation_1h_tokens,
        }
    }

    /// How many cache-creation tokens price at the 5m and at the 1h rate:
    /// without a split all of them at 5m; with one, the split counts plus
    /// any unsplit remainder (never negative) at 5m.
    pub fn write_split(&self) -> (r: (i128, i128))
        ensures
            (r.0 as int, r.1 as int) == (match (self.cache_creation_5m_tokens, self.cache_creation_1h_tokens) {
                (None, None) => (self.cache_creation_tokens as int, 0int),
                (f, o) => {
                    let five = match f { Some(v) => v as int, None => 0 };
                    let one = match o { Some(v) => v as int, None => 0 };
                    let rest = self.cache_creation_tokens - five - one;
                    (five + (if rest > 0 { rest } else { 0 }), one)
                },
            }),
    {
        match (self.cache_creation_5m_tokens, self.cache_creation_1h_tokens) {
            (None, None) => (self.cache_creation_tokens as i128, 0),
            (f, o) => {
                let five: i128 = match f { Some(v) => v as i128, None => 0 };
                let one: i128 = match o { Some(v) => v as i128, None => 0 };
                let rest = self.cache_creation_tokens as i128 - five - one;
                (five + (if rest > 0 { rest } else { 0 }), one)
            },
        }
    }
}

/// `name` ends in `-` and exactly eight ASCII digits after a non-empty
/// head: the head, else `None`.
pub open spec fn spec_strip_date_suffix(name: Seq<char>) -> Option<Seq<char>> {
    let n = name.len();
    if n >= 10 && name[n - 9] == '-' && (forall|i: int| n - 8 <= i < n ==> '0' <= #[trigger] name[i] <= '9') {
        Some(name.subrange(0, n - 9))
    } else {
        None
    }
}

fn prefix(s: &str, k: usize) -> (r: String)
    requires
        k <= s@.len(),
    ensures
        r@ == s@.subrange(0, k as int),
{
    let mut out = String::new();
    let mut i: usize = 0;
    while i < k
        invariant
            k <= s@.len(),
            i <= k,
            out@ == s@.subrange(0, i as int),
        decreases k - i,
    {
        push_char(&mut out, s.get_char(i));
        proof { assert(s@.subrange(0, i + 1) =~= s@.subrange(0, i as int).push(s@[i as int])); }
        i += 1;
    }
    out
}

/// `"sonnet-4-5-20250929"` to `Some("sonnet-4-5")`
/// (see [`spec_strip_date_suffix`]).
pub fn strip_date_suffix(name: &str) -> (r: Option<String>)
    ensures
        match r {
            Some(h) => spec_strip_date_suffix(name@) == Some(h@),
            None => spec_strip_date_suffix(name@) is None,
        },
{
    let n = name.unicode_len();
    if n < 10 || name.get_char(n - 9) != '-' {
        return None;
    }
    let mut i: usize = n - 8;
    while i < n
        invariant
            n == name@.len(),
            n >= 10,
            n - 8 <= i <= n,
            forall|j: int| n - 8 <= j < i ==> '0' <= #[trigger] name@[j] <= '9',
        decreases n - i,
    {
        let c = name.get_char(i);
        if !('0' <= c && c <= '9') {
            return None;
        }
        i += 1;
    }
    Some(prefix(name, n - 9))
}

/// `s` without leading whitespace.
pub open spec fn trim_start(s: Seq<char>) -> Seq<char>
    decreases s.len(),
{
    if s.len() > 0 && is_unicode_space(s[0]) { trim_start(s.subrange(1, s.len() as int)) } else { s }
}

/// `s` without trailing whitespace.
pub open spec fn trim_end(s: Seq<char>) -> Seq<char>
    decreases s.len(),
{
    if s.len() > 0 && is_unicode_space(s.last()) { trim_end(s.drop_last()) } else { s }
}

/// `str::trim`.
pub open spec fn trim(s: Seq<char>) -> Seq<char> {
    trim_end(trim_start(s))
}

/// `s.rsplit('/').next()`: what follows the last `/` (all of `s` without one).
pub open spec fn after_last_slash(s: Seq<char>) -> Seq<char>
    decreases s.len(),
{
    if s.len() == 0 {
        s
    } else if s.last() == '/' {
        Seq::empty()
    } else {
        after_last_slash(s.drop_last()).push(s.last())
    }
}

/// The bare model name a lookup starts from.
pub open spec fn bare_model(model: Seq<char>) -> Seq<char> {
    trim(after_last_slash(trim(model)))
}

fn trimmed(s: &str) -> (r: String)
    ensures
        r@ == trim(s@),
{
    let n = s.unicode_len();
    let mut a: usize = 0;
    assert(s@.subrange(0, n as int) =~= s@);
    while a < n && crate::text::char_is_space(s.get_char(a))
        invariant
            n == s@.len(),
            a <= n,
            trim_start(s@) == trim_start(s@.subrange(a as int, n as int)),
        decreases n - a,
    {
        proof {
            assert(s@.subrange(a as int, n as int).subrange(1, (n - a) as int) =~= s@.subrange(a + 1, n as int));
        }
        a += 1;
    }
    let mut b: usize = n;
    assert(trim_start(s@.subrange(a as int, n as int)) == s@.subrange(a as int, n as int));
    while b > a && crate::text::char_is_space(s.get_char(b - 1))
        invariant
            n == s@.len(),
            a <= b <= n,
            trim(s@) == trim_end(s@.subrange(a as int, b as int)),
            trim_start(s@) == trim_start(s@.subrange(a as int, n as int)),
        decreases b - a,
    {
        proof {
            assert(s@.subrange(a as int, b as int).drop_last() =~= s@.subrange(a as int, b - 1));
        }
        b -= 1;
    }
    let mut out = String::new();
    let mut i: usize = a;
    while i < b
        invariant
            n == s@.len(),
            a <= i <= b <= n,
            out@ == s@.subrange(a as int, i as int),
        decreases b - i,
    {
        push_char(&mut out, s.get_char(i));
        proof { assert(s@.subrange(a as int, i + 1) =~= s@.subrange(a as int, i as int).push(s@[i as int])); }
        i += 1;
    }
    out
}


/// String order (byte-wise on UTF-8, which is code-point order).
pub open spec fn lex_less(a: Seq<char>, b: Seq<char>) -> bool
    decreases a.len(),
{
    if a.len() == 0 {
        b.len() > 0
    } else if b.len() == 0 {
        false
    } else if a[0] != b[0] {
        a[0] < b[0]
    } else {
        lex_less(a.subrange(1, a.len() as int), b.subrange(1, b.len() as int))
    }
}

proof fn lemma_lex_transitive(a: Seq<char>, b: Seq<char>, c: Seq<char>)
    requires
        lex_less(a, b),
        lex_less(b, c),
    ensures
        lex_less(a, c),
    decreases a.len(),
{
    if a.len() > 0 && b.len() > 0 && c.len() > 0 && a[0] == b[0] && b[0] == c[0] {
        lemma_lex_transitive(a.subrange(1, a.len() as int), b.subrange(1, b.len() as int), c.subrange(1, c.len() as int));
    }
}

proof fn lemma_lex_total(a: Seq<char>, b: Seq<char>)
    ensures
        a == b || lex_less(a, b) || lex_less(b, a),
    decreases a.len(),
{
    if a.len() > 0 && b.len() > 0 && a[0] == b[0] {
        let (x, y) = (a.subrange(1, a.len() as int), b.subrange(1, b.len() as int));
        lemma_lex_total(x, y);
        if x == y {
            assert(a =~= seq![a[0]] + x);
            assert(b =~= seq![b[0]] + y);
        }
    }
}

proof fn lemma_lex_irreflexive(a: Seq<char>)
    ensures
        !lex_less(a, a),
    decreases a.len(),
{
    if a.len() > 0 {
        lemma_lex_irreflexive(a.subrange(1, a.len() as int));
    }
}

/// `lex_less` decided on the suffixes after a common prefix of length `i`.
proof fn lemma_lex_skip(a: Seq<char>, b: Seq<char>, i: int)
    requires
        0 <= i <= a.len(),
        i <= b.len(),
        forall|j: int| 0 <= j < i ==> a[j] == b[j],
    ensures
        lex_less(a, b) == lex_less(a.subrange(i, a.len() as int), b.subrange(i, b.len() as int)),
    decreases i,
{
    if i > 0 {
        let (x, y) = (a.subrange(1, a.len() as int), b.subrange(1, b.len() as int));
        assert forall|j: int| 0 <= j < i - 1 implies x[j] == y[j] by {
            assert(x[j] == a[j + 1] && y[j] == b[j + 1]);
        }
        lemma_lex_skip(x, y, i - 1);
        assert(a[0] == b[0]);
        assert(lex_less(a, b) == lex_less(x, y));
        assert(x.subrange(i - 1, x.len() as int) =~= a.subrange(i, a.len() as int));
        assert(y.subrange(i - 1, y.len() as int) =~= b.subrange(i, b.len() as int));
    } else {
        assert(a.subrange(0, a.len() as int) =~= a);
        assert(b.subrange(0, b.len() as int) =~= b);
    }
}

/// `a < b` on strings.
pub fn str_less(a: &str, b: &str) -> (r: bool)
    ensures
        r == lex_less(a@, b@),
{
    let (n, m) = (a.unicode_len(), b.unicode_len());
    let mut i: usize = 0;
    while i < n && i < m && a.get_char(i) == b.get_char(i)
        invariant
            n == a@.len(),
            m == b@.len(),
            i <= n,
            i <= m,
            forall|j: int| 0 <= j < i ==> a@[j] == b@[j],
        decreases n - i,
    {
        i += 1;
    }
    proof { lemma_lex_skip(a@, b@, i as int); }
    if i == n {
        i < m
    } else if i == m {
        false
    } else {
        a.get_char(i) < b.get_char(i)
    }
}

/// A dated key of a dateless name: `bare`, `-`, eight digits.
pub open spec fn is_dated_variant(key: Seq<char>, bare: Seq<char>) -> bool {
    &&& key.len() == bare.len() + 9
    &&& key.subrange(0, bare.len() as int) == bare
    &&& spec_strip_date_suffix(key) is Some
}

/// What a lookup of `model` resolves to among `keys`: the bare name
/// itself, its date-stripped alias, or (`None` here) the newest dated
/// variant, which [`lookup_key`] states.
pub open spec fn direct_key(keys: Seq<Seq<char>>, model: Seq<char>) -> Option<Seq<char>> {
    let bare = bare_model(model);
    if bare.len() == 0 {
        None
    } else if keys.contains(bare) {
        Some(bare)
    } else {
        match spec_strip_date_suffix(bare) {
            Some(alias) => if keys.contains(alias) { Some(alias) } else { None },
            None => None,
        }
    }
}

pub open spec fn key_views(keys: Seq<String>) -> Seq<Seq<char>> {
    keys.map_values(|k: String| k@)
}

fn find_key_index(keys: &[String], name: &str) -> (r: Option<usize>)
    ensures
        match r {
            Some(i) => i < keys@.len() && keys@[i as int]@ == name@,
            None => !key_views(keys@).contains(name@),
        },
{
    let mut i: usize = 0;
    while i < keys.len()
        invariant
            i <= keys@.len(),
            forall|j: int| 0 <= j < i ==> keys@[j]@ != name@,
        decreases keys@.len() - i,
    {
        if str_eq(keys[i].as_str(), name) {
            return Some(i);
        }
        i += 1;
    }
    proof {
        if key_views(keys@).contains(name@) {
            let j = choose|j: int| 0 <= j < key_views(keys@).len() && key_views(keys@)[j] == name@;
            assert(keys@[j]@ == name@);
        }
    }
    None
}

fn is_dated_variant_exec(key: &str, bare: &str) -> (r: bool)
    ensures
        r == is_dated_variant(key@, bare@),
{
    let (n, b) = (key.unicode_len(), bare.unicode_len());
    if n < 9 || n - 9 != b {
        return false;
    }
    let mut i: usize = 0;
    while i < b
        invariant
            n == key@.len(),
            b == bare@.len(),
            n == b + 9,
            i <= b,
            forall|j: int| 0 <= j < i ==> key@[j] == bare@[j],
        decreases b - i,
    {
        if key.get_char(i) != bare.get_char(i) {
            assert(key@.subrange(0, b as int)[i as int] != bare@[i as int]);
            return false;
        }
        i += 1;
    }
    assert(key@.subrange(0, b as int) =~= bare@);
    strip_date_suffix(key).is_some()
}

/// Resolves the price-table key for a model name: after trimming and
/// dropping a provider prefix, the name itself, else its date-stripped
/// alias, else the newest (greatest) dated variant of a dateless name.
/// Returns the key's index in `keys`, whose order does not matter.
pub fn lookup_key(keys: &[String], model: &str) -> (r: Option<usize>)
    requires
        forall|i: int, j: int| 0 <= i < j < keys@.len() ==> keys@[i]@ != keys@[j]@,
    ensures
        match direct_key(key_views(keys@), model@) {
            Some(k) => r is Some && r->0 < keys@.len() && keys@[r->0 as int]@ == k,
            None => match r {
                Some(i) => i < keys@.len() && bare_model(model@).len() > 0
                    && is_dated_variant(keys@[i as int]@, bare_model(model@))
                    && forall|j: int| 0 <= j < keys@.len() && is_dated_variant(#[trigger] keys@[j]@, bare_model(model@))
                        ==> j == i || lex_less(keys@[j]@, keys@[i as int]@),
                None => bare_model(model@).len() == 0
                    || forall|j: int| 0 <= j < keys@.len() ==> !is_dated_variant(#[trigger] keys@[j]@, bare_model(model@)),
            },
        },
{
    let outer = trimmed(model);
    let last = after_slash(outer.as_str());
    let bare = trimmed(last.as_str());
    assert(bare@ == bare_model(model@));
    if bare.unicode_len() == 0 {
        return None;
    }
    if let Some(i) = find_key_index(keys, bare.as_str()) {
        assert(key_views(keys@)[i as int] == bare@);
        return Some(i);
    }
    if let Some(alias) = strip_date_suffix(bare.as_str()) {
        if let Some(i) = find_key_index(keys, alias.as_str()) {
            assert(key_views(keys@)[i as int] == alias@);
            return Some(i);
        }
    }
    let mut best: Option<usize> = None;
    let mut i: usize = 0;
    while i < keys.len()
        invariant
            i <= keys@.len(),
            bare@ == bare_model(model@),
            forall|a: int, b: int| 0 <= a < b < keys@.len() ==> keys@[a]@ != keys@[b]@,
            match best {
                Some(k) => k < i && is_dated_variant(keys@[k as int]@, bare@)
                    && forall|j: int| 0 <= j < i && is_dated_variant(#[trigger] keys@[j]@, bare@)
                        ==> j == k || lex_less(keys@[j]@, keys@[k as int]@),
                None => forall|j: int| 0 <= j < i ==> !is_dated_variant(#[trigger] keys@[j]@, bare@),
            },
        decreases keys@.len() - i,
    {
        if is_dated_variant_exec(keys[i].as_str(), bare.as_str()) {
            match best {
                None => { best = Some(i); },
                Some(k) => {
                    proof { lemma_lex_total(keys@[k as int]@, keys@[i as int]@); }
                    if str_less(keys[k].as_str(), keys[i].as_str()) {
                        proof {
                            assert forall|j: int| 0 <= j < i + 1 && is_dated_variant(#[trigger] keys@[j]@, bare@)
                                implies j == i || lex_less(keys@[j]@, keys@[i as int]@) by {
                                if j != i && j != k {
                                    lemma_lex_transitive(keys@[j]@, keys@[k as int]@, keys@[i as int]@);
                                }
                            }
                        }
                        best = Some(i);
                    }
                },
            }
        }
        i += 1;
    }
    best
}

/// `s.rsplit('/').next()`.
fn after_slash(s: &str) -> (r: String)
    ensures
        r@ == after_last_slash(s@),
{
    let n = s.unicode_len();
    let mut k: usize = n;
    assert(s@.subrange(0, n as int) =~= s@);
    assert(s@.subrange(n as int, n as int) =~= Seq::<char>::empty());
    assert(after_last_slash(s@) + Seq::<char>::empty() =~= after_last_slash(s@));
    while k > 0 && s.get_char(k - 1) != '/'
        invariant
            n == s@.len(),
            k <= n,
            after_last_slash(s@) == after_last_slash(s@.subrange(0, k as int)) + s@.subrange(k as int, n as int),
        decreases k,
    {
        proof {
            let t = s@.subrange(0, k as int);
            assert(t.drop_last() =~= s@.subrange(0, k - 1));
            assert(s@.subrange(k - 1, n as int) =~= seq![t.last()] + s@.subrange(k as int, n as int));
            assert(after_last_slash(t) == after_last_slash(t.drop_last()).push(t.last()));
            assert(after_last_slash(t.drop_last()).push(t.last()) + s@.subrange(k as int, n as int)
                =~= after_last_slash(t.drop_last()) + s@.subrange(k - 1, n as int));
        }
        k -= 1;
    }
    let mut out = String::new();
    let mut i: usize = k;
    while i < n
        invariant
            n == s@.len(),
            k <= i <= n,
            out@ == s@.subrange(k as int, i as int),
        decreases n - i,
    {
        push_char(&mut out, s.get_char(i));
        proof { assert(s@.subrange(k as int, i + 1) =~= s@.subrange(k as int, i as int).push(s@[i as int])); }
        i += 1;
    }
    proof {
        let t = s@.subrange(0, k as int);
        if k > 0 {
            assert(after_last_slash(t) =~= Seq::<char>::empty());
        }
        assert(after_last_slash(t) + s@.subrange(k as int, n as int) =~= s@.subrange(k as int, n as int));
    }
    out
}


/// `Path::join` of two paths, as text.
pub uninterp spec fn path_join(base: Seq<char>, name: Seq<char>) -> Seq<char>;

/// `Path::new(base).join(name)`: the result is the named join; as
/// `PathBuf::push` documents on Unix, an absolute `name` replaces `base`,
/// and for a relative `name` it is `base`, a `/` unless `base` already ends
/// in one, then `name`.
#[verifier::external_body]
fn join_path(base: &str, name: &str) -> (r: String)
    ensures
        r@ == path_join(base@, name@),
        name@.len() > 0 && name@[0] == '/' ==> r@ == name@,
        base@.len() > 0 && !(name@.len() > 0 && name@[0] == '/') ==> r@ == (if base@.last() == '/' {
            base@ + name@
        } else {
            base@ + "/"@ + name@
        }),
{
    std::path::Path::new(base).join(name).to_string_lossy().into_owned()
}

/// Path of the local pricing cache inside the app data directory: the
/// cache file name joined under it.
pub fn cache_path(data_dir: &str) -> (r: String)
    ensures
        r@ == path_join(data_dir@, CACHE_FILE_NAME@),
        data_dir@.len() > 0 ==> r@ == (if data_dir@.last() == '/' {
            data_dir@ + CACHE_FILE_NAME@
        } else {
            data_dir@ + "/"@ + CACHE_FILE_NAME@
        }),
{
    proof { reveal_strlit("pricing-cache.json"); }
    join_path(data_dir, CACHE_FILE_NAME)
}

} // verus!
