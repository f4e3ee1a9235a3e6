//! The agent's user `settings.json` merge engine: adds exactly the app's five
//! telemetry env keys and one `SessionStart` hook, and removes only
//! app-owned content again. Pure document-in/document-out; reading,
//! backing up and writing the file belong to the caller.
use vstd::prelude::*;
use crate::json::{Json, JsonV, Entries, entry_views, lemma_entry_views, lemma_views, views, obj_get, obj_insert, obj_remove, find_entry, entries_insert, entries_remove, clone_map};
use crate::text::{str_eq, str_contains, str_starts_with, has_infix, has_prefix, utf8, is_blank, all_space, cat, cat3, opt_chars};
use crate::codec::{json_from_str, json_to_string_pretty, parse_json_str, render_pretty};
use crate::json::{json_eq, json_equal, wf};

verus! {

/// Object entries in document order (a `serde_json::Map` with
/// `preserve_order`).
pub type JsonMap = Vec<(String, Json)>;

/// Substring identifying an app-owned `SessionStart` hook command.
pub const APP_HOOK_MARKER: &'static str = "http://127.0.0.1:43177/session";

/// The `SessionStart` hook command: POSTs the hook's stdin JSON to the
/// receiver's `/session` endpoint, fail-silent.
pub const SESSION_HOOK_COMMAND: &'static str = "curl -s -m 2 -X POST -H 'Content-Type: application/json' --data-binary @- http://127.0.0.1:43177/session >/dev/null 2>&1 || true";

/// The env keys the app owns, with the values it writes, in write order.
pub open spec fn app_env() -> Seq<(Seq<char>, Seq<char>)> {
    seq![
        ("CLAUDE_CODE_ENABLE_TELEMETRY"@, "1"@),
        ("OTEL_LOGS_EXPORTER"@, "otlp"@),
        ("OTEL_EXPORTER_OTLP_PROTOCOL"@, "http/json"@),
        ("OTEL_EXPORTER_OTLP_LOGS_PROTOCOL"@, "http/json"@),
        ("OTEL_EXPORTER_OTLP_LOGS_ENDPOINT"@, "http://127.0.0.1:43177/v1/logs"@),
    ]
}

/// The `i`-th app-owned env key and its value.
pub fn app_env_pair(i: usize) -> (r: (&'static str, &'static str))
    requires
        i < 5,
    ensures
        r.0@ == app_env()[i as int].0,
        r.1@ == app_env()[i as int].1,
{
    if i == 0 {
        ("CLAUDE_CODE_ENABLE_TELEMETRY", "1")
    } else if i == 1 {
        ("OTEL_LOGS_EXPORTER", "otlp")
    } else if i == 2 {
        ("OTEL_EXPORTER_OTLP_PROTOCOL", "http/json")
    } else if i == 3 {
        ("OTEL_EXPORTER_OTLP_LOGS_PROTOCOL", "http/json")
    } else {
        ("OTEL_EXPORTER_OTLP_LOGS_ENDPOINT", "http://127.0.0.1:43177/v1/logs")
    }
}

/// Whether an inner hook object carries an app-owned command.
pub open spec fn is_app_hook(hook: JsonV) -> bool {
    match hook.get("command"@) {
        Some(JsonV::Str(c)) => has_infix(utf8(c), utf8(APP_HOOK_MARKER@)),
        _ => false,
    }
}

/// Whether a `SessionStart` matcher group holds an app-owned inner hook.
pub open spec fn group_has_app_hook(group: JsonV) -> bool {
    match group.get("hooks"@) {
        Some(JsonV::Array(inner)) => exists|i: int| 0 <= i < inner.len() && is_app_hook(#[trigger] inner[i]),
        _ => false,
    }
}

/// The hook group the merge appends to `hooks.SessionStart`.
pub open spec fn app_hook_group() -> JsonV {
    JsonV::Object(seq![("hooks"@, JsonV::Array(seq![JsonV::Object(seq![
        ("type"@, JsonV::Str("command"@)),
        ("command"@, JsonV::Str(SESSION_HOOK_COMMAND@)),
    ])]))])
}

fn is_app_hook_exec(hook: &Json) -> (r: bool)
    ensures
        r == is_app_hook(hook@),
{
    match hook.get("command") {
        Some(c) => match c {
            Json::Str(s) => str_contains(s.as_str(), APP_HOOK_MARKER),
            _ => false,
        },
        None => false,
    }
}

#[verifier::loop_isolation(false)]
fn group_has_app_hook_exec(group: &Json) -> (r: bool)
    ensures
        r == group_has_app_hook(group@),
{
    broadcast use lemma_views;
    match group.get("hooks") {
        Some(Json::Array(inner)) => {
            proof { lemma_views(inner@); }
            let mut i: usize = 0;
            while i < inner.len()
                invariant
                    i <= inner@.len(),
                    forall|j: int| 0 <= j < i ==> !is_app_hook(#[trigger] views(inner@)[j]),
                decreases inner@.len() - i,
            {
                if is_app_hook_exec(&inner[i]) {
                    assert(is_app_hook(views(inner@)[i as int]));
                    return true;
                }
                i += 1;
            }
            false
        },
        _ => false,
    }
}

fn make_app_hook_group() -> (r: Json)
    ensures
        r@ == app_hook_group(),
{
    broadcast use lemma_views, lemma_entry_views;
    let mut hook: JsonMap = Vec::new();
    hook.push(("type".to_owned(), Json::Str("command".to_owned())));
    hook.push(("command".to_owned(), Json::Str(SESSION_HOOK_COMMAND.to_owned())));
    let mut inner: Vec<Json> = Vec::new();
    inner.push(Json::Object(hook));
    let mut group: JsonMap = Vec::new();
    group.push(("hooks".to_owned(), Json::Array(inner)));
    let r = Json::Object(group);
    proof {
        lemma_entry_views(hook@);
        lemma_views(inner@);
        lemma_entry_views(group@);
        assert(entry_views(hook@) =~= seq![
            ("type"@, JsonV::Str("command"@)),
            ("command"@, JsonV::Str(SESSION_HOOK_COMMAND@)),
        ]);
        assert(views(inner@) =~= seq![JsonV::Object(entry_views(hook@))]);
        assert(entry_views(group@) =~= seq![("hooks"@, JsonV::Array(views(inner@)))]);
    }
    r
}


/// How reading, merging, or writing settings.json failed. Every error
/// aborts before a write.
#[derive(Debug, PartialEq)]
pub enum SettingsError {
    /// Filesystem failure (read, write, backup copy, rename).
    Io { kind: IoErrorKind, message: String },
    /// The file exists but is not valid JSON; holds the parser's message.
    Malformed(String),
    /// A structure the merge must edit has an unexpected type; names it
    /// (`root`, `env`, `hooks`, `hooks.SessionStart`, `settings path`).
    UnexpectedShape(&'static str),
    /// The backup file to restore from does not exist (its path).
    BackupMissing(String),
}

/// The `std::io::ErrorKind`s the error descriptions distinguish.
#[derive(Debug, Clone, Copy, PartialEq, Eq, Structural)]
pub enum IoErrorKind {
    NotFound,
    PermissionDenied,
    StorageFull,
    Other,
}

/// The members an object value holds; `None` when absent stands for an
/// empty object (what `entry(..).or_insert_with(Map::new)` creates), and
/// a present non-object is a shape error.
pub open spec fn object_or_empty(v: Option<JsonV>) -> Option<Entries> {
    match v {
        None => Some(Seq::empty()),
        Some(JsonV::Object(e)) => Some(e),
        Some(_) => None,
    }
}

/// Like [`object_or_empty`] for arrays.
pub open spec fn array_or_empty(v: Option<JsonV>) -> Option<Seq<JsonV>> {
    match v {
        None => Some(Seq::empty()),
        Some(JsonV::Array(a)) => Some(a),
        Some(_) => None,
    }
}

/// `env` after setting the first `n` app keys, in order.
pub open spec fn merge_env(env: Entries, n: nat) -> Entries
    decreases n,
{
    if n == 0 {
        env
    } else {
        obj_insert(merge_env(env, (n - 1) as nat), app_env()[n - 1].0, JsonV::Str(app_env()[n - 1].1))
    }
}

/// Whether any group carries an app hook.
pub open spec fn has_app_group(groups: Seq<JsonV>) -> bool {
    exists|i: int| 0 <= i < groups.len() && group_has_app_hook(#[trigger] groups[i])
}

/// The merge: all five app env keys set to the app values, and the app
/// hook group appended to `hooks.SessionStart` unless one is already
/// there. Everything else is carried over in place; an `env`/`hooks`
/// (`SessionStart`) of the wrong type is an error naming it.
pub open spec fn spec_apply_merge(cur: Entries) -> Result<Entries, Seq<char>> {
    match object_or_empty(obj_get(cur, "env"@)) {
        None => Err("env"@),
        Some(env) => {
            let out1 = obj_insert(cur, "env"@, JsonV::Object(merge_env(env, 5)));
            match object_or_empty(obj_get(out1, "hooks"@)) {
                None => Err("hooks"@),
                Some(hooks) => match array_or_empty(obj_get(hooks, "SessionStart"@)) {
                    None => Err("hooks.SessionStart"@),
                    Some(groups) => {
                        let groups2 = if has_app_group(groups) { groups } else { groups.push(app_hook_group()) };
                        Ok(obj_insert(out1, "hooks"@, JsonV::Object(obj_insert(hooks, "SessionStart"@, JsonV::Array(groups2)))))
                    },
                },
            }
        },
    }
}

/// A copy of the object stored under `key` (empty when absent); `None`
/// when the member is present but not an object.
fn object_member_or_empty(m: &JsonMap, key: &str) -> (r: Option<JsonMap>)
    ensures
        match r {
            Some(e) => object_or_empty(obj_get(entry_views(m@), key@)) == Some(entry_views(e@)),
            None => object_or_empty(obj_get(entry_views(m@), key@)) is None,
        },
{
    proof { lemma_entry_views(m@); }
    match find_entry(m, key) {
        None => {
            let e: JsonMap = Vec::new();
            proof { lemma_entry_views(e@); }
            assert(entry_views(e@) =~= Seq::<(Seq<char>, JsonV)>::empty());
            Some(e)
        },
        Some(i) => match m[i].1.deep_clone() {
            Json::Object(e) => Some(e),
            _ => None,
        },
    }
}

/// A copy of the array stored under `key` (empty when absent); `None`
/// when the member is present but not an array.
fn array_member_or_empty(m: &JsonMap, key: &str) -> (r: Option<Vec<Json>>)
    ensures
        match r {
            Some(a) => array_or_empty(obj_get(entry_views(m@), key@)) == Some(views(a@)),
            None => array_or_empty(obj_get(entry_views(m@), key@)) is None,
        },
{
    proof { lemma_entry_views(m@); }
    match find_entry(m, key) {
        None => {
            let a: Vec<Json> = Vec::new();
            proof { lemma_views(a@); }
            assert(views(a@) =~= Seq::<JsonV>::empty());
            Some(a)
        },
        Some(i) => match m[i].1.deep_clone() {
            Json::Array(a) => Some(a),
            _ => None,
        },
    }
}

#[verifier::loop_isolation(false)]
fn has_app_group_exec(groups: &Vec<Json>) -> (r: bool)
    ensures
        r == has_app_group(views(groups@)),
{
    proof { lemma_views(groups@); }
    let mut i: usize = 0;
    while i < groups.len()
        invariant
            i <= groups@.len(),
            forall|j: int| 0 <= j < i ==> !group_has_app_hook(#[trigger] views(groups@)[j]),
        decreases groups@.len() - i,
    {
        if group_has_app_hook_exec(&groups[i]) {
            assert(group_has_app_hook(views(groups@)[i as int]));
            return true;
        }
        i += 1;
    }
    false
}

/// Pure merge: a copy of `current` with exactly the app env keys set and
/// one app `SessionStart` hook group appended (never duplicated).
/// Overwrites an app-owned env key holding a different value; callers
/// check [`detect_conflicts`] first.
#[verifier::loop_isolation(false)]
pub fn apply_merge(current: &JsonMap) -> (r: Result<JsonMap, SettingsError>)
    requires
        wf(JsonV::Object(entry_views(current@))),
    ensures
        match r {
            Ok(m) => spec_apply_merge(entry_views(current@)) == Ok::<Entries, Seq<char>>(entry_views(m@))
                && wf(JsonV::Object(entry_views(m@))),
            Err(SettingsError::UnexpectedShape(site)) => spec_apply_merge(entry_views(current@))
                == Err::<Entries, Seq<char>>(site@),
            Err(_) => false,
        },
{
    let ghost cur = entry_views(current@);
    let mut env = match object_member_or_empty(current, "env") {
        Some(e) => e,
        None => { return Err(SettingsError::UnexpectedShape("env")); },
    };
    let ghost env0 = entry_views(env@);
    let mut k: usize = 0;
    while k < 5
        invariant
            k <= 5,
            entry_views(env@) == merge_env(env0, k as nat),
        decreases 5 - k,
    {
        let (key, value) = app_env_pair(k);
        entries_insert(&mut env, key.to_owned(), Json::Str(value.to_owned()));
        k += 1;
    }
    let mut out = clone_map(current);
    entries_insert(&mut out, "env".to_owned(), Json::Object(env));
    let mut hooks = match object_member_or_empty(&out, "hooks") {
        Some(h) => h,
        None => { return Err(SettingsError::UnexpectedShape("hooks")); },
    };
    let mut groups = match array_member_or_empty(&hooks, "SessionStart") {
        Some(g) => g,
        None => { return Err(SettingsError::UnexpectedShape("hooks.SessionStart")); },
    };
    if !has_app_group_exec(&groups) {
        let ghost old_g = groups@;
        groups.push(make_app_hook_group());
        proof {
            lemma_views(groups@);
            lemma_views(old_g);
            assert(views(groups@) =~= views(old_g).push(app_hook_group()));
        }
    }
    entries_insert(&mut hooks, "SessionStart".to_owned(), Json::Array(groups));
    entries_insert(&mut out, "hooks".to_owned(), Json::Object(hooks));
    proof { crate::merge_laws::law_merge_keeps_wf(cur); }
    Ok(out)
}


/// `env` after removing, in order, each of the first `n` app keys that
/// still holds exactly the app value.
pub open spec fn unmerge_env(env: Entries, n: nat) -> Entries
    decreases n,
{
    if n == 0 {
        env
    } else {
        let e = unmerge_env(env, (n - 1) as nat);
        let p = app_env()[n - 1];
        if obj_get(e, p.0) == Some(JsonV::Str(p.1)) {
            obj_remove(e, p.0)
        } else {
            e
        }
    }
}

/// The inner hooks of a group that are not app-owned, in order.
pub open spec fn user_hooks(inner: Seq<JsonV>) -> Seq<JsonV>
    decreases inner.len(),
{
    if inner.len() == 0 {
        Seq::empty()
    } else {
        let r = user_hooks(inner.drop_last());
        if is_app_hook(inner.last()) { r } else { r.push(inner.last()) }
    }
}

/// One `SessionStart` group after unmerge: app hooks filtered out of its
/// `hooks` array; `None` (dropped) only when that emptied a non-empty
/// array. Non-objects and groups without a `hooks` array stay as they are.
pub open spec fn unmerge_group(group: JsonV) -> Option<JsonV> {
    match group {
        JsonV::Object(e) => match obj_get(e, "hooks"@) {
            Some(JsonV::Array(inner)) => {
                let kept = user_hooks(inner);
                if inner.len() > 0 && kept.len() == 0 {
                    None
                } else {
                    Some(JsonV::Object(obj_insert(e, "hooks"@, JsonV::Array(kept))))
                }
            },
            _ => Some(group),
        },
        _ => Some(group),
    }
}

/// All groups after unmerge, in order.
pub open spec fn unmerge_groups(groups: Seq<JsonV>) -> Seq<JsonV>
    decreases groups.len(),
{
    if groups.len() == 0 {
        Seq::empty()
    } else {
        let r = unmerge_groups(groups.drop_last());
        match unmerge_group(groups.last()) {
            Some(g) => r.push(g),
            None => r,
        }
    }
}

/// Removes `key` when it holds an empty object (`as_object`) or an empty
/// array (`as_array`).
pub open spec fn drop_if_empty_object(m: Entries, key: Seq<char>) -> Entries {
    match obj_get(m, key) {
        Some(JsonV::Object(e)) => if e.len() == 0 { obj_remove(m, key) } else { m },
        _ => m,
    }
}

pub open spec fn drop_if_empty_array(m: Entries, key: Seq<char>) -> Entries {
    match obj_get(m, key) {
        Some(JsonV::Array(a)) => if a.len() == 0 { obj_remove(m, key) } else { m },
        _ => m,
    }
}

/// Whether `m[key]` is a non-empty object or a non-empty array.
pub open spec fn nonempty_member(m: Entries, key: Seq<char>) -> bool {
    match obj_get(m, key) {
        Some(JsonV::Object(e)) => e.len() > 0,
        Some(JsonV::Array(a)) => a.len() > 0,
        _ => false,
    }
}

/// The `hooks` object after unmerge; `SessionStart` is removed when the
/// unmerge emptied it (an already empty one stays).
pub open spec fn unmerge_hooks(hooks: Entries) -> Entries {
    let h1 = match obj_get(hooks, "SessionStart"@) {
        Some(JsonV::Array(groups)) => obj_insert(hooks, "SessionStart"@, JsonV::Array(unmerge_groups(groups))),
        _ => hooks,
    };
    if nonempty_member(hooks, "SessionStart"@) { drop_if_empty_array(h1, "SessionStart"@) } else { h1 }
}

/// The strict unmerge: app env keys still at their app value are removed,
/// app hooks are removed from `SessionStart` groups (a group emptied by
/// that is dropped), and `env`, `hooks`, `SessionStart` are removed when
/// the unmerge emptied them; one that was empty already stays, as does
/// everything of an unexpected shape (it holds nothing app-owned).
pub open spec fn spec_apply_unmerge(cur: Entries) -> Entries {
    let out1 = match obj_get(cur, "env"@) {
        Some(JsonV::Object(env)) => obj_insert(cur, "env"@, JsonV::Object(unmerge_env(env, 5))),
        _ => cur,
    };
    let out2 = if nonempty_member(cur, "env"@) { drop_if_empty_object(out1, "env"@) } else { out1 };
    let out3 = match obj_get(out2, "hooks"@) {
        Some(JsonV::Object(hooks)) => obj_insert(out2, "hooks"@, JsonV::Object(unmerge_hooks(hooks))),
        _ => out2,
    };
    if nonempty_member(out2, "hooks"@) { drop_if_empty_object(out3, "hooks"@) } else { out3 }
}

/// Whether `m[key]` is exactly the string `value`.
fn member_is_str(m: &JsonMap, key: &str, value: &str) -> (r: bool)
    ensures
        r == (obj_get(entry_views(m@), key@) == Some(JsonV::Str(value@))),
{
    proof { lemma_entry_views(m@); }
    match find_entry(m, key) {
        Some(i) => match &m[i].1 {
            Json::Str(s) => str_eq(s.as_str(), value),
            _ => false,
        },
        None => false,
    }
}

#[verifier::loop_isolation(false)]
fn user_hooks_exec(inner: &Vec<Json>) -> (r: Vec<Json>)
    ensures
        views(r@) == user_hooks(views(inner@)),
{
    proof { lemma_views(inner@); }
    let mut out: Vec<Json> = Vec::new();
    let mut i: usize = 0;
    while i < inner.len()
        invariant
            i <= inner@.len(),
            views(out@) == user_hooks(views(inner@).take(i as int)),
        decreases inner@.len() - i,
    {
        let ghost before = out@;
        let keep = !is_app_hook_exec(&inner[i]);
        if keep {
            out.push(inner[i].deep_clone());
        }
        proof {
            let t = views(inner@).take(i + 1);
            assert(t.drop_last() =~= views(inner@).take(i as int));
            assert(t.last() == inner@[i as int]@);
            lemma_views(out@);
            lemma_views(before);
            if keep {
                assert(views(out@) =~= views(before).push(inner@[i as int]@));
            } else {
                assert(views(out@) =~= views(before));
            }
        }
        i += 1;
    }
    assert(views(inner@).take(inner@.len() as int) =~= views(inner@));
    out
}

fn unmerge_group_exec(group: &Json) -> (r: Option<Json>)
    ensures
        match r {
            Some(g) => unmerge_group(group@) == Some(g@),
            None => unmerge_group(group@) is None,
        },
{
    match group {
        Json::Object(e) => {
            proof { lemma_entry_views(e@); }
            match find_entry(e, "hooks") {
                Some(k) => match &e[k].1 {
                    Json::Array(inner) => {
                        let kept = user_hooks_exec(inner);
                        proof { lemma_views(inner@); lemma_views(kept@); }
                        if inner.len() > 0 && kept.len() == 0 {
                            None
                        } else {
                            let mut e2 = clone_map(e);
                            entries_insert(&mut e2, "hooks".to_owned(), Json::Array(kept));
                            Some(Json::Object(e2))
                        }
                    },
                    _ => Some(group.deep_clone()),
                },
                None => Some(group.deep_clone()),
            }
        },
        _ => Some(group.deep_clone()),
    }
}

#[verifier::loop_isolation(false)]
fn unmerge_groups_exec(groups: &Vec<Json>) -> (r: Vec<Json>)
    ensures
        views(r@) == unmerge_groups(views(groups@)),
{
    proof { lemma_views(groups@); }
    let mut out: Vec<Json> = Vec::new();
    let mut i: usize = 0;
    while i < groups.len()
        invariant
            i <= groups@.len(),
            views(out@) == unmerge_groups(views(groups@).take(i as int)),
        decreases groups@.len() - i,
    {
        let ghost before = out@;
        let g = unmerge_group_exec(&groups[i]);
        let ghost pushed = g is Some;
        match g {
            Some(g) => { out.push(g); },
            None => {},
        }
        proof {
            let t = views(groups@).take(i + 1);
            assert(t.drop_last() =~= views(groups@).take(i as int));
            assert(t.last() == groups@[i as int]@);
            lemma_views(out@);
            lemma_views(before);
            if pushed {
                assert(views(out@) =~= views(before).push(out@.last()@));
            } else {
                assert(views(out@) =~= views(before));
            }
        }
        i += 1;
    }
    assert(views(groups@).take(groups@.len() as int) =~= views(groups@));
    out
}

/// Removes `key` when its member is an empty object.
fn drop_if_empty_object_exec(m: &mut JsonMap, key: &str)
    ensures
        entry_views(final(m)@) == drop_if_empty_object(entry_views(old(m)@), key@),
{
    proof { lemma_entry_views(m@); }
    let empty = match find_entry(m, key) {
        Some(i) => match &m[i].1 {
            Json::Object(e) => {
                proof { lemma_entry_views(e@); }
                e.len() == 0
            },
            _ => false,
        },
        None => false,
    };
    if empty {
        entries_remove(m, key);
    }
}

/// Whether `m[key]` is a non-empty object or array.
fn nonempty_member_exec(m: &JsonMap, key: &str) -> (r: bool)
    ensures
        r == nonempty_member(entry_views(m@), key@),
{
    proof { lemma_entry_views(m@); }
    match find_entry(m, key) {
        Some(i) => match &m[i].1 {
            Json::Object(e) => {
                proof { lemma_entry_views(e@); }
                e.len() > 0
            },
            Json::Array(a) => {
                proof { lemma_views(a@); }
                a.len() > 0
            },
            _ => false,
        },
        None => false,
    }
}

/// Removes `key` when its member is an empty array.
fn drop_if_empty_array_exec(m: &mut JsonMap, key: &str)
    ensures
        entry_views(final(m)@) == drop_if_empty_array(entry_views(old(m)@), key@),
{
    proof { lemma_entry_views(m@); }
    let empty = match find_entry(m, key) {
        Some(i) => match &m[i].1 {
            Json::Array(a) => {
                proof { lemma_views(a@); }
                a.len() == 0
            },
            _ => false,
        },
        None => false,
    };
    if empty {
        entries_remove(m, key);
    }
}

fn unmerge_hooks_exec(hooks: &JsonMap) -> (r: JsonMap)
    ensures
        entry_views(r@) == unmerge_hooks(entry_views(hooks@)),
{
    proof { lemma_entry_views(hooks@); }
    let had_groups = nonempty_member_exec(hooks, "SessionStart");
    let mut h = clone_map(hooks);
    match find_entry(hooks, "SessionStart") {
        Some(k) => match &hooks[k].1 {
            Json::Array(groups) => {
                let g2 = unmerge_groups_exec(groups);
                entries_insert(&mut h, "SessionStart".to_owned(), Json::Array(g2));
            },
            _ => {},
        },
        None => {},
    }
    if had_groups {
        drop_if_empty_array_exec(&mut h, "SessionStart");
    }
    h
}

/// Pure strict unmerge: a copy of `current` with only app-owned content
/// removed (see [`spec_apply_unmerge`]). Infallible.
pub fn apply_unmerge(current: &JsonMap) -> (r: JsonMap)
    requires
        wf(JsonV::Object(entry_views(current@))),
    ensures
        entry_views(r@) == spec_apply_unmerge(entry_views(current@)),
        wf(JsonV::Object(entry_views(r@))),
{
    proof { lemma_entry_views(current@); }
    let had_env = nonempty_member_exec(current, "env");
    let mut out = clone_map(current);
    match find_entry(current, "env") {
        Some(k) => match &current[k].1 {
            Json::Object(env) => {
                let mut env2 = clone_map(env);
                let ghost env0 = entry_views(env2@);
                let mut n: usize = 0;
                while n < 5
                    invariant
                        n <= 5,
                        entry_views(env2@) == unmerge_env(env0, n as nat),
                    decreases 5 - n,
                {
                    let (key, value) = app_env_pair(n);
                    if member_is_str(&env2, key, value) {
                        entries_remove(&mut env2, key);
                    }
                    n += 1;
                }
                entries_insert(&mut out, "env".to_owned(), Json::Object(env2));
            },
            _ => {},
        },
        None => {},
    }
    if had_env {
        drop_if_empty_object_exec(&mut out, "env");
    }
    proof { lemma_entry_views(out@); }
    let had_hooks = nonempty_member_exec(&out, "hooks");
    let hooks_pos = find_entry(&out, "hooks");
    match hooks_pos {
        Some(k) => {
            let new_hooks = match &out[k].1 {
                Json::Object(hooks) => Some(unmerge_hooks_exec(hooks)),
                _ => None,
            };
            match new_hooks {
                Some(h) => { entries_insert(&mut out, "hooks".to_owned(), Json::Object(h)); },
                None => {},
            }
        },
        None => {},
    }
    if had_hooks {
        drop_if_empty_object_exec(&mut out, "hooks");
    }
    proof { crate::merge_laws::law_unmerge_keeps_wf(entry_views(current@)); }
    out
}


/// Whether the app's config is fully installed: all five app env keys at
/// the app values and an app hook in `SessionStart`.
pub open spec fn spec_is_installed(cur: Entries) -> bool {
    let env_ok = match obj_get(cur, "env"@) {
        Some(JsonV::Object(env)) => forall|i: int| 0 <= i < 5 ==> obj_get(env, (#[trigger] app_env()[i]).0)
            == Some(JsonV::Str(app_env()[i].1)),
        _ => false,
    };
    let hook_ok = match obj_get(cur, "hooks"@) {
        Some(h) => match h.get("SessionStart"@) {
            Some(JsonV::Array(groups)) => has_app_group(groups),
            _ => false,
        },
        None => false,
    };
    env_ok && hook_ok
}

/// Whether the app's config is fully installed (see [`spec_is_installed`]).
#[verifier::loop_isolation(false)]
pub fn is_installed(current: &JsonMap) -> (r: bool)
    ensures
        r == spec_is_installed(entry_views(current@)),
{
    proof { lemma_entry_views(current@); }
    let env_ok = match find_entry(current, "env") {
        Some(k) => match &current[k].1 {
            Json::Object(env) => {
                let mut ok = true;
                let mut n: usize = 0;
                while n < 5
                    invariant
                        n <= 5,
                        ok == (forall|i: int| 0 <= i < n ==> obj_get(entry_views(env@), (#[trigger] app_env()[i]).0)
                            == Some(JsonV::Str(app_env()[i].1))),
                    decreases 5 - n,
                {
                    let (key, value) = app_env_pair(n);
                    if !member_is_str(env, key, value) {
                        ok = false;
                    }
                    n += 1;
                }
                ok
            },
            _ => false,
        },
        None => false,
    };
    let hook_ok = match find_entry(current, "hooks") {
        Some(k) => match current[k].1.get("SessionStart") {
            Some(Json::Array(groups)) => has_app_group_exec(groups),
            _ => false,
        },
        None => false,
    };
    env_ok && hook_ok
}

/// A pre-existing telemetry setting the merge would interact with.
#[derive(Debug, PartialEq)]
pub struct Conflict {
    /// The env key in conflict.
    pub key: String,
    /// The user's current value.
    pub existing: Json,
    /// The app value that would overwrite it; `None` for a telemetry key
    /// the app does not own.
    pub proposed: Option<String>,
}

impl View for Conflict {
    type V = (Seq<char>, JsonV, Option<Seq<char>>);

    open spec fn view(&self) -> (Seq<char>, JsonV, Option<Seq<char>>) {
        (self.key@, self.existing@, match self.proposed {
            Some(p) => Some(p@),
            None => None,
        })
    }
}

/// The app value for an app-owned key.
pub open spec fn app_value_for(key: Seq<char>) -> Option<Seq<char>> {
    if key == app_env()[0].0 {
        Some(app_env()[0].1)
    } else if key == app_env()[1].0 {
        Some(app_env()[1].1)
    } else if key == app_env()[2].0 {
        Some(app_env()[2].1)
    } else if key == app_env()[3].0 {
        Some(app_env()[3].1)
    } else if key == app_env()[4].0 {
        Some(app_env()[4].1)
    } else {
        None
    }
}

/// Telemetry keys the app does not own that signal an existing OTel setup:
/// `OTEL_*`, or `CLAUDE_CODE_*` containing `TELEMETRY`.
pub open spec fn is_foreign_telemetry_key(key: Seq<char>) -> bool {
    has_prefix(utf8(key), utf8("OTEL_"@)) || (has_prefix(utf8(key), utf8("CLAUDE_CODE_"@))
        && has_infix(utf8(key), utf8("TELEMETRY"@)))
}

/// The conflict one env entry raises, if any.
pub open spec fn conflict_of(entry: (Seq<char>, JsonV)) -> Option<(Seq<char>, JsonV, Option<Seq<char>>)> {
    match app_value_for(entry.0) {
        Some(v) => if entry.1 != JsonV::Str(v) { Some((entry.0, entry.1, Some(v))) } else { None },
        None => if is_foreign_telemetry_key(entry.0) { Some((entry.0, entry.1, None)) } else { None },
    }
}

/// The conflicts of an env object, in document order.
pub open spec fn conflicts_in(env: Entries) -> Seq<(Seq<char>, JsonV, Option<Seq<char>>)>
    decreases env.len(),
{
    if env.len() == 0 {
        Seq::empty()
    } else {
        let r = conflicts_in(env.drop_last());
        match conflict_of(env.last()) {
            Some(c) => r.push(c),
            None => r,
        }
    }
}

/// Pre-existing telemetry config: app-owned keys holding a different value,
/// and foreign telemetry keys. None without an `env` object.
pub open spec fn spec_detect_conflicts(cur: Entries) -> Seq<(Seq<char>, JsonV, Option<Seq<char>>)> {
    match obj_get(cur, "env"@) {
        Some(JsonV::Object(env)) => conflicts_in(env),
        _ => Seq::empty(),
    }
}

fn app_value_for_exec(key: &str) -> (r: Option<&'static str>)
    ensures
        match r {
            Some(v) => app_value_for(key@) == Some(v@),
            None => app_value_for(key@) is None,
        },
{
    let mut n: usize = 0;
    while n < 5
        invariant
            n <= 5,
            forall|i: int| 0 <= i < n ==> key@ != (#[trigger] app_env()[i]).0,
        decreases 5 - n,
    {
        let (k, v) = app_env_pair(n);
        if str_eq(key, k) {
            return Some(v);
        }
        n += 1;
    }
    None
}

fn is_foreign_telemetry_key_exec(key: &str) -> (r: bool)
    ensures
        r == is_foreign_telemetry_key(key@),
{
    str_starts_with(key, "OTEL_") || (str_starts_with(key, "CLAUDE_CODE_") && str_contains(key, "TELEMETRY"))
}

/// The values of a list of conflicts.
pub open spec fn conflicts_view(v: Seq<Conflict>) -> Seq<(Seq<char>, JsonV, Option<Seq<char>>)> {
    v.map_values(|c: Conflict| c@)
}

/// Whether a value is exactly the string `s`.
fn is_str_value(v: &Json, s: &str) -> (r: bool)
    ensures
        r == (v@ == JsonV::Str(s@)),
{
    match v {
        Json::Str(t) => str_eq(t.as_str(), s),
        _ => false,
    }
}

/// Pre-existing telemetry config the merge would collide with (see
/// [`spec_detect_conflicts`]), in `env` order. App-owned keys already at
/// the app value are not conflicts; hooks never are.
#[verifier::loop_isolation(false)]
pub fn detect_conflicts(current: &JsonMap) -> (r: Vec<Conflict>)
    ensures
        conflicts_view(r@) == spec_detect_conflicts(entry_views(current@)),
{
    proof { lemma_entry_views(current@); }
    let mut out: Vec<Conflict> = Vec::new();
    match find_entry(current, "env") {
        Some(k) => match &current[k].1 {
            Json::Object(env) => {
                proof { lemma_entry_views(env@); }
                let ghost ev = entry_views(env@);
                let mut i: usize = 0;
                while i < env.len()
                    invariant
                        i <= env@.len(),
                        conflicts_view(out@) == conflicts_in(ev.take(i as int)),
                    decreases env@.len() - i,
                {
                    let ghost before = out@;
                    let key = env[i].0.as_str();
                    match app_value_for_exec(key) {
                        Some(v) => {
                            if !is_str_value(&env[i].1, v) {
                                out.push(Conflict {
                                    key: env[i].0.clone(),
                                    existing: env[i].1.deep_clone(),
                                    proposed: Some(v.to_owned()),
                                });
                            }
                        },
                        None => {
                            if is_foreign_telemetry_key_exec(key) {
                                out.push(Conflict { key: env[i].0.clone(), existing: env[i].1.deep_clone(), proposed: None });
                            }
                        },
                    }
                    proof {
                        let t = ev.take(i + 1);
                        assert(t.drop_last() =~= ev.take(i as int));
                        assert(t.last() == ev[i as int]);
                        if out@.len() > before.len() {
                            assert(conflicts_view(out@) =~= conflicts_view(before).push(out@.last()@));
                        } else {
                            assert(out@ == before);
                        }
                    }
                    i += 1;
                }
                assert(ev.take(env@.len() as int) =~= ev);
            },
            _ => {},
        },
        None => {},
    }
    proof { assert(conflicts_view(Seq::<Conflict>::empty()) =~= Seq::empty()); }
    out
}


/// The value of a [`SettingsError`].
pub enum SettingsErrorV {
    Io(IoErrorKind, Seq<char>),
    Malformed(Seq<char>),
    UnexpectedShape(Seq<char>),
    BackupMissing(Seq<char>),
}

impl View for SettingsError {
    type V = SettingsErrorV;

    open spec fn view(&self) -> SettingsErrorV {
        match self {
            SettingsError::Io { kind, message } => SettingsErrorV::Io(*kind, message@),
            SettingsError::Malformed(m) => SettingsErrorV::Malformed(m@),
            SettingsError::UnexpectedShape(w) => SettingsErrorV::UnexpectedShape(w@),
            SettingsError::BackupMissing(p) => SettingsErrorV::BackupMissing(p@),
        }
    }
}

/// Reading a settings file: a missing (`None`) or whitespace-only file is
/// an empty object; malformed JSON and a non-object root are errors.
pub open spec fn spec_read_settings(contents: Option<Seq<char>>) -> Result<Entries, SettingsErrorV> {
    match contents {
        None => Ok(Seq::empty()),
        Some(text) => if all_space(text) {
            Ok(Seq::empty())
        } else {
            match json_from_str(text) {
                Err(m) => Err(SettingsErrorV::Malformed(m)),
                Ok(JsonV::Object(e)) => Ok(e),
                Ok(_) => Err(SettingsErrorV::UnexpectedShape("root"@)),
            }
        },
    }
}

/// Parses the settings file's contents (`None` when the file does not
/// exist). Read errors other than not-found are the caller's.
pub fn read_settings(contents: Option<&str>) -> (r: Result<JsonMap, SettingsError>)
    ensures
        match r {
            Ok(m) => spec_read_settings(opt_chars(contents)) == Ok::<Entries, SettingsErrorV>(entry_views(m@))
                && wf(JsonV::Object(entry_views(m@)))
                && forall|i: int, j: int| 0 <= i < j < m@.len() ==> (#[trigger] m@[i]).0@ != (#[trigger] m@[j]).0@,
            Err(e) => spec_read_settings(opt_chars(contents)) == Err::<Entries, SettingsErrorV>(e@),
        },
{
    match contents {
        None => {
            let m: JsonMap = Vec::new();
            proof { lemma_entry_views(m@); }
            assert(entry_views(m@) =~= Seq::<(Seq<char>, JsonV)>::empty());
            Ok(m)
        },
        Some(text) => {
            if is_blank(text) {
                let m: JsonMap = Vec::new();
                proof { lemma_entry_views(m@); }
                assert(entry_views(m@) =~= Seq::<(Seq<char>, JsonV)>::empty());
                return Ok(m);
            }
            match parse_json_str(text) {
                Err(msg) => Err(SettingsError::Malformed(msg)),
                Ok(Json::Object(e)) => {
                    proof {
                        lemma_entry_views(e@);
                        assert forall|i: int, j: int| 0 <= i < j < e@.len() implies (#[trigger] e@[i]).0@ != (#[trigger] e@[j]).0@ by {
                            assert(entry_views(e@)[i].0 == e@[i].0@);
                            assert(entry_views(e@)[j].0 == e@[j].0@);
                        }
                    }
                    Ok(e)
                },
                Ok(_) => Err(SettingsError::UnexpectedShape("root")),
            }
        },
    }
}

/// The bytes a rewrite puts on disk: the pretty-printed object and a
/// trailing newline.
pub open spec fn rendered(m: Entries) -> Seq<char> {
    json_to_string_pretty(JsonV::Object(m)) + "\n"@
}

/// Decides a rewrite: `None` when `target` equals `current` (no backup,
/// no write), otherwise the new file contents.
pub open spec fn rewrite_of(current: Entries, target: Entries) -> Option<Seq<char>> {
    if json_eq(JsonV::Object(target), JsonV::Object(current)) {
        None
    } else {
        Some(rendered(target))
    }
}

/// Read → merge → rewrite decision for the settings file.
pub open spec fn spec_merge_file(contents: Option<Seq<char>>) -> Result<Option<Seq<char>>, SettingsErrorV> {
    match spec_read_settings(contents) {
        Err(e) => Err(e),
        Ok(cur) => match spec_apply_merge(cur) {
            Err(site) => Err(SettingsErrorV::UnexpectedShape(site)),
            Ok(m) => Ok(rewrite_of(cur, m)),
        },
    }
}

/// Read → unmerge → rewrite decision for the settings file.
pub open spec fn spec_unmerge_file(contents: Option<Seq<char>>) -> Result<Option<Seq<char>>, SettingsErrorV> {
    match spec_read_settings(contents) {
        Err(e) => Err(e),
        Ok(cur) => Ok(rewrite_of(cur, spec_apply_unmerge(cur))),
    }
}

fn rewrite_decision(current: &JsonMap, target: JsonMap) -> (r: Option<String>)
    ensures
        match r {
            Some(t) => rewrite_of(entry_views(current@), entry_views(target@)) == Some(t@),
            None => rewrite_of(entry_views(current@), entry_views(target@)) is None,
        },
{
    let t = Json::Object(target);
    let c = Json::Object(clone_map(current));
    if json_equal(&t, &c) {
        None
    } else {
        let mut out = render_pretty(&t);
        let out2 = cat(out.as_str(), "\n");
        Some(out2)
    }
}

/// The compute half of merging the settings file: given its contents
/// (`None` when missing), the new contents to back up and write, or
/// `None` when it already is in the merged state. Any parse or shape
/// error comes back before anything is written.
pub fn merge_file(contents: Option<&str>) -> (r: Result<Option<String>, SettingsError>)
    ensures
        match r {
            Ok(Some(t)) => spec_merge_file(opt_chars(contents)) == Ok::<Option<Seq<char>>, SettingsErrorV>(Some(t@)),
            Ok(None) => spec_merge_file(opt_chars(contents)) == Ok::<Option<Seq<char>>, SettingsErrorV>(None),
            Err(e) => spec_merge_file(opt_chars(contents)) == Err::<Option<Seq<char>>, SettingsErrorV>(e@),
        },
{
    let current = read_settings(contents)?;
    let merged = match apply_merge(&current) {
        Ok(m) => m,
        Err(e) => { return Err(e); },
    };
    Ok(rewrite_decision(&current, merged))
}

/// The compute half of unmerging the settings file: the new contents to
/// back up and write, or `None` when nothing app-owned is present
/// (including a missing file). Malformed JSON is an error.
pub fn unmerge_file(contents: Option<&str>) -> (r: Result<Option<String>, SettingsError>)
    ensures
        match r {
            Ok(Some(t)) => spec_unmerge_file(opt_chars(contents)) == Ok::<Option<Seq<char>>, SettingsErrorV>(Some(t@)),
            Ok(None) => spec_unmerge_file(opt_chars(contents)) == Ok::<Option<Seq<char>>, SettingsErrorV>(None),
            Err(e) => spec_unmerge_file(opt_chars(contents)) == Err::<Option<Seq<char>>, SettingsErrorV>(e@),
        },
{
    let current = read_settings(contents)?;
    let unmerged = apply_unmerge(&current);
    Ok(rewrite_decision(&current, unmerged))
}

/// The display text of an error.
pub open spec fn error_text(e: SettingsErrorV) -> Seq<char> {
    match e {
        SettingsErrorV::Io(_, m) => "settings.json io error: "@ + m,
        SettingsErrorV::Malformed(m) => "settings.json is not valid JSON (refusing to write): "@ + m,
        SettingsErrorV::UnexpectedShape(w) => "settings.json has an unexpected shape at `"@ + w + "` (refusing to write)"@,
        SettingsErrorV::BackupMissing(p) => "backup file not found: "@ + p,
    }
}

impl SettingsError {
    /// The error's display text.
    pub fn to_text(&self) -> (r: String)
        ensures
            r@ == error_text(self@),
    {
        match self {
            SettingsError::Io { kind: _, message } => cat("settings.json io error: ", message.as_str()),
            SettingsError::Malformed(m) => cat("settings.json is not valid JSON (refusing to write): ", m.as_str()),
            SettingsError::UnexpectedShape(w) => cat3("settings.json has an unexpected shape at `", w, "` (refusing to write)"),
            SettingsError::BackupMissing(p) => cat("backup file not found: ", p.as_str()),
        }
    }
}

/// A settings error for the UI: the error text, the file path, and where
/// the error kind admits one, a remediation hint.
pub open spec fn describe(e: SettingsErrorV, path: Seq<char>) -> Seq<char> {
    let base = error_text(e) + " (file: "@ + path + ")"@;
    match e {
        SettingsErrorV::Io(IoErrorKind::PermissionDenied, _) => base
            + ". This app does not have permission to access the file; check its permissions (e.g. `chmod u+rw` it) and that the containing folder is accessible."@,
        SettingsErrorV::Io(IoErrorKind::StorageFull, _) => base
            + ". The disk is full; free up space and try again. The previous file contents are intact (writes are atomic and happen after a backup)."@,
        SettingsErrorV::Malformed(_) => base
            + ". Fix the JSON syntax (or restore one of the timestamped backups) and try again; the file has not been modified."@,
        _ => base,
    }
}

/// Renders a [`SettingsError`] for the UI with the file path and a
/// remediation hint where the error kind admits one.
pub fn describe_settings_error(err: &SettingsError, path: &str) -> (r: String)
    ensures
        r@ == describe(err@, path@),
{
    let text = err.to_text();
    let base = cat3(text.as_str(), " (file: ", path);
    let base = cat(base.as_str(), ")");
    match err {
        SettingsError::Io { kind: IoErrorKind::PermissionDenied, message: _ } => cat(base.as_str(),
            ". This app does not have permission to access the file; check its permissions (e.g. `chmod u+rw` it) and that the containing folder is accessible."),
        SettingsError::Io { kind: IoErrorKind::StorageFull, message: _ } => cat(base.as_str(),
            ". The disk is full; free up space and try again. The previous file contents are intact (writes are atomic and happen after a backup)."),
        SettingsError::Malformed(_) => cat(base.as_str(),
            ". Fix the JSON syntax (or restore one of the timestamped backups) and try again; the file has not been modified."),
        _ => base,
    }
}


/// What a merge or unmerge did to the file.
#[derive(Debug, Clone, PartialEq, Eq)]
pub struct ApplyOutcome {
    /// Whether settings.json was rewritten.
    pub changed: bool,
    /// The backup taken before the rewrite; `None` when nothing existed
    /// to back up (or nothing was written).
    pub backup_path: Option<String>,
}

/// The name of the `n`-th backup candidate for a timestamp: the plain
/// name first, then `-1`, `-2`, ... for same-instant collisions.
pub open spec fn spec_backup_file_name(stamp: Seq<char>, n: nat) -> Seq<char> {
    if n == 0 {
        "settings-"@ + stamp + ".json"@
    } else {
        "settings-"@ + stamp + "-"@ + crate::text::decimal_text(n) + ".json"@
    }
}

/// Backup file name candidate `n` (see [`spec_backup_file_name`]); the
/// caller takes the first one that does not exist yet.
pub fn backup_file_name(stamp: &str, n: u64) -> (r: String)
    ensures
        r@ == spec_backup_file_name(stamp@, n as nat),
{
    if n == 0 {
        cat3("settings-", stamp, ".json")
    } else {
        let mut out = cat3("settings-", stamp, "-");
        vstd::string::StringExecFns::append(&mut out, crate::text::decimal(n).as_str());
        vstd::string::StringExecFns::append(&mut out, ".json");
        out
    }
}

} // verus!
