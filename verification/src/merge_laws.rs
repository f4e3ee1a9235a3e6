//! Properties of the settings merge that hold across calls: what a merge
//! installs, that it is idempotent, that merge and strict unmerge touch
//! nothing the user owns, that the unmerge of a merge restores the
//! settings, and that backups never overwrite one another.
use vstd::prelude::*;
use vstd::utf8::encode_utf8;
use crate::json::{JsonV, Entries, obj_get, obj_insert, obj_remove, find_key, keys_unique, lemma_find_key, lemma_find_key_result, lemma_insert_get_same, lemma_insert_get_other, lemma_insert_existing, lemma_insert_unique, lemma_remove_unique, lemma_remove_get_other};
use crate::settings::{APP_HOOK_MARKER, SESSION_HOOK_COMMAND, app_env, app_hook_group, is_app_hook, group_has_app_hook, has_app_group, merge_env, object_or_empty, array_or_empty, spec_apply_merge, spec_is_installed, unmerge_env, user_hooks, unmerge_group, unmerge_groups, unmerge_hooks, drop_if_empty_object, spec_apply_unmerge, nonempty_member};
use crate::text::{has_infix, has_prefix, utf8, decimal_text, lemma_decimal_len, lemma_decimal_injective};
use crate::json::{wf, lemma_json_eq_refl, lemma_insert_wf, lemma_get_wf, lemma_seq_wf, lemma_remove_wf};
use crate::settings::{drop_if_empty_array, spec_read_settings, spec_merge_file, spec_unmerge_file, SettingsErrorV, spec_backup_file_name, rendered};
use crate::json::{json_eq, entries_within};
use crate::settings::{conflict_of, conflicts_in, spec_detect_conflicts, app_value_for};

verus! {

proof fn lemma_utf8_concat(a: Seq<char>, b: Seq<char>)
    ensures
        encode_utf8(a + b) == encode_utf8(a) + encode_utf8(b),
    decreases a.len(),
{
    if a.len() == 0 {
        assert(a + b =~= b);
        assert(encode_utf8(a) =~= Seq::<u8>::empty());
        assert(encode_utf8(a) + encode_utf8(b) =~= encode_utf8(b));
    } else {
        assert((a + b).drop_first() =~= a.drop_first() + b);
        assert((a + b)[0] == a[0]);
        lemma_utf8_concat(a.drop_first(), b);
        assert(encode_utf8(a + b) =~= encode_utf8(a) + encode_utf8(b));
    }
}

/// The literal facts the laws rest on: the app env keys are distinct, and
/// the app hook command carries the app marker.
proof fn lemma_literals()
    ensures
        forall|i: int, j: int| 0 <= i < j < 5 ==> (#[trigger] app_env()[i]).0 != (#[trigger] app_env()[j]).0,
        "env"@ != "hooks"@,
        has_infix(utf8(SESSION_HOOK_COMMAND@), utf8(APP_HOOK_MARKER@)),
{
    broadcast use vstd::string::group_string_axioms;
    reveal_strlit("CLAUDE_CODE_ENABLE_TELEMETRY");
    reveal_strlit("OTEL_LOGS_EXPORTER");
    reveal_strlit("OTEL_EXPORTER_OTLP_PROTOCOL");
    reveal_strlit("OTEL_EXPORTER_OTLP_LOGS_PROTOCOL");
    reveal_strlit("OTEL_EXPORTER_OTLP_LOGS_ENDPOINT");
    reveal_strlit("env");
    reveal_strlit("hooks");
    assert("env"@.len() == 3 && "hooks"@.len() == 5);
    assert(app_env()[0].0.len() == 28 && app_env()[1].0.len() == 18 && app_env()[2].0.len() == 27);
    assert(app_env()[3].0.len() == 32 && app_env()[4].0.len() == 32);
    assert(app_env()[3].0[24] != app_env()[4].0[24]);
    let p0 = "curl -s -m 2 -X POST -H 'Content-Type: application/json' --data-binary @- "@;
    let p1 = " >/dev/null 2>&1 || true"@;
    reveal_strlit("curl -s -m 2 -X POST -H 'Content-Type: application/json' --data-binary @- ");
    reveal_strlit(" >/dev/null 2>&1 || true");
    reveal_strlit("http://127.0.0.1:43177/session");
    reveal_strlit("curl -s -m 2 -X POST -H 'Content-Type: application/json' --data-binary @- http://127.0.0.1:43177/session >/dev/null 2>&1 || true");
    let m = APP_HOOK_MARKER@;
    assert(SESSION_HOOK_COMMAND@ =~= p0 + m + p1);
    lemma_utf8_concat(p0 + m, p1);
    lemma_utf8_concat(p0, m);
    let c = utf8(SESSION_HOOK_COMMAND@);
    let i = encode_utf8(p0).len() as int;
    assert(c.subrange(i, i + utf8(m).len()) =~= utf8(m));
}

/// The app hook group counts as one holding an app hook.
proof fn lemma_app_group_is_app()
    ensures
        group_has_app_hook(app_hook_group()),
{
    lemma_literals();
    let hook = JsonV::Object(seq![("type"@, JsonV::Str("command"@)), ("command"@, JsonV::Str(SESSION_HOOK_COMMAND@))]);
    let he = seq![("type"@, JsonV::Str("command"@)), ("command"@, JsonV::Str(SESSION_HOOK_COMMAND@))];
    reveal_strlit("type");
    reveal_strlit("command");
    assert("type"@.len() == 4 && "command"@.len() == 7);
    lemma_find_key(he, "command"@, 1);
    assert(is_app_hook(hook));
    let ge = seq![("hooks"@, JsonV::Array(seq![hook]))];
    lemma_find_key(ge, "hooks"@, 0);
    assert(app_hook_group() == JsonV::Object(ge));
    assert(JsonV::Object(ge).get("hooks"@) == Some(JsonV::Array(seq![hook])));
    let inner = seq![hook];
    assert(inner[0] == hook);
    assert(is_app_hook(inner[0]));
    assert(exists|i: int| 0 <= i < inner.len() && is_app_hook(#[trigger] inner[i]));
    let g = JsonV::Object(ge);
    match g.get("hooks"@) {
        Some(JsonV::Array(inn)) => {
            assert(inn == inner);
            assert(is_app_hook(inn[0]));
        },
        _ => { assert(false); },
    }
    assert(group_has_app_hook(g));
}

/// After setting the first `n` app keys, each of them holds its app value,
/// and the keys stay distinct.
proof fn lemma_merge_env_holds(env: Entries, n: nat)
    requires
        n <= 5,
    ensures
        forall|i: int| 0 <= i < n ==> obj_get(merge_env(env, n), (#[trigger] app_env()[i]).0)
            == Some(JsonV::Str(app_env()[i].1)),
        keys_unique(env) ==> keys_unique(merge_env(env, n)),
    decreases n,
{
    if n > 0 {
        lemma_literals();
        lemma_merge_env_holds(env, (n - 1) as nat);
        let prev = merge_env(env, (n - 1) as nat);
        let k = app_env()[n - 1].0;
        let v = JsonV::Str(app_env()[n - 1].1);
        lemma_insert_get_same(prev, k, v);
        assert forall|i: int| 0 <= i < n implies obj_get(merge_env(env, n), (#[trigger] app_env()[i]).0)
            == Some(JsonV::Str(app_env()[i].1)) by {
            if i < n - 1 {
                lemma_insert_get_other(prev, k, v, app_env()[i].0);
            }
        }
        if keys_unique(env) {
            lemma_insert_unique(prev, k, v);
        }
    }
}

/// Setting the app keys in an env that already holds them changes nothing.
proof fn lemma_merge_env_noop(env: Entries, n: nat)
    requires
        n <= 5,
        forall|i: int| 0 <= i < 5 ==> obj_get(env, (#[trigger] app_env()[i]).0) == Some(JsonV::Str(app_env()[i].1)),
    ensures
        merge_env(env, n) == env,
    decreases n,
{
    if n > 0 {
        lemma_merge_env_noop(env, (n - 1) as nat);
        let i = n - 1;
        assert(obj_get(env, app_env()[i].0) == Some(JsonV::Str(app_env()[i].1)));
        lemma_insert_existing(env, app_env()[i].0, JsonV::Str(app_env()[i].1));
    }
}

/// A successful merge leaves the app config fully installed.
pub proof fn law_merge_installs(cur: Entries)
    requires
        spec_apply_merge(cur) is Ok,
    ensures
        spec_is_installed(spec_apply_merge(cur)->Ok_0),
{
    lemma_literals();
    lemma_app_group_is_app();
    let env = object_or_empty(obj_get(cur, "env"@)).unwrap();
    let e5 = merge_env(env, 5);
    lemma_merge_env_holds(env, 5);
    let out1 = obj_insert(cur, "env"@, JsonV::Object(e5));
    lemma_insert_get_same(cur, "env"@, JsonV::Object(e5));
    lemma_insert_get_other(cur, "env"@, JsonV::Object(e5), "hooks"@);
    let hooks = object_or_empty(obj_get(out1, "hooks"@)).unwrap();
    let groups = array_or_empty(obj_get(hooks, "SessionStart"@)).unwrap();
    let groups2 = if has_app_group(groups) { groups } else { groups.push(app_hook_group()) };
    if !has_app_group(groups) {
        assert(groups2[groups.len() as int] == app_hook_group());
    }
    assert(has_app_group(groups2));
    let h2 = obj_insert(hooks, "SessionStart"@, JsonV::Array(groups2));
    lemma_insert_get_same(hooks, "SessionStart"@, JsonV::Array(groups2));
    let y = obj_insert(out1, "hooks"@, JsonV::Object(h2));
    assert(spec_apply_merge(cur) == Ok::<Entries, Seq<char>>(y));
    lemma_insert_get_same(out1, "hooks"@, JsonV::Object(h2));
    lemma_insert_get_other(out1, "hooks"@, JsonV::Object(h2), "env"@);
    assert(JsonV::Object(h2).get("SessionStart"@) == Some(JsonV::Array(groups2)));
}

/// Merging a file that is already fully installed changes nothing.
pub proof fn law_merge_installed_is_noop(cur: Entries)
    requires
        spec_is_installed(cur),
    ensures
        spec_apply_merge(cur) == Ok::<Entries, Seq<char>>(cur),
{
    lemma_literals();
    let env = match obj_get(cur, "env"@) { Some(JsonV::Object(e)) => e, _ => Seq::empty() };
    lemma_merge_env_noop(env, 5);
    lemma_insert_existing(cur, "env"@, JsonV::Object(env));
    let h = obj_get(cur, "hooks"@).unwrap();
    let hooks = match h { JsonV::Object(e) => e, _ => Seq::empty() };
    let groups = match obj_get(hooks, "SessionStart"@) { Some(JsonV::Array(g)) => g, _ => Seq::empty() };
    lemma_insert_existing(hooks, "SessionStart"@, JsonV::Array(groups));
    lemma_insert_existing(cur, "hooks"@, JsonV::Object(hooks));
}

/// Merging twice is merging once.
pub proof fn law_merge_idempotent(cur: Entries)
    requires
        spec_apply_merge(cur) is Ok,
    ensures
        spec_apply_merge(spec_apply_merge(cur)->Ok_0) == spec_apply_merge(cur),
{
    law_merge_installs(cur);
    law_merge_installed_is_noop(spec_apply_merge(cur)->Ok_0);
}


/// Setting the app keys in an empty env lists them in order.
proof fn lemma_merge_env_empty(n: nat)
    requires
        n <= 5,
    ensures
        merge_env(Seq::empty(), n) =~= Seq::new(n, |i: int| (app_env()[i].0, JsonV::Str(app_env()[i].1))),
    decreases n,
{
    if n > 0 {
        lemma_literals();
        lemma_merge_env_empty((n - 1) as nat);
        let prev = merge_env(Seq::empty(), (n - 1) as nat);
        let k = app_env()[n - 1].0;
        assert forall|j: int| 0 <= j < prev.len() implies (#[trigger] prev[j]).0 != k by {
            assert(prev[j].0 == app_env()[j].0);
        }
        lemma_find_key(prev, k, prev.len() as int);
    }
}

/// Unmerging an env that holds exactly the app keys at their app values
/// empties it.
proof fn lemma_unmerge_env_all(e: Entries, m: nat)
    requires
        m <= 5,
        keys_unique(e),
        e.len() == 5,
        forall|i: int| 0 <= i < 5 ==> obj_get(e, (#[trigger] app_env()[i]).0) == Some(JsonV::Str(app_env()[i].1)),
    ensures
        keys_unique(unmerge_env(e, m)),
        unmerge_env(e, m).len() == 5 - m,
        forall|i: int| m <= i < 5 ==> obj_get(unmerge_env(e, m), (#[trigger] app_env()[i]).0)
            == Some(JsonV::Str(app_env()[i].1)),
    decreases m,
{
    if m > 0 {
        lemma_literals();
        lemma_unmerge_env_all(e, (m - 1) as nat);
        let u = unmerge_env(e, (m - 1) as nat);
        let k = app_env()[m - 1].0;
        assert(obj_get(u, k) == Some(JsonV::Str(app_env()[m - 1].1)));
        lemma_find_key_result(u, k);
        lemma_remove_unique(u, k);
        assert forall|i: int| m <= i < 5 implies obj_get(unmerge_env(e, m), (#[trigger] app_env()[i]).0)
            == Some(JsonV::Str(app_env()[i].1)) by {
            lemma_remove_get_other(u, k, app_env()[i].0);
        }
    }
}

/// The strict unmerge undoes a merge of a settings object that had
/// neither an `env` nor a `hooks` member: the result is the original,
/// entry for entry and in order.
pub proof fn law_unmerge_undoes_merge(cur: Entries)
    requires
        find_key(cur, "env"@) is None,
        find_key(cur, "hooks"@) is None,
    ensures
        spec_apply_merge(cur) is Ok,
        spec_apply_unmerge(spec_apply_merge(cur)->Ok_0) == cur,
{
    lemma_literals();
    lemma_app_group_is_app();
    let n = cur.len() as int;
    // the merge
    let e5 = merge_env(Seq::empty(), 5);
    lemma_merge_env_empty(5);
    lemma_merge_env_holds(Seq::empty(), 5);
    let out1 = obj_insert(cur, "env"@, JsonV::Object(e5));
    assert(out1 == cur.push(("env"@, JsonV::Object(e5))));
    lemma_insert_get_other(cur, "env"@, JsonV::Object(e5), "hooks"@);
    let groups2 = Seq::<JsonV>::empty().push(app_hook_group());
    let ss = "SessionStart"@;
    let h2 = obj_insert(Seq::<(Seq<char>, JsonV)>::empty(), ss, JsonV::Array(groups2));
    assert(h2 =~= seq![(ss, JsonV::Array(groups2))]);
    let y = obj_insert(out1, "hooks"@, JsonV::Object(h2));
    assert(y == out1.push(("hooks"@, JsonV::Object(h2))));
    assert(spec_apply_merge(cur) == Ok::<Entries, Seq<char>>(y));
    // the unmerge: env
    assert forall|j: int| 0 <= j < n implies (#[trigger] y[j]).0 != "env"@ by {
        lemma_find_key_result(cur, "env"@);
        assert(y[j] == cur[j]);
    }
    lemma_find_key(y, "env"@, n);
    assert(obj_get(y, "env"@) == Some(JsonV::Object(e5)));
    lemma_unmerge_env_all(e5, 5);
    let u5 = unmerge_env(e5, 5);
    assert(u5 =~= Seq::<(Seq<char>, JsonV)>::empty());
    let o1 = obj_insert(y, "env"@, JsonV::Object(u5));
    assert(o1 == y.update(n, ("env"@, JsonV::Object(u5))));
    lemma_find_key(o1, "env"@, n);
    let o2 = drop_if_empty_object(o1, "env"@);
    assert(o2 =~= cur.push(("hooks"@, JsonV::Object(h2))));
    // the unmerge: hooks
    assert forall|j: int| 0 <= j < n implies (#[trigger] o2[j]).0 != "hooks"@ by {
        lemma_find_key_result(cur, "hooks"@);
        assert(o2[j] == cur[j]);
    }
    lemma_find_key(o2, "hooks"@, n);
    assert(obj_get(o2, "hooks"@) == Some(JsonV::Object(h2)));
    lemma_find_key(h2, ss, 0);
    // the app group is dropped entirely
    let hook = JsonV::Object(seq![("type"@, JsonV::Str("command"@)), ("command"@, JsonV::Str(SESSION_HOOK_COMMAND@))]);
    let inner = seq![hook];
    let ge = seq![("hooks"@, JsonV::Array(inner))];
    assert(app_hook_group() == JsonV::Object(ge));
    lemma_find_key(ge, "hooks"@, 0);
    match JsonV::Object(ge).get("hooks"@) {
        Some(JsonV::Array(inn)) => {
            assert(inn == inner);
            assert(group_has_app_hook(JsonV::Object(ge)));
            assert(is_app_hook(inn[0]));
        },
        _ => {},
    }
    assert(is_app_hook(hook));
    assert(inner.drop_last() =~= Seq::<JsonV>::empty());
    assert(user_hooks(inner.drop_last()) =~= Seq::<JsonV>::empty());
    assert(inner.last() == hook);
    assert(user_hooks(inner) =~= Seq::<JsonV>::empty());
    assert(unmerge_group(app_hook_group()) is None);
    assert(groups2.drop_last() =~= Seq::<JsonV>::empty());
    assert(unmerge_groups(groups2.drop_last()) =~= Seq::<JsonV>::empty());
    assert(groups2.last() == app_hook_group());
    assert(unmerge_groups(groups2) =~= Seq::<JsonV>::empty());
    let h1 = obj_insert(h2, ss, JsonV::Array(Seq::empty()));
    assert(h1 =~= seq![(ss, JsonV::Array(Seq::empty()))]);
    lemma_find_key(h1, ss, 0);
    assert(unmerge_hooks(h2) =~= Seq::<(Seq<char>, JsonV)>::empty());
    let o3 = obj_insert(o2, "hooks"@, JsonV::Object(Seq::empty()));
    assert(o3 == o2.update(n, ("hooks"@, JsonV::Object(Seq::empty()))));
    lemma_find_key(o3, "hooks"@, n);
    assert(drop_if_empty_object(o3, "hooks"@) =~= cur);
}


/// Merging a settings file that is already fully installed neither backs
/// up nor writes anything.
pub proof fn law_merge_file_is_noop_when_installed(contents: Option<Seq<char>>)
    requires
        spec_read_settings(contents) matches Ok(cur) && wf(JsonV::Object(cur)) && spec_is_installed(cur),
    ensures
        spec_merge_file(contents) == Ok::<Option<Seq<char>>, SettingsErrorV>(None),
{
    let cur = spec_read_settings(contents)->Ok_0;
    law_merge_installed_is_noop(cur);
    lemma_json_eq_refl(JsonV::Object(cur));
}

/// The `env` object of a settings object (empty when absent or not an
/// object).
pub open spec fn env_of(m: Entries) -> Entries {
    match obj_get(m, "env"@) {
        Some(JsonV::Object(e)) => e,
        _ => Seq::empty(),
    }
}

/// The `hooks` object of a settings object (empty when absent or not an
/// object).
pub open spec fn hooks_of(m: Entries) -> Entries {
    match obj_get(m, "hooks"@) {
        Some(JsonV::Object(e)) => e,
        _ => Seq::empty(),
    }
}

/// The `hooks.SessionStart` groups of a settings object (empty when absent
/// or not an array).
pub open spec fn session_groups(m: Entries) -> Seq<JsonV> {
    match obj_get(hooks_of(m), "SessionStart"@) {
        Some(JsonV::Array(g)) => g,
        _ => Seq::empty(),
    }
}

/// Whether `k` is none of the five app env keys.
pub open spec fn is_user_env_key(k: Seq<char>) -> bool {
    forall|i: int| 0 <= i < 5 ==> (#[trigger] app_env()[i]).0 != k
}

/// Setting app keys leaves every other key of `env` as it was.
proof fn lemma_merge_env_other(env: Entries, n: nat, k: Seq<char>)
    requires
        n <= 5,
        is_user_env_key(k),
    ensures
        obj_get(merge_env(env, n), k) == obj_get(env, k),
    decreases n,
{
    if n > 0 {
        lemma_merge_env_other(env, (n - 1) as nat, k);
        assert(app_env()[n - 1].0 != k);
        lemma_insert_get_other(merge_env(env, (n - 1) as nat), app_env()[n - 1].0, JsonV::Str(app_env()[n - 1].1), k);
    }
}

/// The merged object, the `env` it holds, the `hooks` it holds and the
/// `SessionStart` groups in those, spelled out.
proof fn lemma_merge_parts(cur: Entries)
    requires
        spec_apply_merge(cur) is Ok,
    ensures
        ({
            let y = spec_apply_merge(cur)->Ok_0;
            let groups = session_groups(cur);
            &&& object_or_empty(obj_get(cur, "env"@)) == Some(env_of(cur))
            &&& object_or_empty(obj_get(cur, "hooks"@)) == Some(hooks_of(cur))
            &&& array_or_empty(obj_get(hooks_of(cur), "SessionStart"@)) == Some(groups)
            &&& env_of(y) == merge_env(env_of(cur), 5)
            &&& hooks_of(y) == obj_insert(hooks_of(cur), "SessionStart"@, JsonV::Array(
                    if has_app_group(groups) { groups } else { groups.push(app_hook_group()) }))
            &&& forall|k: Seq<char>| k != "env"@ && k != "hooks"@ ==> #[trigger] obj_get(y, k) == obj_get(cur, k)
        }),
{
    lemma_literals();
    let env = object_or_empty(obj_get(cur, "env"@)).unwrap();
    let e5 = merge_env(env, 5);
    let out1 = obj_insert(cur, "env"@, JsonV::Object(e5));
    lemma_insert_get_same(cur, "env"@, JsonV::Object(e5));
    lemma_insert_get_other(cur, "env"@, JsonV::Object(e5), "hooks"@);
    let hooks = object_or_empty(obj_get(out1, "hooks"@)).unwrap();
    let groups = array_or_empty(obj_get(hooks, "SessionStart"@)).unwrap();
    let groups2 = if has_app_group(groups) { groups } else { groups.push(app_hook_group()) };
    let h2 = obj_insert(hooks, "SessionStart"@, JsonV::Array(groups2));
    let y = obj_insert(out1, "hooks"@, JsonV::Object(h2));
    assert(spec_apply_merge(cur) == Ok::<Entries, Seq<char>>(y));
    lemma_insert_get_same(out1, "hooks"@, JsonV::Object(h2));
    lemma_insert_get_other(out1, "hooks"@, JsonV::Object(h2), "env"@);
    assert forall|k: Seq<char>| k != "env"@ && k != "hooks"@ implies #[trigger] obj_get(y, k) == obj_get(cur, k) by {
        lemma_insert_get_other(cur, "env"@, JsonV::Object(e5), k);
        lemma_insert_get_other(out1, "hooks"@, JsonV::Object(h2), k);
    }
}

/// The merge adds to `env` and `hooks` only: every other top-level member
/// of the settings keeps its value.
pub proof fn law_merge_preserves_other_members(cur: Entries, k: Seq<char>)
    requires
        spec_apply_merge(cur) is Ok,
        k != "env"@,
        k != "hooks"@,
    ensures
        obj_get(spec_apply_merge(cur)->Ok_0, k) == obj_get(cur, k),
{
    lemma_merge_parts(cur);
}

/// Inside `env` the merge touches only the five app keys: every other key
/// keeps its value (or stays absent).
pub proof fn law_merge_preserves_user_env(cur: Entries, k: Seq<char>)
    requires
        spec_apply_merge(cur) is Ok,
        is_user_env_key(k),
    ensures
        obj_get(env_of(spec_apply_merge(cur)->Ok_0), k) == obj_get(env_of(cur), k),
{
    lemma_merge_parts(cur);
    lemma_merge_env_other(env_of(cur), 5, k);
}

/// Inside `hooks` the merge touches only `SessionStart`, and there it only
/// appends: the existing groups stay first, verbatim and in order, and at
/// most the app group follows them. Every other hook event keeps its value.
pub proof fn law_merge_keeps_user_hooks(cur: Entries, k: Seq<char>)
    requires
        spec_apply_merge(cur) is Ok,
        k != "SessionStart"@,
    ensures
        obj_get(hooks_of(spec_apply_merge(cur)->Ok_0), k) == obj_get(hooks_of(cur), k),
        session_groups(cur).is_prefix_of(session_groups(spec_apply_merge(cur)->Ok_0)),
        session_groups(spec_apply_merge(cur)->Ok_0).len() <= session_groups(cur).len() + 1,
{
    lemma_merge_parts(cur);
    let groups = session_groups(cur);
    let groups2 = if has_app_group(groups) { groups } else { groups.push(app_hook_group()) };
    lemma_insert_get_same(hooks_of(cur), "SessionStart"@, JsonV::Array(groups2));
    lemma_insert_get_other(hooks_of(cur), "SessionStart"@, JsonV::Array(groups2), k);
    assert(session_groups(spec_apply_merge(cur)->Ok_0) == groups2);
    assert(groups.is_prefix_of(groups2));
}

/// Removing the app keys still at their app values keeps every key whose
/// value is not its app value, with that value, and keeps keys distinct.
proof fn lemma_unmerge_env_keeps(env: Entries, n: nat, k: Seq<char>, v: JsonV)
    requires
        n <= 5,
        keys_unique(env),
        obj_get(env, k) == Some(v),
        forall|i: int| 0 <= i < 5 && (#[trigger] app_env()[i]).0 == k ==> v != JsonV::Str(app_env()[i].1),
    ensures
        keys_unique(unmerge_env(env, n)),
        obj_get(unmerge_env(env, n), k) == Some(v),
    decreases n,
{
    if n > 0 {
        lemma_unmerge_env_keeps(env, (n - 1) as nat, k, v);
        let e = unmerge_env(env, (n - 1) as nat);
        let p = app_env()[n - 1];
        if obj_get(e, p.0) == Some(JsonV::Str(p.1)) {
            assert(p.0 != k);
            lemma_remove_unique(e, p.0);
            lemma_remove_get_other(e, p.0, k);
        }
    }
}

/// A key that an object holds makes it non-empty.
proof fn lemma_get_nonempty(e: Entries, k: Seq<char>)
    requires
        obj_get(e, k) is Some,
    ensures
        e.len() > 0,
{
    lemma_find_key_result(e, k);
}

/// The strict unmerge, step by step: what it keeps of `cur` outside `env`
/// and `hooks`, and what `env` it leaves.
proof fn lemma_unmerge_parts(cur: Entries)
    requires
        keys_unique(cur),
    ensures
        forall|k: Seq<char>| k != "env"@ && k != "hooks"@ ==> #[trigger] obj_get(spec_apply_unmerge(cur), k) == obj_get(cur, k),
        ({
            let out1 = match obj_get(cur, "env"@) {
                Some(JsonV::Object(env)) => obj_insert(cur, "env"@, JsonV::Object(unmerge_env(env, 5))),
                _ => cur,
            };
            let out2 = if nonempty_member(cur, "env"@) { drop_if_empty_object(out1, "env"@) } else { out1 };
            obj_get(spec_apply_unmerge(cur), "env"@) == obj_get(out2, "env"@)
        }),
        forall|h: Entries| obj_get(cur, "hooks"@) == Some(JsonV::Object(h)) && #[trigger] unmerge_hooks(h).len() > 0
            ==> obj_get(spec_apply_unmerge(cur), "hooks"@) == Some(JsonV::Object(unmerge_hooks(h))),
{
    lemma_literals();
    let out1 = match obj_get(cur, "env"@) {
        Some(JsonV::Object(env)) => obj_insert(cur, "env"@, JsonV::Object(unmerge_env(env, 5))),
        _ => cur,
    };
    match obj_get(cur, "env"@) {
        Some(JsonV::Object(env)) => {
            lemma_insert_unique(cur, "env"@, JsonV::Object(unmerge_env(env, 5)));
            lemma_insert_get_other(cur, "env"@, JsonV::Object(unmerge_env(env, 5)), "hooks"@);
        },
        _ => {},
    }
    let out2 = if nonempty_member(cur, "env"@) { drop_if_empty_object(out1, "env"@) } else { out1 };
    lemma_remove_unique(out1, "env"@);
    lemma_remove_get_other(out1, "env"@, "hooks"@);
    let out3 = match obj_get(out2, "hooks"@) {
        Some(JsonV::Object(hooks)) => obj_insert(out2, "hooks"@, JsonV::Object(unmerge_hooks(hooks))),
        _ => out2,
    };
    match obj_get(out2, "hooks"@) {
        Some(JsonV::Object(hooks)) => {
            lemma_insert_unique(out2, "hooks"@, JsonV::Object(unmerge_hooks(hooks)));
            lemma_insert_get_same(out2, "hooks"@, JsonV::Object(unmerge_hooks(hooks)));
            lemma_insert_get_other(out2, "hooks"@, JsonV::Object(unmerge_hooks(hooks)), "env"@);
        },
        _ => {},
    }
    let r = if nonempty_member(out2, "hooks"@) { drop_if_empty_object(out3, "hooks"@) } else { out3 };
    assert(r == spec_apply_unmerge(cur));
    assert forall|h: Entries| obj_get(cur, "hooks"@) == Some(JsonV::Object(h)) && #[trigger] unmerge_hooks(h).len() > 0
        implies obj_get(r, "hooks"@) == Some(JsonV::Object(unmerge_hooks(h))) by {
        match obj_get(cur, "env"@) {
            Some(JsonV::Object(env)) => lemma_insert_get_other(cur, "env"@, JsonV::Object(unmerge_env(env, 5)), "hooks"@),
            _ => {},
        }
        assert(obj_get(out2, "hooks"@) == Some(JsonV::Object(h)));
    }
    lemma_remove_unique(out3, "hooks"@);
    lemma_remove_get_other(out3, "hooks"@, "env"@);
    assert forall|k: Seq<char>| k != "env"@ && k != "hooks"@ implies #[trigger] obj_get(r, k) == obj_get(cur, k) by {
        match obj_get(cur, "env"@) {
            Some(JsonV::Object(env)) => lemma_insert_get_other(cur, "env"@, JsonV::Object(unmerge_env(env, 5)), k),
            _ => {},
        }
        lemma_remove_get_other(out1, "env"@, k);
        match obj_get(out2, "hooks"@) {
            Some(JsonV::Object(hooks)) => lemma_insert_get_other(out2, "hooks"@, JsonV::Object(unmerge_hooks(hooks)), k),
            _ => {},
        }
        lemma_remove_get_other(out3, "hooks"@, k);
    }
}

/// The strict unmerge touches only `env` and `hooks`: every other
/// top-level member keeps its value.
pub proof fn law_unmerge_preserves_other_members(cur: Entries, k: Seq<char>)
    requires
        keys_unique(cur),
        k != "env"@,
        k != "hooks"@,
    ensures
        obj_get(spec_apply_unmerge(cur), k) == obj_get(cur, k),
{
    lemma_unmerge_parts(cur);
}

/// The strict unmerge keeps every `env` key that does not hold its app
/// value, with its value: user variables, and app keys the user edited.
pub proof fn law_unmerge_keeps_user_env(cur: Entries, k: Seq<char>, v: JsonV)
    requires
        keys_unique(cur),
        keys_unique(env_of(cur)),
        obj_get(env_of(cur), k) == Some(v),
        forall|i: int| 0 <= i < 5 && (#[trigger] app_env()[i]).0 == k ==> v != JsonV::Str(app_env()[i].1),
    ensures
        obj_get(env_of(spec_apply_unmerge(cur)), k) == Some(v),
{
    lemma_literals();
    let env = env_of(cur);
    lemma_get_nonempty(env, k);
    assert(obj_get(cur, "env"@) == Some(JsonV::Object(env)));
    lemma_unmerge_env_keeps(env, 5, k, v);
    let e5 = unmerge_env(env, 5);
    lemma_get_nonempty(e5, k);
    let out1 = obj_insert(cur, "env"@, JsonV::Object(e5));
    lemma_insert_get_same(cur, "env"@, JsonV::Object(e5));
    assert(drop_if_empty_object(out1, "env"@) == out1);
    lemma_unmerge_parts(cur);
}

/// Inside `hooks` the strict unmerge touches only `SessionStart`: every
/// other hook event keeps its value.
pub proof fn law_unmerge_keeps_other_hook_events(cur: Entries, k: Seq<char>, v: JsonV)
    requires
        keys_unique(cur),
        keys_unique(hooks_of(cur)),
        k != "SessionStart"@,
        obj_get(hooks_of(cur), k) == Some(v),
    ensures
        obj_get(hooks_of(spec_apply_unmerge(cur)), k) == Some(v),
{
    let h = hooks_of(cur);
    lemma_get_nonempty(h, k);
    assert(obj_get(cur, "hooks"@) == Some(JsonV::Object(h)));
    let ss = "SessionStart"@;
    let h1 = match obj_get(h, ss) {
        Some(JsonV::Array(groups)) => obj_insert(h, ss, JsonV::Array(unmerge_groups(groups))),
        _ => h,
    };
    match obj_get(h, ss) {
        Some(JsonV::Array(groups)) => {
            lemma_insert_unique(h, ss, JsonV::Array(unmerge_groups(groups)));
            lemma_insert_get_other(h, ss, JsonV::Array(unmerge_groups(groups)), k);
        },
        _ => {},
    }
    lemma_remove_unique(h1, ss);
    lemma_remove_get_other(h1, ss, k);
    let h2 = unmerge_hooks(h);
    assert(obj_get(h2, k) == Some(v));
    lemma_get_nonempty(h2, k);
    lemma_unmerge_parts(cur);
}

/// A `SessionStart` group without an app hook survives the strict unmerge
/// verbatim.
pub proof fn law_unmerge_keeps_user_group(group: JsonV)
    requires
        !group_has_app_hook(group),
        group matches JsonV::Object(e) ==> keys_unique(e),
    ensures
        unmerge_group(group) == Some(group),
{
    match group {
        JsonV::Object(e) => match obj_get(e, "hooks"@) {
            Some(JsonV::Array(inner)) => {
                lemma_user_hooks_all(inner);
                lemma_insert_existing(e, "hooks"@, JsonV::Array(inner));
            },
            _ => {},
        },
        _ => {},
    }
}

/// With no app hook among them, the user hooks are all of them.
proof fn lemma_user_hooks_all(inner: Seq<JsonV>)
    requires
        forall|i: int| 0 <= i < inner.len() ==> !is_app_hook(#[trigger] inner[i]),
    ensures
        user_hooks(inner) == inner,
    decreases inner.len(),
{
    if inner.len() > 0 {
        lemma_user_hooks_all(inner.drop_last());
        assert(!is_app_hook(inner[inner.len() - 1]));
        assert(inner.drop_last().push(inner.last()) =~= inner);
    }
}

/// Backups never overwrite one another: for one timestamp, distinct
/// candidates are distinct file names, so the first candidate that does
/// not exist yet is always a new file.
pub proof fn law_backup_names_distinct(stamp: Seq<char>, n: nat, m: nat)
    requires
        n != m,
    ensures
        spec_backup_file_name(stamp, n) != spec_backup_file_name(stamp, m),
{
    reveal_strlit("settings-");
    reveal_strlit(".json");
    reveal_strlit("-");
    let p = "settings-"@ + stamp;
    let a = spec_backup_file_name(stamp, n);
    let b = spec_backup_file_name(stamp, m);
    if n == 0 || m == 0 {
        let k = if n == 0 { m } else { n };
        let plain = p + ".json"@;
        let numbered = p + "-"@ + decimal_text(k) + ".json"@;
        assert(plain[p.len() as int] == '.');
        assert(numbered[p.len() as int] == '-');
    } else if a == b {
        lemma_decimal_len(n);
        lemma_decimal_len(m);
        let q = p + "-"@;
        assert(a.len() == q.len() + decimal_text(n).len() + 5);
        assert(b.len() == q.len() + decimal_text(m).len() + 5);
        assert(a.subrange(q.len() as int, (q.len() + decimal_text(n).len()) as int) =~= decimal_text(n));
        assert(b.subrange(q.len() as int, (q.len() + decimal_text(m).len()) as int) =~= decimal_text(m));
        lemma_decimal_injective(n, m);
    }
}

/// Where an insertion puts its member: a present key keeps its place, a
/// new one goes last; either way the key is then found there.
proof fn lemma_insert_place(e: Entries, k: Seq<char>, v: JsonV)
    ensures
        forall|i: int| find_key(e, k) == Some(i) ==> obj_insert(e, k, v) == e.update(i, (k, v))
            && find_key(obj_insert(e, k, v), k) == Some(i),
        find_key(e, k) is None ==> obj_insert(e, k, v) == e.push((k, v))
            && find_key(obj_insert(e, k, v), k) == Some(e.len() as int),
{
    lemma_find_key_result(e, k);
    let e2 = obj_insert(e, k, v);
    match find_key(e, k) {
        Some(i) => {
            assert forall|j: int| 0 <= j < i implies (#[trigger] e2[j]).0 != k by {}
            lemma_find_key(e2, k, i);
        },
        None => {
            assert forall|j: int| 0 <= j < e.len() implies (#[trigger] e2[j]).0 != k by {}
            lemma_find_key(e2, k, e.len() as int);
        },
    }
}

/// Removing the last member drops it.
proof fn lemma_remove_last(e: Entries, k: Seq<char>)
    requires
        e.len() > 0,
        find_key(e, k) == Some(e.len() - 1),
    ensures
        obj_remove(e, k) =~= e.drop_last(),
{
    assert(e.update(e.len() - 1, e.last()) =~= e);
}

/// The app env entries `0..n`, in order.
pub open spec fn app_entries(n: nat) -> Entries {
    Seq::new(n, |i: int| (app_env()[i].0, JsonV::Str(app_env()[i].1)))
}

/// Whether `env` holds none of the app keys.
pub open spec fn lacks_app_keys(env: Entries) -> bool {
    forall|i: int| 0 <= i < 5 ==> find_key(env, (#[trigger] app_env()[i]).0) is None
}

/// Setting the app keys in an env that has none of them appends them in
/// order.
proof fn lemma_merge_env_append(env: Entries, n: nat)
    requires
        n <= 5,
        lacks_app_keys(env),
    ensures
        merge_env(env, n) =~= env + app_entries(n),
    decreases n,
{
    if n > 0 {
        lemma_literals();
        lemma_merge_env_append(env, (n - 1) as nat);
        let prev = merge_env(env, (n - 1) as nat);
        let k = app_env()[n - 1].0;
        assert(find_key(env, k) is None);
        lemma_find_key_result(env, k);
        assert forall|j: int| 0 <= j < prev.len() implies (#[trigger] prev[j]).0 != k by {
            if j < env.len() {
                assert(prev[j] == env[j]);
            } else {
                assert(prev[j] == app_entries((n - 1) as nat)[j - env.len()]);
            }
        }
        lemma_find_key(prev, k, prev.len() as int);
    }
}

/// In `env + tail`, app key `i` sits at `pos` of `tail` when no earlier
/// entry of the tail has it; it holds its app value there, and removing it
/// swaps the tail's last entry into its place.
proof fn lemma_remove_app_key(env: Entries, tail: Entries, i: int, pos: int)
    requires
        lacks_app_keys(env),
        0 <= i < 5,
        0 <= pos < tail.len(),
        tail[pos] == (app_env()[i].0, JsonV::Str(app_env()[i].1)),
        forall|j: int| 0 <= j < pos ==> (#[trigger] tail[j]).0 != app_env()[i].0,
    ensures
        obj_get(env + tail, app_env()[i].0) == Some(JsonV::Str(app_env()[i].1)),
        obj_remove(env + tail, app_env()[i].0) =~= env + tail.update(pos, tail.last()).drop_last(),
{
    let k = app_env()[i].0;
    let s = env + tail;
    assert(find_key(env, k) is None);
    lemma_find_key_result(env, k);
    assert forall|j: int| 0 <= j < env.len() + pos implies (#[trigger] s[j]).0 != k by {
        if j < env.len() {
            assert(s[j] == env[j]);
        } else {
            assert(s[j] == tail[j - env.len()]);
        }
    }
    assert(s[env.len() + pos] == tail[pos]);
    lemma_find_key(s, k, env.len() + pos);
}

/// The strict unmerge takes the appended app entries back off an env that
/// had none of them, leaving it as it was.
proof fn lemma_unmerge_env_append(env: Entries)
    requires
        lacks_app_keys(env),
    ensures
        unmerge_env(env + app_entries(5), 5) == env,
{
    lemma_literals();
    let a0 = (app_env()[0].0, JsonV::Str(app_env()[0].1));
    let a1 = (app_env()[1].0, JsonV::Str(app_env()[1].1));
    let a2 = (app_env()[2].0, JsonV::Str(app_env()[2].1));
    let a3 = (app_env()[3].0, JsonV::Str(app_env()[3].1));
    let a4 = (app_env()[4].0, JsonV::Str(app_env()[4].1));
    let t0 = seq![a0, a1, a2, a3, a4];
    assert(app_entries(5) =~= t0);
    let t1 = seq![a4, a1, a2, a3];
    let t2 = seq![a4, a3, a2];
    let t3 = seq![a4, a3];
    let t4 = seq![a4];
    assert(unmerge_env(env + t0, 0) == env + t0);
    lemma_remove_app_key(env, t0, 0, 0);
    assert(t0.update(0, t0.last()).drop_last() =~= t1);
    assert(unmerge_env(env + t0, 1) =~= env + t1);
    assert(t1[0].0 != app_env()[1].0);
    lemma_remove_app_key(env, t1, 1, 1);
    assert(t1.update(1, t1.last()).drop_last() =~= t2);
    assert(unmerge_env(env + t0, 2) =~= env + t2);
    assert(t2[0].0 != app_env()[2].0 && t2[1].0 != app_env()[2].0);
    lemma_remove_app_key(env, t2, 2, 2);
    assert(t2.update(2, t2.last()).drop_last() =~= t3);
    assert(unmerge_env(env + t0, 3) =~= env + t3);
    assert(t3[0].0 != app_env()[3].0);
    lemma_remove_app_key(env, t3, 3, 1);
    assert(t3.update(1, t3.last()).drop_last() =~= t4);
    assert(unmerge_env(env + t0, 4) =~= env + t4);
    lemma_remove_app_key(env, t4, 4, 0);
    assert(t4.update(0, t4.last()).drop_last() =~= Seq::<(Seq<char>, JsonV)>::empty());
    assert(env + Seq::<(Seq<char>, JsonV)>::empty() =~= env);
}

/// The unmerge drops the app hook group entirely.
proof fn lemma_app_group_dropped()
    ensures
        unmerge_group(app_hook_group()) is None,
{
    lemma_literals();
    lemma_app_group_is_app();
    let hook = JsonV::Object(seq![("type"@, JsonV::Str("command"@)), ("command"@, JsonV::Str(SESSION_HOOK_COMMAND@))]);
    let inner = seq![hook];
    let ge = seq![("hooks"@, JsonV::Array(inner))];
    assert(app_hook_group() == JsonV::Object(ge));
    lemma_find_key(ge, "hooks"@, 0);
    match JsonV::Object(ge).get("hooks"@) {
        Some(JsonV::Array(inn)) => {
            assert(inn == inner);
            assert(group_has_app_hook(JsonV::Object(ge)));
            assert(is_app_hook(inn[0]));
        },
        _ => {},
    }
    assert(is_app_hook(hook));
    assert(inner.drop_last() =~= Seq::<JsonV>::empty());
    assert(user_hooks(inner.drop_last()) =~= Seq::<JsonV>::empty());
    assert(inner.last() == hook);
    assert(user_hooks(inner) =~= Seq::<JsonV>::empty());
}

/// A `SessionStart` group the user owns: no app hook in it, and distinct
/// keys when it is an object.
pub open spec fn user_group(group: JsonV) -> bool {
    &&& !group_has_app_hook(group)
    &&& group matches JsonV::Object(e) ==> keys_unique(e)
}

/// Unmerging user groups with the app group appended gives back the user
/// groups, and no user group list has an app group.
proof fn lemma_unmerge_groups_restore(g: Seq<JsonV>)
    requires
        forall|j: int| 0 <= j < g.len() ==> user_group(#[trigger] g[j]),
    ensures
        unmerge_groups(g) == g,
        unmerge_groups(g.push(app_hook_group())) == g,
        !has_app_group(g),
    decreases g.len(),
{
    if g.len() > 0 {
        lemma_unmerge_groups_restore(g.drop_last());
        assert(user_group(g[g.len() - 1]));
        law_unmerge_keeps_user_group(g.last());
        assert(g.drop_last().push(g.last()) =~= g);
    } else {
        assert(unmerge_groups(g) =~= g);
    }
    lemma_app_group_dropped();
    assert(g.push(app_hook_group()).drop_last() =~= g);
    assert(g.push(app_hook_group()).last() == app_hook_group());
}

/// A `hooks` object the unmerge gives back after a merge: distinct keys
/// and a `SessionStart`, if any, that is a non-empty list of user groups.
pub open spec fn restorable_hooks(h: Entries) -> bool {
    &&& keys_unique(h)
    &&& match obj_get(h, "SessionStart"@) {
        None => true,
        Some(JsonV::Array(g)) => g.len() > 0 && forall|j: int| 0 <= j < g.len() ==> user_group(#[trigger] g[j]),
        Some(_) => false,
    }
}

/// Unmerging the `hooks` a merge produced gives back the original `hooks`.
proof fn lemma_unmerge_hooks_restore(h: Entries)
    requires
        restorable_hooks(h),
    ensures
        ({
            let g = match obj_get(h, "SessionStart"@) { Some(JsonV::Array(g)) => g, _ => Seq::empty() };
            &&& array_or_empty(obj_get(h, "SessionStart"@)) == Some(g)
            &&& !has_app_group(g)
            &&& unmerge_hooks(obj_insert(h, "SessionStart"@, JsonV::Array(g.push(app_hook_group())))) == h
        }),
{
    let ss = "SessionStart"@;
    let g = match obj_get(h, ss) { Some(JsonV::Array(g)) => g, _ => Seq::empty() };
    lemma_unmerge_groups_restore(g);
    let g2 = g.push(app_hook_group());
    let h2 = obj_insert(h, ss, JsonV::Array(g2));
    lemma_insert_place(h, ss, JsonV::Array(g2));
    lemma_insert_get_same(h, ss, JsonV::Array(g2));
    let h1 = obj_insert(h2, ss, JsonV::Array(g));
    lemma_insert_place(h2, ss, JsonV::Array(g));
    lemma_find_key_result(h, ss);
    match find_key(h, ss) {
        Some(q) => {
            assert(h[q] == (ss, JsonV::Array(g)));
            assert(h1 =~= h);
            lemma_insert_get_same(h2, ss, JsonV::Array(g));
        },
        None => {
            assert(g =~= Seq::<JsonV>::empty());
            assert(h1 =~= h.push((ss, JsonV::Array(g))));
            lemma_insert_get_same(h2, ss, JsonV::Array(g));
            lemma_remove_last(h1, ss);
            assert(h1.drop_last() =~= h);
        },
    }
}

/// A settings object the strict unmerge gives back exactly after a merge:
/// distinct keys, no app env key and no app hook yet, and no `env`,
/// `hooks` or `hooks.SessionStart` present but empty (the unmerge removes
/// one that it leaves empty).
pub open spec fn restorable(cur: Entries) -> bool {
    &&& keys_unique(cur)
    &&& match obj_get(cur, "env"@) {
        None => true,
        Some(JsonV::Object(env)) => env.len() > 0 && lacks_app_keys(env),
        Some(_) => false,
    }
    &&& match obj_get(cur, "hooks"@) {
        None => true,
        Some(JsonV::Object(h)) => h.len() > 0 && restorable_hooks(h),
        Some(_) => false,
    }
}

/// Uninstalling undoes installing: the strict unmerge of a merge gives back
/// the settings exactly, entry for entry and in order, whenever they held
/// nothing app-owned and no empty `env`, `hooks` or `SessionStart`.
pub proof fn law_unmerge_restores(cur: Entries)
    requires
        restorable(cur),
    ensures
        spec_apply_merge(cur) is Ok,
        spec_apply_unmerge(spec_apply_merge(cur)->Ok_0) == cur,
{
    lemma_literals();
    let ss = "SessionStart"@;
    let env = env_of(cur);
    let hooks = hooks_of(cur);
    assert(lacks_app_keys(env)) by {
        if obj_get(cur, "env"@) is None {
            assert forall|i: int| 0 <= i < 5 implies find_key(env, (#[trigger] app_env()[i]).0) is None by {}
        }
    }
    assert(restorable_hooks(hooks)) by {
        if obj_get(cur, "hooks"@) is None {
            assert(hooks =~= Seq::<(Seq<char>, JsonV)>::empty());
            assert(obj_get(hooks, ss) is None);
        }
    }
    lemma_merge_env_append(env, 5);
    lemma_unmerge_env_append(env);
    lemma_unmerge_hooks_restore(hooks);
    let e5 = merge_env(env, 5);
    let g = match obj_get(hooks, ss) { Some(JsonV::Array(g)) => g, _ => Seq::empty() };
    let h2 = obj_insert(hooks, ss, JsonV::Array(g.push(app_hook_group())));
    // the merge
    let out1 = obj_insert(cur, "env"@, JsonV::Object(e5));
    lemma_insert_place(cur, "env"@, JsonV::Object(e5));
    lemma_insert_get_other(cur, "env"@, JsonV::Object(e5), "hooks"@);
    let y = obj_insert(out1, "hooks"@, JsonV::Object(h2));
    lemma_insert_place(out1, "hooks"@, JsonV::Object(h2));
    lemma_insert_get_other(out1, "hooks"@, JsonV::Object(h2), "env"@);
    lemma_insert_get_same(out1, "hooks"@, JsonV::Object(h2));
    lemma_insert_get_same(cur, "env"@, JsonV::Object(e5));
    assert(object_or_empty(obj_get(cur, "env"@)) == Some(env));
    assert(object_or_empty(obj_get(out1, "hooks"@)) == Some(hooks));
    assert(spec_apply_merge(cur) == Ok::<Entries, Seq<char>>(y));
    // the unmerge
    assert(obj_get(y, "env"@) == Some(JsonV::Object(e5)));
    let o1 = obj_insert(y, "env"@, JsonV::Object(env));
    lemma_insert_place(y, "env"@, JsonV::Object(env));
    lemma_insert_get_same(y, "env"@, JsonV::Object(env));
    lemma_insert_get_other(y, "env"@, JsonV::Object(env), "hooks"@);
    let o2 = drop_if_empty_object(o1, "env"@);
    lemma_find_key_result(cur, "env"@);
    lemma_find_key_result(cur, "hooks"@);
    let n = cur.len() as int;
    match (find_key(cur, "env"@), find_key(cur, "hooks"@)) {
        (None, None) => {
            law_unmerge_undoes_merge(cur);
        },
        (Some(p), Some(q)) => {
            assert(out1 == cur.update(p, ("env"@, JsonV::Object(e5))));
            assert(find_key(out1, "hooks"@) == Some(q));
            assert(y == out1.update(q, ("hooks"@, JsonV::Object(h2))));
            assert(find_key(y, "env"@) == Some(p));
            assert(o1 == y.update(p, ("env"@, JsonV::Object(env))));
            assert(o2 == o1);
            assert(find_key(o2, "hooks"@) == Some(q));
            let o3 = obj_insert(o2, "hooks"@, JsonV::Object(hooks));
            lemma_insert_place(o2, "hooks"@, JsonV::Object(hooks));
            lemma_insert_get_same(o2, "hooks"@, JsonV::Object(hooks));
            assert(o3 == o2.update(q, ("hooks"@, JsonV::Object(hooks))));
            assert(cur[p] == ("env"@, JsonV::Object(env)));
            assert(cur[q] == ("hooks"@, JsonV::Object(hooks)));
            assert(o3 =~= cur);
        },
        (None, Some(q)) => {
            assert(out1 == cur.push(("env"@, JsonV::Object(e5))));
            assert(find_key(out1, "hooks"@) == Some(q));
            assert(y == out1.update(q, ("hooks"@, JsonV::Object(h2))));
            assert(find_key(y, "env"@) == Some(n));
            assert(env =~= Seq::<(Seq<char>, JsonV)>::empty());
            assert(o1 == y.update(n, ("env"@, JsonV::Object(env))));
            lemma_remove_last(o1, "env"@);
            assert(o2 =~= cur.update(q, ("hooks"@, JsonV::Object(h2))));
            lemma_remove_get_other(o1, "env"@, "hooks"@);
            assert forall|j: int| 0 <= j < q implies (#[trigger] o2[j]).0 != "hooks"@ by {
                assert(o2[j] == cur[j]);
            }
            lemma_find_key(o2, "hooks"@, q);
            let o3 = obj_insert(o2, "hooks"@, JsonV::Object(hooks));
            lemma_insert_place(o2, "hooks"@, JsonV::Object(hooks));
            assert(o3 == o2.update(q, ("hooks"@, JsonV::Object(hooks))));
            assert(cur[q] == ("hooks"@, JsonV::Object(hooks)));
            assert(o3 =~= cur);
            lemma_insert_get_same(o2, "hooks"@, JsonV::Object(hooks));
        },
        (Some(p), None) => {
            assert(out1 == cur.update(p, ("env"@, JsonV::Object(e5))));
            assert(find_key(out1, "hooks"@) is None);
            assert(y == out1.push(("hooks"@, JsonV::Object(h2))));
            assert(find_key(y, "env"@) == Some(p));
            assert(o1 == y.update(p, ("env"@, JsonV::Object(env))));
            assert(o2 == o1);
            assert(hooks =~= Seq::<(Seq<char>, JsonV)>::empty());
            assert forall|j: int| 0 <= j < n implies (#[trigger] o2[j]).0 != "hooks"@ by {
                if j != p { assert(o2[j] == cur[j]); }
            }
            lemma_find_key(o2, "hooks"@, n);
            let o3 = obj_insert(o2, "hooks"@, JsonV::Object(hooks));
            lemma_insert_place(o2, "hooks"@, JsonV::Object(hooks));
            assert(o3 == o2.update(n, ("hooks"@, JsonV::Object(hooks))));
            lemma_insert_get_same(o2, "hooks"@, JsonV::Object(hooks));
            lemma_remove_last(o3, "hooks"@);
            assert(cur[p] == ("env"@, JsonV::Object(env)));
            assert(o3.drop_last() =~= cur);
        },
    }
}

/// Settings that hold nothing app-owned: no `env` key at its app value and
/// no app hook in `hooks.SessionStart` (objects with distinct keys).
pub open spec fn holds_nothing_app_owned(cur: Entries) -> bool {
    &&& keys_unique(cur)
    &&& match obj_get(cur, "env"@) {
        Some(JsonV::Object(env)) => forall|i: int| 0 <= i < 5
            ==> obj_get(env, (#[trigger] app_env()[i]).0) != Some(JsonV::Str(app_env()[i].1)),
        _ => true,
    }
    &&& match obj_get(cur, "hooks"@) {
        Some(JsonV::Object(h)) => keys_unique(h) && match obj_get(h, "SessionStart"@) {
            Some(JsonV::Array(g)) => forall|j: int| 0 <= j < g.len() ==> user_group(#[trigger] g[j]),
            _ => true,
        },
        _ => true,
    }
}

/// Removing the app keys still at their app values leaves an env that has
/// none at its app value as it was.
proof fn lemma_unmerge_env_noop(env: Entries, n: nat)
    requires
        n <= 5,
        forall|i: int| 0 <= i < 5 ==> obj_get(env, (#[trigger] app_env()[i]).0) != Some(JsonV::Str(app_env()[i].1)),
    ensures
        unmerge_env(env, n) == env,
    decreases n,
{
    if n > 0 {
        lemma_unmerge_env_noop(env, (n - 1) as nat);
        assert(obj_get(env, app_env()[n - 1].0) != Some(JsonV::Str(app_env()[n - 1].1)));
    }
}

/// The strict unmerge of settings that hold nothing app-owned changes
/// nothing: in particular an `env`, `hooks` or `SessionStart` that was
/// already empty stays.
pub proof fn law_unmerge_without_app_content_is_noop(cur: Entries)
    requires
        holds_nothing_app_owned(cur),
    ensures
        spec_apply_unmerge(cur) == cur,
{
    let ss = "SessionStart"@;
    let out1 = match obj_get(cur, "env"@) {
        Some(JsonV::Object(env)) => obj_insert(cur, "env"@, JsonV::Object(unmerge_env(env, 5))),
        _ => cur,
    };
    match obj_get(cur, "env"@) {
        Some(JsonV::Object(env)) => {
            lemma_unmerge_env_noop(env, 5);
            lemma_insert_existing(cur, "env"@, JsonV::Object(env));
        },
        _ => {},
    }
    assert(out1 == cur);
    let out2 = if nonempty_member(cur, "env"@) { drop_if_empty_object(out1, "env"@) } else { out1 };
    assert(out2 == cur);
    match obj_get(cur, "hooks"@) {
        Some(JsonV::Object(h)) => {
            match obj_get(h, ss) {
                Some(JsonV::Array(g)) => {
                    lemma_unmerge_groups_restore(g);
                    lemma_insert_existing(h, ss, JsonV::Array(g));
                },
                _ => {},
            }
            assert(unmerge_hooks(h) == h);
            lemma_insert_existing(cur, "hooks"@, JsonV::Object(h));
        },
        _ => {},
    }
}

/// Unmerging a settings file that holds nothing app-owned neither backs
/// up nor writes anything.
pub proof fn law_unmerge_file_is_noop_without_app_content(contents: Option<Seq<char>>)
    requires
        spec_read_settings(contents) matches Ok(cur) && wf(JsonV::Object(cur)) && holds_nothing_app_owned(cur),
    ensures
        spec_unmerge_file(contents) == Ok::<Option<Seq<char>>, SettingsErrorV>(None),
{
    let cur = spec_read_settings(contents)->Ok_0;
    law_unmerge_without_app_content_is_noop(cur);
    lemma_json_eq_refl(JsonV::Object(cur));
}

/// An insertion keeps every existing key in its place and adds at most one
/// entry, at the end.
proof fn lemma_insert_keeps_keys(e: Entries, k: Seq<char>, v: JsonV)
    ensures
        forall|i: int| 0 <= i < e.len() ==> (#[trigger] obj_insert(e, k, v)[i]).0 == e[i].0,
        obj_insert(e, k, v).len() == e.len() + (if find_key(e, k) is Some { 0int } else { 1int }),
{
    lemma_insert_place(e, k, v);
    lemma_find_key_result(e, k);
}

/// Setting app keys keeps every existing `env` key in its place.
proof fn lemma_merge_env_keeps_keys(env: Entries, n: nat)
    requires
        n <= 5,
    ensures
        merge_env(env, n).len() >= env.len(),
        forall|i: int| 0 <= i < env.len() ==> (#[trigger] merge_env(env, n)[i]).0 == env[i].0,
    decreases n,
{
    if n > 0 {
        lemma_merge_env_keeps_keys(env, (n - 1) as nat);
        let prev = merge_env(env, (n - 1) as nat);
        lemma_insert_keeps_keys(prev, app_env()[n - 1].0, JsonV::Str(app_env()[n - 1].1));
        assert forall|i: int| 0 <= i < env.len() implies (#[trigger] merge_env(env, n)[i]).0 == env[i].0 by {
            assert(prev[i].0 == env[i].0);
        }
    }
}

/// The merge keeps every top-level key, every `env` key and every hook
/// event in place and in order, adding `env` and `hooks` at the end when
/// absent; and
/// `hooks.SessionStart` gains the app group, appended, exactly when none of
/// its groups holds an app hook.
pub proof fn law_merge_keeps_order(cur: Entries)
    requires
        spec_apply_merge(cur) is Ok,
    ensures
        ({
            let y = spec_apply_merge(cur)->Ok_0;
            &&& forall|i: int| 0 <= i < cur.len() ==> (#[trigger] y[i]).0 == cur[i].0
            &&& y.len() == cur.len() + (if find_key(cur, "env"@) is Some { 0int } else { 1int })
                + (if find_key(cur, "hooks"@) is Some { 0int } else { 1int })
            &&& forall|i: int| 0 <= i < env_of(cur).len() ==> (#[trigger] env_of(y)[i]).0 == env_of(cur)[i].0
            &&& forall|i: int| 0 <= i < hooks_of(cur).len() ==> (#[trigger] hooks_of(y)[i]).0 == hooks_of(cur)[i].0
            &&& session_groups(y) == (if has_app_group(session_groups(cur)) { session_groups(cur) }
                else { session_groups(cur).push(app_hook_group()) })
        }),
{
    lemma_literals();
    lemma_merge_parts(cur);
    let env = env_of(cur);
    let e5 = merge_env(env, 5);
    let out1 = obj_insert(cur, "env"@, JsonV::Object(e5));
    lemma_insert_keeps_keys(cur, "env"@, JsonV::Object(e5));
    lemma_insert_get_other(cur, "env"@, JsonV::Object(e5), "hooks"@);
    let groups = session_groups(cur);
    let groups2 = if has_app_group(groups) { groups } else { groups.push(app_hook_group()) };
    let h2 = obj_insert(hooks_of(cur), "SessionStart"@, JsonV::Array(groups2));
    let y = obj_insert(out1, "hooks"@, JsonV::Object(h2));
    assert(spec_apply_merge(cur) == Ok::<Entries, Seq<char>>(y));
    lemma_insert_keeps_keys(out1, "hooks"@, JsonV::Object(h2));
    assert forall|i: int| 0 <= i < cur.len() implies (#[trigger] y[i]).0 == cur[i].0 by {
        assert(out1[i].0 == cur[i].0);
    }
    lemma_find_key_result(cur, "hooks"@);
    lemma_find_key_result(out1, "hooks"@);
    lemma_merge_env_keeps_keys(env, 5);
    assert(env_of(y) == e5);
    lemma_insert_get_same(hooks_of(cur), "SessionStart"@, JsonV::Array(groups2));
    assert(session_groups(y) == groups2);
    lemma_insert_keeps_keys(hooks_of(cur), "SessionStart"@, JsonV::Array(groups2));
    assert(find_key(out1, "hooks"@) == find_key(cur, "hooks"@));
}


/// Each entry of `x` is found in `y` with an equal value when `x` is
/// within `y`.
proof fn lemma_entries_within_get(x: Entries, y: Entries, i: int)
    requires
        entries_within(x, y),
        0 <= i < x.len(),
    ensures
        obj_get(y, x[i].0) matches Some(w) && json_eq(x[i].1, w),
    decreases i,
{
    if i > 0 {
        let t = x.subrange(1, x.len() as int);
        lemma_entries_within_get(t, y, i - 1);
        assert(t[i - 1] == x[i]);
    }
}

/// Two objects whose member `k` holds objects of different sizes are not
/// equal.
proof fn lemma_differ_at_key(x: Entries, y: Entries, k: Seq<char>, a: Entries, b: Entries)
    requires
        obj_get(x, k) == Some(JsonV::Object(a)),
        obj_get(y, k) == Some(JsonV::Object(b)),
        a.len() != b.len(),
    ensures
        !json_eq(JsonV::Object(x), JsonV::Object(y)),
{
    lemma_find_key_result(x, k);
    if json_eq(JsonV::Object(x), JsonV::Object(y)) {
        let i = find_key(x, k)->Some_0;
        lemma_entries_within_get(x, y, i);
    }
}

/// The merge of settings that hold nothing of the app differs from them,
/// either way round.
proof fn lemma_merge_differs(cur: Entries)
    requires
        restorable(cur),
    ensures
        spec_apply_merge(cur) is Ok,
        !json_eq(JsonV::Object(cur), JsonV::Object(spec_apply_merge(cur)->Ok_0)),
        !json_eq(JsonV::Object(spec_apply_merge(cur)->Ok_0), JsonV::Object(cur)),
{
    law_unmerge_restores(cur);
    let y = spec_apply_merge(cur)->Ok_0;
    law_merge_keeps_order(cur);
    lemma_merge_parts(cur);
    let env = env_of(cur);
    assert(lacks_app_keys(env)) by {
        if obj_get(cur, "env"@) is None {
            assert forall|i: int| 0 <= i < 5 implies find_key(env, (#[trigger] app_env()[i]).0) is None by {}
        }
    }
    lemma_merge_env_append(env, 5);
    let e5 = merge_env(env, 5);
    assert(e5.len() == env.len() + 5);
    if find_key(cur, "env"@) is Some {
        assert(obj_get(cur, "env"@) == Some(JsonV::Object(env)));
        assert(obj_get(y, "env"@) == Some(JsonV::Object(e5)));
        lemma_differ_at_key(cur, y, "env"@, env, e5);
        lemma_differ_at_key(y, cur, "env"@, e5, env);
    } else {
        assert(y.len() > cur.len());
    }
}

/// Setting app keys keeps an `env` well-formed.
proof fn lemma_merge_env_wf(env: Entries, n: nat)
    requires
        wf(JsonV::Object(env)),
        n <= 5,
    ensures
        wf(JsonV::Object(merge_env(env, n))),
    decreases n,
{
    if n > 0 {
        lemma_merge_env_wf(env, (n - 1) as nat);
        lemma_insert_wf(merge_env(env, (n - 1) as nat), app_env()[n - 1].0, JsonV::Str(app_env()[n - 1].1));
    }
}

/// The app's hook group is well-formed.
proof fn lemma_app_group_wf()
    ensures
        wf(app_hook_group()),
{
    let hook = JsonV::Object(seq![
        ("type"@, JsonV::Str("command"@)),
        ("command"@, JsonV::Str(SESSION_HOOK_COMMAND@)),
    ]);
    lemma_literals();
    let he = seq![("type"@, JsonV::Str("command"@)), ("command"@, JsonV::Str(SESSION_HOOK_COMMAND@))];
    crate::json::lemma_entries_wf(he);
    reveal_strlit("type");
    reveal_strlit("command");
    assert("type"@.len() != "command"@.len());
    assert(crate::json::keys_unique(he));
    assert(wf(hook));
    lemma_seq_wf(seq![hook]);
    let ge = seq![("hooks"@, JsonV::Array(seq![hook]))];
    crate::json::lemma_entries_wf(ge);
}

/// The merge keeps settings well-formed: every object it yields, at any
/// depth, still has distinct keys.
pub proof fn law_merge_keeps_wf(cur: Entries)
    requires
        wf(JsonV::Object(cur)),
        spec_apply_merge(cur) is Ok,
    ensures
        wf(JsonV::Object(spec_apply_merge(cur)->Ok_0)),
{
    let empty = Seq::<(Seq<char>, JsonV)>::empty();
    crate::json::lemma_entries_wf(empty);
    lemma_get_wf(cur, "env"@);
    let env = object_or_empty(obj_get(cur, "env"@))->Some_0;
    lemma_merge_env_wf(env, 5);
    let out1 = obj_insert(cur, "env"@, JsonV::Object(merge_env(env, 5)));
    lemma_insert_wf(cur, "env"@, JsonV::Object(merge_env(env, 5)));
    lemma_get_wf(out1, "hooks"@);
    let hooks = object_or_empty(obj_get(out1, "hooks"@))->Some_0;
    lemma_get_wf(hooks, "SessionStart"@);
    let groups = array_or_empty(obj_get(hooks, "SessionStart"@))->Some_0;
    let groups2 = if has_app_group(groups) { groups } else { groups.push(app_hook_group()) };
    lemma_seq_wf(groups);
    lemma_seq_wf(groups2);
    lemma_app_group_wf();
    assert forall|i: int| 0 <= i < groups2.len() implies wf(#[trigger] groups2[i]) by {
        if i < groups.len() {
            assert(groups2[i] == groups[i]);
        }
    }
    let h2 = obj_insert(hooks, "SessionStart"@, JsonV::Array(groups2));
    lemma_insert_wf(hooks, "SessionStart"@, JsonV::Array(groups2));
    lemma_insert_wf(out1, "hooks"@, JsonV::Object(h2));
}

/// Removing app keys keeps an `env` well-formed.
proof fn lemma_unmerge_env_wf(env: Entries, n: nat)
    requires
        wf(JsonV::Object(env)),
        n <= 5,
    ensures
        wf(JsonV::Object(unmerge_env(env, n))),
    decreases n,
{
    if n > 0 {
        lemma_unmerge_env_wf(env, (n - 1) as nat);
        lemma_remove_wf(unmerge_env(env, (n - 1) as nat), app_env()[n - 1].0);
    }
}

/// The hooks kept of a well-formed array are well-formed.
proof fn lemma_user_hooks_wf(inner: Seq<JsonV>)
    requires
        forall|i: int| 0 <= i < inner.len() ==> wf(#[trigger] inner[i]),
    ensures
        forall|i: int| 0 <= i < user_hooks(inner).len() ==> wf(#[trigger] user_hooks(inner)[i]),
    decreases inner.len(),
{
    if inner.len() > 0 {
        let d = inner.drop_last();
        assert forall|i: int| 0 <= i < d.len() implies wf(#[trigger] d[i]) by {
            assert(d[i] == inner[i]);
        }
        lemma_user_hooks_wf(d);
        let r = user_hooks(d);
        let u = user_hooks(inner);
        assert(wf(inner[inner.len() - 1]));
        assert forall|i: int| 0 <= i < u.len() implies wf(#[trigger] u[i]) by {
            if i < r.len() {
                assert(u[i] == r[i]);
            }
        }
    }
}

/// A group after unmerge stays well-formed.
proof fn lemma_unmerge_group_wf(g: JsonV)
    requires
        wf(g),
    ensures
        unmerge_group(g) matches Some(h) ==> wf(h),
{
    match g {
        JsonV::Object(e) => {
            lemma_get_wf(e, "hooks"@);
            match obj_get(e, "hooks"@) {
                Some(JsonV::Array(inner)) => {
                    lemma_seq_wf(inner);
                    lemma_user_hooks_wf(inner);
                    lemma_seq_wf(user_hooks(inner));
                    lemma_insert_wf(e, "hooks"@, JsonV::Array(user_hooks(inner)));
                },
                _ => {},
            }
        },
        _ => {},
    }
}

/// The groups after unmerge stay well-formed.
proof fn lemma_unmerge_groups_wf(groups: Seq<JsonV>)
    requires
        forall|i: int| 0 <= i < groups.len() ==> wf(#[trigger] groups[i]),
    ensures
        forall|i: int| 0 <= i < unmerge_groups(groups).len() ==> wf(#[trigger] unmerge_groups(groups)[i]),
    decreases groups.len(),
{
    if groups.len() > 0 {
        let d = groups.drop_last();
        assert forall|i: int| 0 <= i < d.len() implies wf(#[trigger] d[i]) by {
            assert(d[i] == groups[i]);
        }
        lemma_unmerge_groups_wf(d);
        lemma_unmerge_group_wf(groups.last());
        let r = unmerge_groups(d);
        let u = unmerge_groups(groups);
        assert(wf(groups[groups.len() - 1]));
        assert forall|i: int| 0 <= i < u.len() implies wf(#[trigger] u[i]) by {
            if i < r.len() {
                assert(u[i] == r[i]);
            }
        }
    }
}

/// The `hooks` object after unmerge stays well-formed.
proof fn lemma_unmerge_hooks_wf(hooks: Entries)
    requires
        wf(JsonV::Object(hooks)),
    ensures
        wf(JsonV::Object(unmerge_hooks(hooks))),
{
    let ss = "SessionStart"@;
    lemma_get_wf(hooks, ss);
    let h1 = match obj_get(hooks, ss) {
        Some(JsonV::Array(groups)) => obj_insert(hooks, ss, JsonV::Array(unmerge_groups(groups))),
        _ => hooks,
    };
    match obj_get(hooks, ss) {
        Some(JsonV::Array(groups)) => {
            lemma_seq_wf(groups);
            lemma_unmerge_groups_wf(groups);
            lemma_seq_wf(unmerge_groups(groups));
            lemma_insert_wf(hooks, ss, JsonV::Array(unmerge_groups(groups)));
        },
        _ => {},
    }
    lemma_remove_wf(h1, ss);
    assert(wf(JsonV::Object(drop_if_empty_array(h1, ss))));
}

/// The unmerge keeps settings well-formed: every object it yields, at any
/// depth, still has distinct keys.
pub proof fn law_unmerge_keeps_wf(cur: Entries)
    requires
        wf(JsonV::Object(cur)),
    ensures
        wf(JsonV::Object(spec_apply_unmerge(cur))),
{
    lemma_get_wf(cur, "env"@);
    let out1 = match obj_get(cur, "env"@) {
        Some(JsonV::Object(env)) => obj_insert(cur, "env"@, JsonV::Object(unmerge_env(env, 5))),
        _ => cur,
    };
    match obj_get(cur, "env"@) {
        Some(JsonV::Object(env)) => {
            lemma_unmerge_env_wf(env, 5);
            lemma_insert_wf(cur, "env"@, JsonV::Object(unmerge_env(env, 5)));
        },
        _ => {},
    }
    lemma_remove_wf(out1, "env"@);
    let out2 = if nonempty_member(cur, "env"@) { drop_if_empty_object(out1, "env"@) } else { out1 };
    assert(wf(JsonV::Object(out2)));
    lemma_get_wf(out2, "hooks"@);
    let out3 = match obj_get(out2, "hooks"@) {
        Some(JsonV::Object(hooks)) => obj_insert(out2, "hooks"@, JsonV::Object(unmerge_hooks(hooks))),
        _ => out2,
    };
    match obj_get(out2, "hooks"@) {
        Some(JsonV::Object(hooks)) => {
            lemma_unmerge_hooks_wf(hooks);
            lemma_insert_wf(out2, "hooks"@, JsonV::Object(unmerge_hooks(hooks)));
        },
        _ => {},
    }
    lemma_remove_wf(out3, "hooks"@);
}

/// Removing the app keys at their app values leaves none of them at its
/// app value.
proof fn lemma_unmerge_env_clears(env: Entries, n: nat)
    requires
        keys_unique(env),
        n <= 5,
    ensures
        keys_unique(unmerge_env(env, n)),
        forall|i: int| 0 <= i < n ==> obj_get(unmerge_env(env, n), (#[trigger] app_env()[i]).0)
            != Some(JsonV::Str(app_env()[i].1)),
    decreases n,
{
    if n > 0 {
        lemma_literals();
        let e = unmerge_env(env, (n - 1) as nat);
        let k = app_env()[n - 1].0;
        lemma_unmerge_env_clears(env, (n - 1) as nat);
        lemma_remove_unique(e, k);
        if obj_get(e, k) == Some(JsonV::Str(app_env()[n - 1].1)) {
            assert forall|i: int| 0 <= i < n implies obj_get(unmerge_env(env, n), (#[trigger] app_env()[i]).0)
                != Some(JsonV::Str(app_env()[i].1)) by {
                if i < n - 1 {
                    lemma_remove_get_other(e, k, app_env()[i].0);
                }
            }
        }
    }
}

/// After the unmerge no app env key holds its app value, so the settings
/// are not installed.
pub proof fn law_unmerge_uninstalls(cur: Entries)
    requires
        wf(JsonV::Object(cur)),
    ensures
        forall|i: int| 0 <= i < 5 ==> obj_get(env_of(spec_apply_unmerge(cur)), (#[trigger] app_env()[i]).0)
            != Some(JsonV::Str(app_env()[i].1)),
        !spec_is_installed(spec_apply_unmerge(cur)),
{
    lemma_literals();
    lemma_unmerge_parts(cur);
    lemma_get_wf(cur, "env"@);
    let u = spec_apply_unmerge(cur);
    let out1 = match obj_get(cur, "env"@) {
        Some(JsonV::Object(env)) => obj_insert(cur, "env"@, JsonV::Object(unmerge_env(env, 5))),
        _ => cur,
    };
    let out2 = if nonempty_member(cur, "env"@) { drop_if_empty_object(out1, "env"@) } else { out1 };
    match obj_get(cur, "env"@) {
        Some(JsonV::Object(env)) => {
            lemma_insert_unique(cur, "env"@, JsonV::Object(unmerge_env(env, 5)));
            lemma_unmerge_env_clears(env, 5);
            lemma_insert_get_same(cur, "env"@, JsonV::Object(unmerge_env(env, 5)));
            assert(obj_get(out1, "env"@) == Some(JsonV::Object(unmerge_env(env, 5))));
        },
        _ => {
            assert(obj_get(out1, "env"@) == obj_get(cur, "env"@));
        },
    }
    lemma_remove_unique(out1, "env"@);
    assert forall|i: int| 0 <= i < 5 implies obj_get(env_of(u), (#[trigger] app_env()[i]).0)
        != Some(JsonV::Str(app_env()[i].1)) by {
        if obj_get(u, "env"@) is None || !(obj_get(u, "env"@) matches Some(JsonV::Object(_))) {
            assert(env_of(u) =~= Seq::<(Seq<char>, JsonV)>::empty());
        }
    }
    assert(!spec_is_installed(u)) by {
        match obj_get(u, "env"@) {
            Some(JsonV::Object(x)) => {
                assert(x == env_of(u));
                assert(obj_get(x, app_env()[0].0) != Some(JsonV::Str(app_env()[0].1)));
            },
            _ => {},
        }
    }
}

/// Merging the settings file a second time changes nothing (no backup, no
/// write), given that the text the first merge wrote reads back as the
/// merged settings.
pub proof fn law_merge_file_twice_is_noop(contents: Option<Seq<char>>)
    requires
        spec_read_settings(contents) matches Ok(cur) && wf(JsonV::Object(cur)) && (spec_apply_merge(cur) matches Ok(m)
            && spec_read_settings(Some(rendered(m))) == Ok::<Entries, SettingsErrorV>(m)),
    ensures
        spec_merge_file(contents) matches Ok(first)
            && spec_merge_file(if first is Some { first } else { contents }) == Ok::<Option<Seq<char>>, SettingsErrorV>(None),
{
    let cur = spec_read_settings(contents)->Ok_0;
    let m = spec_apply_merge(cur)->Ok_0;
    law_merge_idempotent(cur);
    law_merge_keeps_wf(cur);
    lemma_json_eq_refl(JsonV::Object(m));
}

/// Installing then uninstalling through the settings file gives back the
/// user's settings: the merge rewrites the file, and the unmerge of what it
/// wrote rewrites it again with the original settings, whenever those hold
/// nothing of the app and no empty `env`, `hooks` or `SessionStart`, and
/// the text the merge wrote reads back as the merged settings.
pub proof fn law_unmerge_file_restores(contents: Option<Seq<char>>)
    requires
        spec_read_settings(contents) matches Ok(cur) && restorable(cur)
            && spec_read_settings(Some(rendered(spec_apply_merge(cur)->Ok_0)))
                == Ok::<Entries, SettingsErrorV>(spec_apply_merge(cur)->Ok_0),
    ensures
        spec_merge_file(contents) matches Ok(Some(t))
            && spec_unmerge_file(Some(t)) == Ok::<Option<Seq<char>>, SettingsErrorV>(Some(rendered(spec_read_settings(contents)->Ok_0))),
{
    let cur = spec_read_settings(contents)->Ok_0;
    law_unmerge_restores(cur);
    lemma_merge_differs(cur);
}

/// Every env entry that raises a conflict has it among the conflicts.
proof fn lemma_conflicts_in_has(env: Entries, j: int)
    requires
        0 <= j < env.len(),
        conflict_of(env[j]) is Some,
    ensures
        conflicts_in(env).contains(conflict_of(env[j])->0),
    decreases env.len(),
{
    let t = env.drop_last();
    let r = conflicts_in(t);
    if j == env.len() - 1 {
        assert(conflicts_in(env) == r.push(conflict_of(env[j])->0));
        assert(conflicts_in(env)[r.len() as int] == conflict_of(env[j])->0);
    } else {
        assert(t[j] == env[j]);
        lemma_conflicts_in_has(t, j);
        let k = choose|k: int| 0 <= k < r.len() && r[k] == conflict_of(env[j])->0;
        match conflict_of(env.last()) {
            Some(c) => { assert(conflicts_in(env)[k] == r[k]); },
            None => {},
        }
    }
}

/// Every conflict comes from an env entry.
proof fn lemma_conflicts_in_from(env: Entries)
    ensures
        forall|k: int| #![trigger conflicts_in(env)[k]] 0 <= k < conflicts_in(env).len() ==> exists|j: int| 0 <= j < env.len()
            && conflict_of(#[trigger] env[j]) == Some(conflicts_in(env)[k]),
    decreases env.len(),
{
    if env.len() > 0 {
        let t = env.drop_last();
        lemma_conflicts_in_from(t);
        let r = conflicts_in(t);
        assert forall|k: int| #![trigger conflicts_in(env)[k]] 0 <= k < conflicts_in(env).len() implies exists|j: int| 0 <= j < env.len()
            && conflict_of(#[trigger] env[j]) == Some(conflicts_in(env)[k]) by {
            if k < r.len() {
                let j = choose|j: int| 0 <= j < t.len() && conflict_of(#[trigger] t[j]) == Some(r[k]);
                assert(env[j] == t[j]);
                match conflict_of(env.last()) {
                    Some(c) => { assert(conflicts_in(env)[k] == r[k]); },
                    None => {},
                }
            } else {
                assert(conflict_of(env[env.len() - 1]) == Some(conflicts_in(env)[k]));
            }
        }
    }
}

/// The app value of each app-owned key.
proof fn lemma_app_value_for(i: int)
    requires
        0 <= i < 5,
    ensures
        app_value_for(app_env()[i].0) == Some(app_env()[i].1),
{
    lemma_literals();
}

/// An app-owned env key the user holds at any other value is reported as
/// a conflict, with the app value as the proposal; and every conflict on
/// an app-owned key is such a one: a key at its app value is never one.
pub proof fn law_conflicts_flag_every_overwrite(cur: Entries, i: int)
    requires
        0 <= i < 5,
    ensures
        (obj_get(cur, "env"@) matches Some(JsonV::Object(env)) && (obj_get(env, app_env()[i].0) matches Some(v)
            && v != JsonV::Str(app_env()[i].1)))
            ==> spec_detect_conflicts(cur).contains(
                (app_env()[i].0, obj_get(env_of(cur), app_env()[i].0)->0, Some(app_env()[i].1))),
        forall|k: int| 0 <= k < spec_detect_conflicts(cur).len()
            && (#[trigger] spec_detect_conflicts(cur)[k]).0 == app_env()[i].0
            ==> spec_detect_conflicts(cur)[k].2 == Some(app_env()[i].1)
                && spec_detect_conflicts(cur)[k].1 != JsonV::Str(app_env()[i].1),
{
    lemma_app_value_for(i);
    let key = app_env()[i].0;
    match obj_get(cur, "env"@) {
        Some(JsonV::Object(env)) => {
            lemma_find_key_result(env, key);
            match obj_get(env, key) {
                Some(v) => {
                    let j = find_key(env, key)->Some_0;
                    assert(env[j] == (key, v));
                    if v != JsonV::Str(app_env()[i].1) {
                        lemma_conflicts_in_has(env, j);
                    }
                },
                None => {},
            }
            lemma_conflicts_in_from(env);
            assert forall|k: int| 0 <= k < spec_detect_conflicts(cur).len()
                && (#[trigger] spec_detect_conflicts(cur)[k]).0 == key
                implies spec_detect_conflicts(cur)[k].2 == Some(app_env()[i].1)
                    && spec_detect_conflicts(cur)[k].1 != JsonV::Str(app_env()[i].1) by {
                let j = choose|j: int| 0 <= j < env.len()
                    && conflict_of(#[trigger] env[j]) == Some(conflicts_in(env)[k]);
                assert(env[j].0 == key);
            }
        },
        _ => {},
    }
}

/// Keys other than the app's own: a key that signals another telemetry
/// setup (an `OTEL_` prefix, or a `CLAUDE_CODE_` prefix with `TELEMETRY`
/// in it) is reported with no proposal, whatever its value; any other key
/// is never reported.
pub proof fn law_conflicts_on_other_keys(cur: Entries, key: Seq<char>)
    requires
        forall|i: int| 0 <= i < 5 ==> key != (#[trigger] app_env()[i]).0,
    ensures
        (obj_get(cur, "env"@) matches Some(JsonV::Object(env)) && obj_get(env, key) is Some
            && (has_prefix(utf8(key), utf8("OTEL_"@))
                || (has_prefix(utf8(key), utf8("CLAUDE_CODE_"@)) && has_infix(utf8(key), utf8("TELEMETRY"@)))))
            ==> spec_detect_conflicts(cur).contains((key, obj_get(env_of(cur), key)->0, None)),
        !(has_prefix(utf8(key), utf8("OTEL_"@))
            || (has_prefix(utf8(key), utf8("CLAUDE_CODE_"@)) && has_infix(utf8(key), utf8("TELEMETRY"@))))
            ==> forall|k: int| 0 <= k < spec_detect_conflicts(cur).len()
                ==> (#[trigger] spec_detect_conflicts(cur)[k]).0 != key,
{
    assert(app_value_for(key) is None) by {
        assert(key != app_env()[0].0);
        assert(key != app_env()[1].0);
        assert(key != app_env()[2].0);
        assert(key != app_env()[3].0);
        assert(key != app_env()[4].0);
    }
    match obj_get(cur, "env"@) {
        Some(JsonV::Object(env)) => {
            lemma_find_key_result(env, key);
            match obj_get(env, key) {
                Some(v) => {
                    let j = find_key(env, key)->Some_0;
                    assert(env[j] == (key, v));
                    if conflict_of(env[j]) is Some {
                        lemma_conflicts_in_has(env, j);
                    }
                },
                None => {},
            }
            lemma_conflicts_in_from(env);
            assert forall|k: int| 0 <= k < spec_detect_conflicts(cur).len()
                && (#[trigger] spec_detect_conflicts(cur)[k]).0 == key
                implies has_prefix(utf8(key), utf8("OTEL_"@))
                    || (has_prefix(utf8(key), utf8("CLAUDE_CODE_"@)) && has_infix(utf8(key), utf8("TELEMETRY"@))) by {
                let j = choose|j: int| 0 <= j < env.len()
                    && conflict_of(#[trigger] env[j]) == Some(conflicts_in(env)[k]);
                assert(env[j].0 == key);
            }
        },
        _ => {},
    }
}

} // verus!
