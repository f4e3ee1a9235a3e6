//! Onboarding: the before/after preview of settings.json with its line
//! diff and conflicts, and the conflict-checked apply. Nothing here writes;
//! the caller writes what [`apply`] returns.
use vstd::prelude::*;
use crate::json::{Json, JsonV, Entries, entry_views, json_eq, json_equal};
use crate::codec::render_pretty;
use crate::settings::{Conflict, SettingsError, SettingsErrorV, JsonMap, read_settings, spec_read_settings, apply_merge, spec_apply_merge, is_installed, spec_is_installed, detect_conflicts, spec_detect_conflicts, conflicts_view, describe, describe_settings_error, rendered};
use crate::text::{cat, cat3, decimal, decimal_text, push_char};
use vstd::string::StringExecFns;

verus! {

/// How a line fares between two texts.
#[derive(Debug, Clone, Copy, PartialEq, Eq, Structural)]
pub enum LineChange {
    Equal,
    Insert,
    Delete,
}

/// The changes of a line diff from `before` to `after` (Myers, no
/// deadline), each line with its trailing newline, in order.
pub uninterp spec fn text_line_changes(before: Seq<char>, after: Seq<char>) -> Seq<(LineChange, Seq<char>)>;

pub open spec fn change_views(v: Seq<(LineChange, String)>) -> Seq<(LineChange, Seq<char>)> {
    v.map_values(|c: (LineChange, String)| (c.0, c.1@))
}

/// `similar::TextDiff::from_lines(before, after).iter_all_changes()`, each
/// change as its tag and text. Claims only that the list is the named
/// diff of the two texts.
#[verifier::external_body]
fn line_changes(before: &str, after: &str) -> (r: Vec<(LineChange, String)>)
    ensures
        change_views(r@) == text_line_changes(before@, after@),
{
    let mut out = Vec::new();
    for change in similar::TextDiff::from_lines(before, after).iter_all_changes() {
        let tag = match change.tag() {
            similar::ChangeTag::Equal => LineChange::Equal,
            similar::ChangeTag::Insert => LineChange::Insert,
            similar::ChangeTag::Delete => LineChange::Delete,
        };
        out.push((tag, change.value().to_string()));
    }
    out
}

/// One line of the preview diff.
#[derive(Debug, Clone, PartialEq, Eq)]
pub struct DiffLine {
    /// `"context"`, `"add"`, or `"remove"`.
    pub kind: &'static str,
    /// Line text without the trailing newline.
    pub text: String,
}

pub open spec fn kind_of(c: LineChange) -> Seq<char> {
    match c {
        LineChange::Equal => "context"@,
        LineChange::Insert => "add"@,
        LineChange::Delete => "remove"@,
    }
}

/// `s.trim_end_matches('\n')`.
pub open spec fn trim_newlines(s: Seq<char>) -> Seq<char>
    decreases s.len(),
{
    if s.len() > 0 && s.last() == '\n' {
        trim_newlines(s.drop_last())
    } else {
        s
    }
}

pub open spec fn diff_views(v: Seq<DiffLine>) -> Seq<(Seq<char>, Seq<char>)> {
    v.map_values(|d: DiffLine| (d.kind@, d.text@))
}

/// The preview diff: every change of the line diff, tagged and without
/// its trailing newlines.
pub open spec fn spec_diff_lines(before: Seq<char>, after: Seq<char>) -> Seq<(Seq<char>, Seq<char>)> {
    text_line_changes(before, after).map_values(|c: (LineChange, Seq<char>)| (kind_of(c.0), trim_newlines(c.1)))
}

fn trimmed(s: &str) -> (r: String)
    ensures
        r@ == trim_newlines(s@),
{
    let n = s.unicode_len();
    let mut k: usize = n;
    assert(s@.subrange(0, n as int) =~= s@);
    while k > 0 && s.get_char(k - 1) == '\n'
        invariant
            n == s@.len(),
            k <= n,
            trim_newlines(s@) == trim_newlines(s@.subrange(0, k as int)),
        decreases k,
    {
        proof {
            assert(s@.subrange(0, k as int).drop_last() =~= s@.subrange(0, k - 1));
        }
        k -= 1;
    }
    let mut out = String::new();
    let mut i: usize = 0;
    while i < k
        invariant
            n == s@.len(),
            k <= n,
            i <= k,
            out@ == s@.subrange(0, i as int),
        decreases k - i,
    {
        push_char(&mut out, s.get_char(i));
        proof { assert(s@.subrange(0, i + 1) =~= s@.subrange(0, i as int).push(s@[i as int])); }
        i += 1;
    }
    out
}

fn kind_text(c: LineChange) -> (r: &'static str)
    ensures
        r@ == kind_of(c),
{
    match c {
        LineChange::Equal => "context",
        LineChange::Insert => "add",
        LineChange::Delete => "remove",
    }
}

/// Line-based diff for the preview screen (see [`spec_diff_lines`]).
pub fn diff_lines(before: &str, after: &str) -> (r: Vec<DiffLine>)
    ensures
        diff_views(r@) == spec_diff_lines(before@, after@),
{
    let changes = line_changes(before, after);
    let ghost want = spec_diff_lines(before@, after@);
    let mut out: Vec<DiffLine> = Vec::new();
    let mut i: usize = 0;
    while i < changes.len()
        invariant
            i <= changes@.len(),
            change_views(changes@) == text_line_changes(before@, after@),
            want == spec_diff_lines(before@, after@),
            diff_views(out@) == want.subrange(0, i as int),
        decreases changes@.len() - i,
    {
        let d = DiffLine { kind: kind_text(changes[i].0), text: trimmed(changes[i].1.as_str()) };
        let ghost before_out = out@;
        out.push(d);
        proof {
            assert(change_views(changes@)[i as int] == (changes@[i as int].0, changes@[i as int].1@));
            assert(diff_views(out@) =~= diff_views(before_out).push((d.kind@, d.text@)));
            assert(want.subrange(0, i + 1) =~= want.subrange(0, i as int).push(want[i as int]));
        }
        i += 1;
    }
    assert(want.subrange(0, i as int) =~= want);
    out
}

/// Pretty-prints settings exactly as the merge writes them (2-space
/// indent, trailing newline).
pub fn render(map: &JsonMap) -> (r: String)
    ensures
        r@ == rendered(entry_views(map@)),
{
    let j = Json::Object(crate::json::clone_map(map));
    let text = render_pretty(&j);
    cat(text.as_str(), "\n")
}

/// Everything the onboarding UI needs to render the right screen.
#[derive(Debug, PartialEq)]
pub struct OnboardingStatus {
    /// All app env keys and the SessionStart hook are present.
    pub installed: bool,
    /// Whether applying the merge would change the file at all.
    pub changed: bool,
    /// Pre-existing telemetry config the merge would interact with.
    pub conflicts: Vec<Conflict>,
    /// Display path of the settings file.
    pub settings_path: String,
    /// The settings as they are now, rendered as the merge writes them.
    pub before: String,
    /// The settings as they would be after the merge.
    pub after: String,
    /// Line diff of `before` to `after`.
    pub diff: Vec<DiffLine>,
}

/// What reading the file gave, as values (`Ok(None)`: it does not exist).
pub open spec fn read_view(read: Result<Option<String>, SettingsError>) -> Result<Option<Seq<char>>, SettingsErrorV> {
    match read {
        Ok(Some(s)) => Ok(Some(s@)),
        Ok(None) => Ok(None),
        Err(e) => Err(e@),
    }
}

pub open spec fn parse_read(read: Result<Option<Seq<char>>, SettingsErrorV>) -> Result<Entries, SettingsErrorV> {
    match read {
        Ok(c) => spec_read_settings(c),
        Err(e) => Err(e),
    }
}

fn parse_settings(read: &Result<Option<String>, SettingsError>, settings_path: &str) -> (r: Result<JsonMap, String>)
    ensures
        match r {
            Ok(m) => parse_read(read_view(*read)) == Ok::<Entries, SettingsErrorV>(entry_views(m@))
                && crate::json::wf(JsonV::Object(entry_views(m@))),
            Err(msg) => parse_read(read_view(*read)) matches Err(e) && msg@ == describe(e, settings_path@),
        },
{
    let parsed = match read {
        Ok(Some(s)) => read_settings(Some(s.as_str())),
        Ok(None) => read_settings(None),
        Err(e) => { return Err(describe_settings_error(e, settings_path)); },
    };
    match parsed {
        Ok(m) => Ok(m),
        Err(e) => Err(describe_settings_error(&e, settings_path)),
    }
}

/// The full preview of the settings file as read: errors come back as
/// display text; the merge engine never writes on them.
pub fn compute_status(read: &Result<Option<String>, SettingsError>, settings_path: &str) -> (r: Result<OnboardingStatus, String>)
    ensures
        match r {
            Ok(st) => parse_read(read_view(*read)) matches Ok(cur) && spec_apply_merge(cur) matches Ok(merged)
                && st.installed == spec_is_installed(cur)
                && st.changed == !json_eq(JsonV::Object(merged), JsonV::Object(cur))
                && conflicts_view(st.conflicts@) == spec_detect_conflicts(cur)
                && st.settings_path@ == settings_path@
                && st.before@ == rendered(cur)
                && st.after@ == rendered(merged)
                && diff_views(st.diff@) == spec_diff_lines(rendered(cur), rendered(merged)),
            Err(msg) => match parse_read(read_view(*read)) {
                Err(e) => msg@ == describe(e, settings_path@),
                Ok(cur) => spec_apply_merge(cur) matches Err(site)
                    && msg@ == describe(SettingsErrorV::UnexpectedShape(site), settings_path@),
            },
        },
{
    let current = parse_settings(read, settings_path)?;
    let merged = match apply_merge(&current) {
        Ok(m) => m,
        Err(e) => { return Err(describe_settings_error(&e, settings_path)); },
    };
    let before = render(&current);
    let after = render(&merged);
    let diff = diff_lines(before.as_str(), after.as_str());
    let cur_json = Json::Object(crate::json::clone_map(&current));
    let merged_json = Json::Object(crate::json::clone_map(&merged));
    let changed = !json_equal(&merged_json, &cur_json);
    Ok(OnboardingStatus {
        installed: is_installed(&current),
        changed,
        conflicts: detect_conflicts(&current),
        settings_path: String::from_str(settings_path),
        before,
        after,
        diff,
    })
}

/// The refusal when conflicts exist and were not acknowledged.
pub open spec fn unacknowledged_message(n: nat) -> Seq<char> {
    "settings.json has "@ + decimal_text(n) + " pre-existing telemetry setting(s); explicit confirmation required"@
}

/// Applies the merge after confirmation, re-checking conflicts on the file
/// as read now: with conflicts and no acknowledgement it refuses. Returns
/// the new contents to back up and write, or `None` when the file already
/// is in the merged state.
pub fn apply(read: &Result<Option<String>, SettingsError>, settings_path: &str, acknowledge_conflicts: bool)
    -> (r: Result<Option<String>, String>)
    ensures
        match parse_read(read_view(*read)) {
            Err(e) => r is Err && r->Err_0@ == describe(e, settings_path@),
            Ok(cur) => if spec_detect_conflicts(cur).len() > 0 && !acknowledge_conflicts {
                r is Err && r->Err_0@ == unacknowledged_message(spec_detect_conflicts(cur).len())
            } else {
                match spec_apply_merge(cur) {
                    Err(site) => r is Err && r->Err_0@ == describe(SettingsErrorV::UnexpectedShape(site), settings_path@),
                    Ok(merged) => r is Ok && match r->Ok_0 {
                        Some(t) => spec_merge_file_of(cur) == Some(t@),
                        None => spec_merge_file_of(cur) is None,
                    },
                }
            },
        },
{
    let current = parse_settings(read, settings_path)?;
    let conflicts = detect_conflicts(&current);
    if conflicts.len() > 0 && !acknowledge_conflicts {
        proof { assert(conflicts_view(conflicts@).len() == conflicts@.len()); }
        let n = decimal(conflicts.len() as u64);
        return Err(cat3("settings.json has ", n.as_str(),
            " pre-existing telemetry setting(s); explicit confirmation required"));
    }
    let merged = match apply_merge(&current) {
        Ok(m) => m,
        Err(e) => { return Err(describe_settings_error(&e, settings_path)); },
    };
    let t = Json::Object(merged);
    let c = Json::Object(crate::json::clone_map(&current));
    if json_equal(&t, &c) {
        Ok(None)
    } else {
        let text = render_pretty(&t);
        Ok(Some(cat(text.as_str(), "\n")))
    }
}

/// The rewrite a merge of parsed settings calls for (`None`: unchanged).
pub open spec fn spec_merge_file_of(cur: Entries) -> Option<Seq<char>> {
    match spec_apply_merge(cur) {
        Ok(m) => crate::settings::rewrite_of(cur, m),
        Err(_) => None,
    }
}

/// Applying decides as merging the file does: once the settings read and
/// the merge goes through, the rewrite `apply` hands back is the one
/// `merge_file` decides on the same contents.
pub proof fn law_apply_decides_as_merge_file(contents: Option<Seq<char>>)
    requires
        spec_read_settings(contents) matches Ok(cur) && spec_apply_merge(cur) is Ok,
    ensures
        crate::settings::spec_merge_file(contents)
            == Ok::<Option<Seq<char>>, SettingsErrorV>(spec_merge_file_of(spec_read_settings(contents)->Ok_0)),
{
}

/// Applying on settings that already hold the whole install asks for no
/// write.
pub proof fn law_apply_on_installed_writes_nothing(cur: Entries)
    requires
        crate::json::wf(JsonV::Object(cur)),
        spec_is_installed(cur),
    ensures
        spec_apply_merge(cur) is Ok,
        spec_merge_file_of(cur) is None,
{
    crate::merge_laws::law_merge_installed_is_noop(cur);
    crate::json::lemma_json_eq_refl(JsonV::Object(cur));
}

/// What the done screen gets: the merge outcome and the best-effort
/// autostart registration.
#[derive(Debug, Clone, PartialEq, Eq)]
pub struct OnboardingApplyOutcome {
    /// Whether settings.json was rewritten.
    pub changed: bool,
    /// Backup written before the rewrite, when one was taken.
    pub backup_path: Option<String>,
    /// Whether the login item got registered.
    pub autostart_enabled: bool,
    /// Why autostart is not enabled, shown as a note.
    pub autostart_note: Option<String>,
}

} // verus!
