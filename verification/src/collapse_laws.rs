//! What collapsing a transcript guarantees: one entry per request, and
//! which streamed line of a request is the one kept.
use vstd::prelude::*;
use crate::transcript::{
    AssistantUsageV, TranscriptMessageV, MessageRole, first_match, lemma_first_match_found,
    has_request, is_assistant_turn, collapse_step, spec_collapse_requests, message_step,
    spec_collapse_messages,
};

verus! {

/// Index of the last element of `s` that satisfies `p`.
pub open spec fn last_match<A>(s: Seq<A>, p: spec_fn(A) -> bool) -> Option<int>
    decreases s.len(),
{
    if s.len() == 0 {
        None
    } else if p(s.last()) {
        Some(s.len() - 1)
    } else {
        last_match(s.drop_last(), p)
    }
}

proof fn lemma_last_match_found<A>(s: Seq<A>, p: spec_fn(A) -> bool)
    ensures
        match last_match(s, p) {
            Some(i) => 0 <= i < s.len() && p(s[i]),
            None => forall|j: int| 0 <= j < s.len() ==> !p(#[trigger] s[j]),
        },
    decreases s.len(),
{
    if s.len() > 0 && !p(s.last()) {
        let t = s.drop_last();
        lemma_last_match_found(t, p);
        match last_match(t, p) {
            Some(i) => {
                assert(t[i] == s[i]);
            },
            None => {
                assert forall|j: int| 0 <= j < s.len() implies !p(#[trigger] s[j]) by {
                    if j < t.len() {
                        assert(t[j] == s[j]);
                    }
                }
            },
        }
    }
}

/// `first_match` depends only on which elements satisfy `p`.
proof fn lemma_first_match_same<A>(s: Seq<A>, t: Seq<A>, p: spec_fn(A) -> bool)
    requires
        s.len() == t.len(),
        forall|j: int| 0 <= j < s.len() ==> p(#[trigger] s[j]) == p(t[j]),
    ensures
        first_match(s, p) == first_match(t, p),
    decreases s.len(),
{
    if s.len() > 0 {
        let (a, b) = (s.drop_last(), t.drop_last());
        assert forall|j: int| 0 <= j < a.len() implies p(#[trigger] a[j]) == p(b[j]) by {
            assert(a[j] == s[j] && b[j] == t[j]);
        }
        lemma_first_match_same(a, b, p);
        assert(p(s.last()) == p(t.last()));
    }
}

proof fn lemma_first_match_push<A>(s: Seq<A>, x: A, p: spec_fn(A) -> bool)
    ensures
        first_match(s.push(x), p) == (match first_match(s, p) {
            Some(i) => Some(i),
            None => if p(x) { Some(s.len() as int) } else { None },
        }),
{
    assert(s.push(x).drop_last() =~= s);
}

/// Lines of request `rid` that count: not synthetic.
pub open spec fn of_request(rid: Seq<char>) -> spec_fn(AssistantUsageV) -> bool {
    |l: AssistantUsageV| l.request_id == Some(rid) && !l.is_synthetic()
}

/// Lines of request `rid` that count and report usage.
pub open spec fn of_request_with_usage(rid: Seq<char>) -> spec_fn(AssistantUsageV) -> bool {
    |l: AssistantUsageV| l.request_id == Some(rid) && !l.is_synthetic() && l.has_usage()
}

/// The line a request keeps: its last line with non-zero usage, else its
/// last line; `None` for a request with no non-synthetic line.
pub open spec fn request_winner(lines: Seq<AssistantUsageV>, rid: Seq<char>) -> Option<AssistantUsageV> {
    match last_match(lines, of_request_with_usage(rid)) {
        Some(i) => Some(lines[i]),
        None => match last_match(lines, of_request(rid)) {
            Some(i) => Some(lines[i]),
            None => None,
        },
    }
}

/// The collapsed entry of request `rid`.
pub open spec fn collapsed_entry(out: Seq<AssistantUsageV>, rid: Seq<char>) -> Option<AssistantUsageV> {
    match first_match(out, has_request(rid)) {
        Some(j) => Some(out[j]),
        None => None,
    }
}

proof fn lemma_winner_drop_last(lines: Seq<AssistantUsageV>, rid: Seq<char>)
    requires
        lines.len() > 0,
        !of_request(rid)(lines.last()),
    ensures
        request_winner(lines, rid) == request_winner(lines.drop_last(), rid),
{
    let t = lines.drop_last();
    lemma_last_match_found(t, of_request_with_usage(rid));
    lemma_last_match_found(t, of_request(rid));
    match last_match(t, of_request_with_usage(rid)) {
        Some(i) => { assert(t[i] == lines[i]); },
        None => match last_match(t, of_request(rid)) {
            Some(i) => { assert(t[i] == lines[i]); },
            None => {},
        },
    }
}

/// Collapsing keeps one entry per request, each with a `requestId` and
/// none synthetic, and no two entries share a `requestId`.
pub proof fn law_collapsed_requests_are_distinct(lines: Seq<AssistantUsageV>)
    ensures
        forall|i: int| 0 <= i < spec_collapse_requests(lines).len() ==> {
            let e = #[trigger] spec_collapse_requests(lines)[i];
            e.request_id is Some && !e.is_synthetic()
        },
        forall|i: int, j: int| 0 <= i < j < spec_collapse_requests(lines).len() ==>
            (#[trigger] spec_collapse_requests(lines)[i]).request_id != (#[trigger] spec_collapse_requests(lines)[j]).request_id,
    decreases lines.len(),
{
    if lines.len() > 0 {
        let prev = spec_collapse_requests(lines.drop_last());
        let l = lines.last();
        law_collapsed_requests_are_distinct(lines.drop_last());
        if !l.is_synthetic() && l.request_id is Some {
            let rid = l.request_id->0;
            lemma_first_match_found(prev, has_request(rid));
        }
    }
}

/// For every request, the collapsed entry is the request's last line with
/// non-zero usage, or its last line when none reports usage (trailing
/// all-zero streaming lines lose to an earlier real line); a request with
/// no non-synthetic line has no entry.
pub proof fn law_last_real_line_wins(lines: Seq<AssistantUsageV>, rid: Seq<char>)
    ensures
        collapsed_entry(spec_collapse_requests(lines), rid) == request_winner(lines, rid),
    decreases lines.len(),
{
    if lines.len() > 0 {
        let t = lines.drop_last();
        let prev = spec_collapse_requests(t);
        let l = lines.last();
        let n = lines.len() - 1;
        law_last_real_line_wins(t, rid);
        law_collapsed_requests_are_distinct(t);
        let out = spec_collapse_requests(lines);
        assert(out == collapse_step(prev, l));
        lemma_first_match_found(prev, has_request(rid));
        if l.is_synthetic() || l.request_id is None {
            lemma_winner_drop_last(lines, rid);
        } else {
            let r = l.request_id->0;
            lemma_first_match_found(prev, has_request(r));
            if r != rid {
                lemma_winner_drop_last(lines, rid);
                match first_match(prev, has_request(r)) {
                    None => {
                        lemma_first_match_push(prev, l, has_request(rid));
                    },
                    Some(i) => {
                        if l.has_usage() || !prev[i].has_usage() {
                            let u = prev.update(i, l);
                            assert forall|j: int| 0 <= j < prev.len() implies
                                has_request(rid)(#[trigger] prev[j]) == has_request(rid)(u[j]) by {}
                            lemma_first_match_same(prev, u, has_request(rid));
                        }
                    },
                }
            } else {
                lemma_last_match_found(t, of_request_with_usage(rid));
                lemma_last_match_found(t, of_request(rid));
                assert(of_request(rid)(l));
                match first_match(prev, has_request(rid)) {
                    None => {
                        lemma_first_match_push(prev, l, has_request(rid));
                        assert(out == prev.push(l));
                        assert(out[prev.len() as int] == l);
                    },
                    Some(i) => {
                        if l.has_usage() || !prev[i].has_usage() {
                            let u = prev.update(i, l);
                            assert(out == u);
                            assert forall|j: int| 0 <= j < prev.len() implies
                                has_request(rid)(#[trigger] prev[j]) == has_request(rid)(u[j]) by {}
                            lemma_first_match_same(prev, u, has_request(rid));
                            if !l.has_usage() {
                                match last_match(t, of_request_with_usage(rid)) {
                                    Some(k) => {},
                                    None => {},
                                }
                            }
                        } else {
                            match last_match(t, of_request_with_usage(rid)) {
                                Some(k) => { assert(t[k] == lines[k]); },
                                None => {
                                    match last_match(t, of_request(rid)) {
                                        Some(k) => {
                                            assert(of_request_with_usage(rid)(t[k]));
                                        },
                                        None => {},
                                    }
                                },
                            }
                        }
                    },
                }
            }
        }
    }
}

/// Matches user turns.
pub open spec fn is_user_turn() -> spec_fn(TranscriptMessageV) -> bool {
    |m: TranscriptMessageV| m.role == MessageRole::User
}

/// The turn a request keeps: its last assistant turn.
pub open spec fn turn_winner(ms: Seq<TranscriptMessageV>, rid: Seq<char>) -> Option<TranscriptMessageV> {
    match last_match(ms, is_assistant_turn(rid)) {
        Some(i) => Some(ms[i]),
        None => None,
    }
}

/// The collapsed assistant turn of request `rid`.
pub open spec fn collapsed_turn(out: Seq<TranscriptMessageV>, rid: Seq<char>) -> Option<TranscriptMessageV> {
    match first_match(out, is_assistant_turn(rid)) {
        Some(j) => Some(out[j]),
        None => None,
    }
}

proof fn lemma_filter_push<A>(s: Seq<A>, x: A, p: spec_fn(A) -> bool)
    ensures
        s.push(x).filter(p) == if p(x) { s.filter(p).push(x) } else { s.filter(p) },
{
    reveal(Seq::filter);
    assert(s.push(x).drop_last() =~= s);
}

proof fn lemma_filter_update<A>(s: Seq<A>, i: int, x: A, p: spec_fn(A) -> bool)
    requires
        0 <= i < s.len(),
        !p(s[i]),
        !p(x),
    ensures
        s.update(i, x).filter(p) == s.filter(p),
    decreases s.len(),
{
    reveal(Seq::filter);
    let u = s.update(i, x);
    if i == s.len() - 1 {
        assert(u.drop_last() =~= s.drop_last());
    } else {
        assert(u.drop_last() =~= s.drop_last().update(i, x));
        lemma_filter_update(s.drop_last(), i, x, p);
    }
}

/// User turns pass through collapsing unchanged and in order.
pub proof fn law_user_turns_pass_through(ms: Seq<TranscriptMessageV>)
    ensures
        spec_collapse_messages(ms).filter(is_user_turn()) == ms.filter(is_user_turn()),
    decreases ms.len(),
{
    reveal(Seq::filter);
    if ms.len() > 0 {
        let t = ms.drop_last();
        let prev = spec_collapse_messages(t);
        let m = ms.last();
        law_user_turns_pass_through(t);
        match m.role {
            MessageRole::User => {
                lemma_filter_push(prev, m, is_user_turn());
            },
            MessageRole::Assistant => match m.request_id {
                None => {},
                Some(r) => {
                    lemma_first_match_found(prev, is_assistant_turn(r));
                    match first_match(prev, is_assistant_turn(r)) {
                        None => { lemma_filter_push(prev, m, is_user_turn()); },
                        Some(i) => { lemma_filter_update(prev, i, m, is_user_turn()); },
                    }
                },
            },
        }
    }
}

/// For every request, the collapsed assistant turn is the request's last
/// assistant turn (the last streamed chunk); a request with no assistant
/// turn has none.
pub proof fn law_last_assistant_turn_wins(ms: Seq<TranscriptMessageV>, rid: Seq<char>)
    ensures
        collapsed_turn(spec_collapse_messages(ms), rid) == turn_winner(ms, rid),
    decreases ms.len(),
{
    if ms.len() > 0 {
        let t = ms.drop_last();
        let prev = spec_collapse_messages(t);
        let m = ms.last();
        law_last_assistant_turn_wins(t, rid);
        let out = spec_collapse_messages(ms);
        assert(out == message_step(prev, m));
        lemma_first_match_found(prev, is_assistant_turn(rid));
        lemma_last_match_found(t, is_assistant_turn(rid));
        match last_match(t, is_assistant_turn(rid)) {
            Some(k) => { assert(t[k] == ms[k]); },
            None => {},
        }
        match m.role {
            MessageRole::User => {
                lemma_first_match_push(prev, m, is_assistant_turn(rid));
            },
            MessageRole::Assistant => match m.request_id {
                None => {},
                Some(r) => {
                    lemma_first_match_found(prev, is_assistant_turn(r));
                    match first_match(prev, is_assistant_turn(r)) {
                        None => {
                            lemma_first_match_push(prev, m, is_assistant_turn(rid));
                            assert(out[prev.len() as int] == m);
                        },
                        Some(i) => {
                            let u = prev.update(i, m);
                            assert forall|j: int| 0 <= j < prev.len() implies
                                is_assistant_turn(rid)(#[trigger] prev[j]) == is_assistant_turn(rid)(u[j]) by {}
                            lemma_first_match_same(prev, u, is_assistant_turn(rid));
                        },
                    }
                },
            },
        }
    }
}


/// Index of the first non-synthetic line of request `rid`.
pub open spec fn first_seen(lines: Seq<AssistantUsageV>, rid: Seq<char>) -> Option<int> {
    first_match(lines, of_request(rid))
}

/// Collapsing keeps first-seen order: an entry before another belongs to
/// a request whose first (non-synthetic) line comes earlier.
pub proof fn law_collapsed_requests_keep_first_seen_order(lines: Seq<AssistantUsageV>)
    ensures
        forall|i: int| 0 <= i < spec_collapse_requests(lines).len()
            ==> #[trigger] first_seen(lines, spec_collapse_requests(lines)[i].request_id->0) is Some,
        forall|i: int, j: int| 0 <= i < j < spec_collapse_requests(lines).len() ==>
            first_seen(lines, (#[trigger] spec_collapse_requests(lines)[i]).request_id->0)->0
                < first_seen(lines, (#[trigger] spec_collapse_requests(lines)[j]).request_id->0)->0,
    decreases lines.len(),
{
    if lines.len() > 0 {
        let t = lines.drop_last();
        let prev = spec_collapse_requests(t);
        let l = lines.last();
        let out = spec_collapse_requests(lines);
        law_collapsed_requests_keep_first_seen_order(t);
        law_collapsed_requests_are_distinct(t);
        assert(lines =~= t.push(l));
        assert forall|k: int| 0 <= k < prev.len() implies
            #[trigger] first_seen(lines, prev[k].request_id->0) == first_seen(t, prev[k].request_id->0) by {
            lemma_first_match_push(t, l, of_request(prev[k].request_id->0));
            lemma_first_match_found(t, of_request(prev[k].request_id->0));
        }
        if !l.is_synthetic() && l.request_id is Some {
            let r = l.request_id->0;
            lemma_first_match_found(prev, has_request(r));
            match first_match(prev, has_request(r)) {
                None => {
                    law_last_real_line_wins(t, r);
                    lemma_last_match_found(t, of_request_with_usage(r));
                    lemma_last_match_found(t, of_request(r));
                    lemma_first_match_found(t, of_request(r));
                    lemma_first_match_push(t, l, of_request(r));
                    assert(first_seen(lines, r) == Some(t.len() as int));
                    assert(out == prev.push(l));
                    assert forall|k: int| 0 <= k < prev.len() implies
                        first_seen(lines, (#[trigger] prev[k]).request_id->0)->0 < t.len() by {
                        lemma_first_match_found(t, of_request(prev[k].request_id->0));
                    }
                },
                Some(i) => {},
            }
        }
    }
}

/// Collapsing a list that already holds one non-synthetic entry per
/// request, each with a `requestId`, gives it back unchanged.
proof fn lemma_collapse_of_collapsed(s: Seq<AssistantUsageV>)
    requires
        forall|i: int| 0 <= i < s.len() ==> (#[trigger] s[i]).request_id is Some && !s[i].is_synthetic(),
        forall|i: int, j: int| 0 <= i < j < s.len() ==> (#[trigger] s[i]).request_id != (#[trigger] s[j]).request_id,
    ensures
        spec_collapse_requests(s) == s,
    decreases s.len(),
{
    if s.len() > 0 {
        let t = s.drop_last();
        assert forall|i: int| 0 <= i < t.len() implies (#[trigger] t[i]).request_id is Some && !t[i].is_synthetic() by {
            assert(t[i] == s[i]);
        }
        assert forall|i: int, j: int| 0 <= i < j < t.len() implies (#[trigger] t[i]).request_id != (#[trigger] t[j]).request_id by {
            assert(t[i] == s[i] && t[j] == s[j]);
        }
        lemma_collapse_of_collapsed(t);
        let l = s.last();
        assert(l == s[s.len() - 1]);
        let rid = l.request_id->0;
        lemma_first_match_found(t, has_request(rid));
        if first_match(t, has_request(rid)) is Some {
            let i = first_match(t, has_request(rid))->0;
            assert(t[i] == s[i]);
            assert(s[i].request_id != s[s.len() - 1].request_id);
        }
        assert(t.push(l) =~= s);
    }
}

/// Collapsing keeps no more entries than lines, each entry one of the
/// lines.
proof fn lemma_collapse_from_lines(lines: Seq<AssistantUsageV>)
    ensures
        spec_collapse_requests(lines).len() <= lines.len(),
        forall|i: int| 0 <= i < spec_collapse_requests(lines).len() ==> lines.contains(#[trigger] spec_collapse_requests(lines)[i]),
    decreases lines.len(),
{
    if lines.len() > 0 {
        let t = lines.drop_last();
        lemma_collapse_from_lines(t);
        let prev = spec_collapse_requests(t);
        let l = lines.last();
        let out = spec_collapse_requests(lines);
        assert(lines[lines.len() - 1] == l);
        assert(out == collapse_step(prev, l));
        if !l.is_synthetic() && l.request_id is Some {
            lemma_first_match_found(prev, has_request(l.request_id->0));
        }
        assert(out.len() <= prev.len() + 1);
        assert forall|i: int| 0 <= i < out.len() implies lines.contains(#[trigger] out[i]) by {
            if out[i] == l {
                assert(lines[lines.len() - 1] == out[i]);
            } else {
                assert(i < prev.len() && out[i] == prev[i]);
                assert(t.contains(prev[i]));
                let k = choose|k: int| 0 <= k < t.len() && t[k] == prev[i];
                assert(lines[k] == t[k]);
            }
        }
    }
}

/// Collapsing is idempotent: collapsing a collapsed list changes nothing.
/// The collapsed list is never longer than the lines, and each of its
/// entries is one of the lines.
pub proof fn law_collapse_requests_idempotent(lines: Seq<AssistantUsageV>)
    ensures
        spec_collapse_requests(spec_collapse_requests(lines)) == spec_collapse_requests(lines),
        spec_collapse_requests(lines).len() <= lines.len(),
        forall|i: int| 0 <= i < spec_collapse_requests(lines).len() ==> lines.contains(#[trigger] spec_collapse_requests(lines)[i]),
{
    law_collapsed_requests_are_distinct(lines);
    lemma_collapse_of_collapsed(spec_collapse_requests(lines));
    lemma_collapse_from_lines(lines);
}

/// Each request's collapsed assistant turn stands where its first
/// assistant turn came: right after the entries that everything before
/// that turn collapses to.
pub proof fn law_turn_stands_at_first_occurrence(ms: Seq<TranscriptMessageV>, rid: Seq<char>)
    requires
        first_match(ms, is_assistant_turn(rid)) is Some,
    ensures
        first_match(spec_collapse_messages(ms), is_assistant_turn(rid))
            == Some(spec_collapse_messages(ms.subrange(0, first_match(ms, is_assistant_turn(rid))->0)).len() as int),
    decreases ms.len(),
{
    let p = is_assistant_turn(rid);
    let f = first_match(ms, p)->0;
    let t = ms.drop_last();
    let m = ms.last();
    let prev = spec_collapse_messages(t);
    assert(ms =~= t.push(m));
    lemma_first_match_push(t, m, p);
    lemma_first_match_found(prev, p);
    if first_match(t, p) is None {
        // `m` is the request's first assistant turn.
        assert(f == t.len());
        assert(ms.subrange(0, f) =~= t);
        law_last_assistant_turn_wins(t, rid);
        lemma_first_match_found(t, p);
        lemma_last_match_found(t, p);
        assert(first_match(prev, p) is None);
        lemma_first_match_push(prev, m, p);
    } else {
        lemma_first_match_found(t, p);
        assert(first_match(t, p) == Some(f));
        assert(ms.subrange(0, f) =~= t.subrange(0, f));
        law_turn_stands_at_first_occurrence(t, rid);
        match m.role {
            MessageRole::User => {
                lemma_first_match_push(prev, m, p);
            },
            MessageRole::Assistant => match m.request_id {
                None => {},
                Some(r) => {
                    lemma_first_match_found(prev, is_assistant_turn(r));
                    match first_match(prev, is_assistant_turn(r)) {
                        None => { lemma_first_match_push(prev, m, p); },
                        Some(i) => {
                            let u = prev.update(i, m);
                            assert forall|j: int| 0 <= j < prev.len() implies
                                p(#[trigger] prev[j]) == p(u[j]) by {
                                if j == i && r != rid {
                                    assert(!p(prev[j]));
                                }
                            }
                            lemma_first_match_same(prev, u, p);
                        },
                    }
                },
            },
        }
    }
}

} // verus!
