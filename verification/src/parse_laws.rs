//! What incremental transcript parsing relies on: the parse stops right
//! after the last complete line, and resuming at that offset gives exactly
//! the lines a whole parse would.
use vstd::prelude::*;
use crate::transcript::{TranscriptParseV, ParseStatsV, parse_from, spec_parse, line_step, empty_parse};
use crate::timestamp::first_index;

verus! {

/// Two parses one after the other: lines and messages concatenated,
/// counters and consumed bytes added.
pub open spec fn combine(p: TranscriptParseV, q: TranscriptParseV) -> TranscriptParseV {
    TranscriptParseV {
        lines: p.lines + q.lines,
        stats: ParseStatsV {
            lines_read: p.stats.lines_read + q.stats.lines_read,
            assistant_lines: p.stats.assistant_lines + q.stats.assistant_lines,
            skipped_lines: p.stats.skipped_lines + q.stats.skipped_lines,
            malformed_lines: p.stats.malformed_lines + q.stats.malformed_lines,
            invalid_assistant_lines: p.stats.invalid_assistant_lines + q.stats.invalid_assistant_lines,
        },
        bytes_consumed: p.bytes_consumed + q.bytes_consumed,
        messages: p.messages + q.messages,
    }
}

/// Whether `a` ends where a line ends (or is empty).
pub open spec fn ends_at_line(a: Seq<u8>) -> bool {
    a.len() == 0 || a.last() == 10u8
}

proof fn lemma_first_index_found(b: Seq<u8>, c: u8)
    ensures
        match first_index(b, c) {
            Some(i) => 0 <= i < b.len() && b[i] == c && forall|j: int| 0 <= j < i ==> b[j] != c,
            None => forall|j: int| 0 <= j < b.len() ==> b[j] != c,
        },
    decreases b.len(),
{
    if b.len() > 0 {
        let t = b.subrange(1, b.len() as int);
        lemma_first_index_found(t, c);
        if b[0] != c {
            match first_index(t, c) {
                Some(i) => {
                    assert(t[i] == b[i + 1]);
                    assert forall|j: int| 0 <= j < i + 1 implies b[j] != c by {
                        if j > 0 { assert(b[j] == t[j - 1]); }
                    }
                },
                None => {
                    assert forall|j: int| 0 <= j < b.len() implies b[j] != c by {
                        if j > 0 { assert(b[j] == t[j - 1]); }
                    }
                },
            }
        }
    }
}

proof fn lemma_first_index_concat(a: Seq<u8>, b: Seq<u8>, c: u8)
    requires
        first_index(a, c) is Some,
    ensures
        first_index(a + b, c) == first_index(a, c),
    decreases a.len(),
{
    if a[0] != c {
        let t = a.subrange(1, a.len() as int);
        assert((a + b).subrange(1, (a + b).len() as int) =~= t + b);
        lemma_first_index_concat(t, b, c);
    }
}

proof fn lemma_first_index_of_line(a: Seq<u8>)
    requires
        a.len() > 0,
        a.last() == 10u8,
    ensures
        first_index(a, 10u8) is Some,
{
    lemma_first_index_found(a, 10u8);
    if first_index(a, 10u8) is None {
        assert(a[a.len() - 1] != 10u8);
    }
}

proof fn lemma_step_combine(p: TranscriptParseV, q: TranscriptParseV, raw: Seq<u8>)
    ensures
        line_step(combine(p, q), raw) == combine(p, line_step(q, raw)),
{
    let c = combine(p, q);
    match crate::codec::json_from_slice(raw) {
        Ok(v) => {
            if !(v is Object) {
            } else if crate::transcript::str_field(v, "type"@) == Some("assistant"@) {
                match crate::transcript::spec_parse_assistant(v) {
                    Some(u) => { assert((p.lines + q.lines).push(u) =~= p.lines + q.lines.push(u)); },
                    None => {},
                }
                match crate::transcript::spec_parse_message(v, crate::transcript::MessageRole::Assistant) {
                    Some(m) => { assert((p.messages + q.messages).push(m) =~= p.messages + q.messages.push(m)); },
                    None => {},
                }
            } else if crate::transcript::str_field(v, "type"@) == Some("user"@) {
                match crate::transcript::spec_parse_message(v, crate::transcript::MessageRole::User) {
                    Some(m) => { assert((p.messages + q.messages).push(m) =~= p.messages + q.messages.push(m)); },
                    None => {},
                }
            }
        },
        Err(_) => {},
    }
}

/// Counting a line of `n` bytes commutes with putting a parse in front.
pub open spec fn counted(p: TranscriptParseV, n: int) -> TranscriptParseV {
    TranscriptParseV {
        stats: ParseStatsV { lines_read: p.stats.lines_read + 1, ..p.stats },
        bytes_consumed: p.bytes_consumed + n,
        ..p
    }
}

proof fn lemma_from_combine(p: TranscriptParseV, q: TranscriptParseV, rest: Seq<u8>)
    ensures
        parse_from(combine(p, q), rest) == combine(p, parse_from(q, rest)),
    decreases rest.len(),
{
    match first_index(rest, 10u8) {
        Some(i) => if 0 <= i < rest.len() {
            let raw = rest.subrange(0, i + 1);
            let tail = rest.subrange(i + 1, rest.len() as int);
            let cq = counted(q, i + 1);
            assert(counted(combine(p, q), i + 1) == combine(p, cq));
            lemma_step_combine(p, cq, raw);
            lemma_from_combine(p, line_step(cq, raw), tail);
        },
        None => {},
    }
}

proof fn lemma_from_concat(p: TranscriptParseV, a: Seq<u8>, b: Seq<u8>)
    requires
        ends_at_line(a),
    ensures
        parse_from(p, a + b) == parse_from(parse_from(p, a), b),
        parse_from(p, a).bytes_consumed == p.bytes_consumed + a.len(),
    decreases a.len(),
{
    if a.len() == 0 {
        assert(a + b =~= b);
    } else {
        lemma_first_index_of_line(a);
        lemma_first_index_found(a, 10u8);
        lemma_first_index_concat(a, b, 10u8);
        let i = first_index(a, 10u8)->0;
        let raw = a.subrange(0, i + 1);
        let tail = a.subrange(i + 1, a.len() as int);
        assert((a + b).subrange(0, i + 1) =~= raw);
        assert((a + b).subrange(i + 1, (a + b).len() as int) =~= tail + b);
        if tail.len() > 0 {
            assert(tail.last() == a.last());
        }
        lemma_from_concat(line_step(counted(p, i + 1), raw), tail, b);
    }
}

/// Parsing stops right after the last complete line: what it consumed
/// ends at a line, and what it left holds no newline.
pub proof fn law_consumed_ends_at_last_line(x: Seq<u8>)
    ensures
        0 <= spec_parse(x).bytes_consumed <= x.len(),
        ends_at_line(x.subrange(0, spec_parse(x).bytes_consumed)),
        forall|j: int| spec_parse(x).bytes_consumed <= j < x.len() ==> x[j] != 10u8,
{
    lemma_consumed(empty_parse(), x);
}

proof fn lemma_consumed(p: TranscriptParseV, x: Seq<u8>)
    ensures
        p.bytes_consumed <= parse_from(p, x).bytes_consumed <= p.bytes_consumed + x.len(),
        ({
            let k = parse_from(p, x).bytes_consumed - p.bytes_consumed;
            &&& (k == 0 || x[k - 1] == 10u8)
            &&& forall|j: int| k <= j < x.len() ==> x[j] != 10u8
        }),
    decreases x.len(),
{
    lemma_first_index_found(x, 10u8);
    match first_index(x, 10u8) {
        Some(i) => {
            let raw = x.subrange(0, i + 1);
            let tail = x.subrange(i + 1, x.len() as int);
            let q = line_step(counted(p, i + 1), raw);
            assert(q.bytes_consumed == p.bytes_consumed + i + 1);
            lemma_consumed(q, tail);
            let k2 = parse_from(q, tail).bytes_consumed - q.bytes_consumed;
            assert forall|j: int| k2 + i + 1 <= j < x.len() implies x[j] != 10u8 by {
                assert(x[j] == tail[j - i - 1]);
            }
            if k2 > 0 {
                assert(x[k2 + i] == tail[k2 - 1]);
            }
        },
        None => {},
    }
}

/// Resuming at a line boundary: parsing `a` then, from where it stopped,
/// `b` gives what parsing `a + b` at once gives (lines and messages in
/// order, counters and consumed bytes added up).
pub proof fn law_parse_resumes_at_line_boundary(a: Seq<u8>, b: Seq<u8>)
    requires
        ends_at_line(a),
    ensures
        spec_parse(a + b) == combine(spec_parse(a), spec_parse(b)),
        spec_parse(a).bytes_consumed == a.len(),
{
    lemma_from_concat(empty_parse(), a, b);
    let pa = spec_parse(a);
    assert(combine(pa, empty_parse()) =~= pa) by {
        assert(pa.lines + Seq::empty() =~= pa.lines);
        assert(pa.messages + Seq::empty() =~= pa.messages);
    }
    assert(combine(pa, empty_parse()) == pa);
    lemma_from_combine(pa, empty_parse(), b);
}

/// The number of `\n` bytes in `x`.
pub open spec fn newline_count(x: Seq<u8>) -> int
    decreases x.len(),
{
    if x.len() == 0 {
        0
    } else {
        (if x[0] == 10u8 { 1int } else { 0int }) + newline_count(x.drop_first())
    }
}

/// Counting up to and past the first newline.
proof fn lemma_newline_count_split(x: Seq<u8>, i: int)
    requires
        0 <= i < x.len(),
        x[i] == 10u8,
        forall|j: int| 0 <= j < i ==> x[j] != 10u8,
    ensures
        newline_count(x) == 1 + newline_count(x.subrange(i + 1, x.len() as int)),
    decreases i,
{
    if i == 0 {
        assert(x.drop_first() =~= x.subrange(1, x.len() as int));
    } else {
        let t = x.drop_first();
        assert forall|j: int| 0 <= j < i - 1 implies t[j] != 10u8 by {
            assert(t[j] == x[j + 1]);
        }
        lemma_newline_count_split(t, i - 1);
        assert(t.subrange(i, t.len() as int) =~= x.subrange(i + 1, x.len() as int));
    }
}

/// A text without a newline counts none.
proof fn lemma_newline_count_none(x: Seq<u8>)
    requires
        forall|j: int| 0 <= j < x.len() ==> x[j] != 10u8,
    ensures
        newline_count(x) == 0,
    decreases x.len(),
{
    if x.len() > 0 {
        let t = x.drop_first();
        assert forall|j: int| 0 <= j < t.len() implies t[j] != 10u8 by {
            assert(t[j] == x[j + 1]);
        }
        lemma_newline_count_none(t);
    }
}

/// The four kinds of line, added up.
pub open spec fn kinds_total(st: ParseStatsV) -> int {
    st.assistant_lines + st.skipped_lines + st.malformed_lines + st.invalid_assistant_lines
}

/// One line step counts the line as exactly one of the four kinds, and
/// adds a usage entry exactly when it counts an `assistant` line.
proof fn lemma_line_step_counts(p: TranscriptParseV, raw: Seq<u8>)
    ensures
        line_step(p, raw).stats.lines_read == p.stats.lines_read,
        kinds_total(line_step(p, raw).stats) == kinds_total(p.stats) + 1,
        line_step(p, raw).lines.len() - line_step(p, raw).stats.assistant_lines
            == p.lines.len() - p.stats.assistant_lines,
{
}

proof fn lemma_parse_from_counts(p: TranscriptParseV, x: Seq<u8>)
    ensures
        parse_from(p, x).stats.lines_read - p.stats.lines_read
            == newline_count(x.subrange(0, parse_from(p, x).bytes_consumed - p.bytes_consumed)),
        parse_from(p, x).stats.lines_read - kinds_total(parse_from(p, x).stats)
            == p.stats.lines_read - kinds_total(p.stats),
        parse_from(p, x).lines.len() - parse_from(p, x).stats.assistant_lines
            == p.lines.len() - p.stats.assistant_lines,
    decreases x.len(),
{
    lemma_first_index_found(x, 10u8);
    match first_index(x, 10u8) {
        Some(i) => {
            let raw = x.subrange(0, i + 1);
            let tail = x.subrange(i + 1, x.len() as int);
            let c = counted(p, i + 1);
            let q = line_step(c, raw);
            lemma_line_step_counts(c, raw);
            lemma_parse_from_counts(q, tail);
            let r = parse_from(q, tail);
            let k = r.bytes_consumed - q.bytes_consumed;
            lemma_consumed(q, tail);
            let whole = x.subrange(0, i + 1 + k);
            assert forall|j: int| 0 <= j < i implies whole[j] != 10u8 by {}
            lemma_newline_count_split(whole, i);
            assert(whole.subrange(i + 1, whole.len() as int) =~= tail.subrange(0, k));
        },
        None => {
            assert(x.subrange(0, 0) =~= Seq::<u8>::empty());
        },
    }
}

/// What a parse counts: one line read per newline it consumed, which are
/// all the newlines of the input; every line read counted as exactly one
/// of `assistant`, skipped, malformed or invalid; and one usage entry per
/// `assistant` line.
pub proof fn law_parse_counts(x: Seq<u8>)
    ensures
        spec_parse(x).stats.lines_read == newline_count(x.subrange(0, spec_parse(x).bytes_consumed)),
        spec_parse(x).stats.lines_read == newline_count(x),
        spec_parse(x).stats.lines_read == kinds_total(spec_parse(x).stats),
        spec_parse(x).lines.len() == spec_parse(x).stats.assistant_lines,
{
    lemma_parse_from_counts(empty_parse(), x);
    lemma_consumed(empty_parse(), x);
    let n = spec_parse(x).bytes_consumed;
    let pre = x.subrange(0, n);
    let post = x.subrange(n, x.len() as int);
    lemma_newline_count_none(post);
    lemma_newline_count_concat(pre, post);
    assert(pre + post =~= x);
}

/// Counting over two pieces adds up.
proof fn lemma_newline_count_concat(a: Seq<u8>, b: Seq<u8>)
    ensures
        newline_count(a + b) == newline_count(a) + newline_count(b),
    decreases a.len(),
{
    if a.len() > 0 {
        lemma_newline_count_concat(a.drop_first(), b);
        assert((a + b).drop_first() =~= a.drop_first() + b);
    }
}

} // verus!
