//! Facet selections of the usage views and the SQL filter each compiles
//! to, plus the pieces of the rollup queries that are decisions rather
//! than SQL (time windows, sort order, paging, series buckets).
use vstd::prelude::*;
use crate::text::cat;

use crate::metrics::{local_midnight_of, date_of_days, days_of, instant_within, local_date_of, local_midnight_ms, trailing_day_boundaries, LocalDate, DAY_MS, MAX_CALENDAR_DAY, MIN_CALENDAR_DAY};
use vstd::string::StringExecFns;

verus! {

/// The `requests.query_source` value marking subagent traffic.
pub const SUBAGENT_QUERY_SOURCE: &'static str = "subagent";

/// Cap on series length: 5 years of daily buckets.
pub const MAX_SERIES_DAYS: usize = 1830;

/// Default and maximum page sizes of the session rollups.
pub const DEFAULT_SESSION_LIMIT: u32 = 200;
pub const MAX_SESSION_LIMIT: u32 = 2000;

/// Date-range facet.
#[derive(Debug, Clone, Copy, PartialEq, Eq, Structural)]
pub enum RangeFacet {
    /// The current local calendar day.
    Day,
    /// The trailing 7 local calendar days (today inclusive).
    Week,
    /// The trailing 30 local calendar days (today inclusive).
    Month,
    /// No time bound.
    All,
    /// `[start_ms, end_ms)`.
    Custom { start_ms: i64, end_ms: i64 },
}

/// The local-midnight windows `[start, end)` of the trailing presets, as
/// the local calendar places them now.
#[derive(Debug, Clone, Copy, PartialEq, Eq, Structural)]
pub struct TrailingWindows {
    pub day_start: i64,
    pub day_end: i64,
    pub week_start: i64,
    pub week_end: i64,
    pub month_start: i64,
    pub month_end: i64,
}

impl RangeFacet {
    pub open spec fn spec_resolve(self, w: TrailingWindows) -> (Option<i64>, Option<i64>) {
        match self {
            RangeFacet::Day => (Some(w.day_start), Some(w.day_end)),
            RangeFacet::Week => (Some(w.week_start), Some(w.week_end)),
            RangeFacet::Month => (Some(w.month_start), Some(w.month_end)),
            RangeFacet::All => (None, None),
            RangeFacet::Custom { start_ms, end_ms } => (Some(start_ms), Some(end_ms)),
        }
    }

    /// `[start, end)` bounds in unix ms; `None` is unbounded.
    pub fn resolve(self, w: &TrailingWindows) -> (r: (Option<i64>, Option<i64>))
        ensures
            r == self.spec_resolve(*w),
    {
        match self {
            RangeFacet::Day => (Some(w.day_start), Some(w.day_end)),
            RangeFacet::Week => (Some(w.week_start), Some(w.week_end)),
            RangeFacet::Month => (Some(w.month_start), Some(w.month_end)),
            RangeFacet::All => (None, None),
            RangeFacet::Custom { start_ms, end_ms } => (Some(start_ms), Some(end_ms)),
        }
    }
}

/// Project facet.
#[derive(Debug, Clone, PartialEq, Eq)]
pub enum ProjectFacet {
    All,
    /// Requests whose session has no cwd, or no session row at all.
    Unknown,
    Cwd(String),
}

/// Request-origin facet.
#[derive(Debug, Clone, Copy, PartialEq, Eq, Structural)]
pub enum QuerySourceFacet {
    All,
    /// Everything not tagged subagent, untagged rows included.
    Main,
    Subagent,
}

/// The facet parameters every aggregation accepts; the default means
/// "everything".
#[derive(Debug, Clone, PartialEq, Eq)]
pub struct Facets {
    pub range: RangeFacet,
    pub project: ProjectFacet,
    /// Exact model name; `None` = all models.
    pub model: Option<String>,
    pub query_source: QuerySourceFacet,
}

impl Default for Facets {
    fn default() -> (r: Facets)
        ensures
            r.range == RangeFacet::All,
            r.project == ProjectFacet::All,
            r.model is None,
            r.query_source == QuerySourceFacet::All,
    {
        Facets { range: RangeFacet::All, project: ProjectFacet::All, model: None, query_source: QuerySourceFacet::All }
    }
}

/// A bind parameter.
#[derive(Debug, Clone, PartialEq, Eq)]
pub enum SqlParam {
    Int(i64),
    Text(String),
}

pub enum SqlParamV {
    Int(int),
    Text(Seq<char>),
}

impl View for SqlParam {
    type V = SqlParamV;

    open spec fn view(&self) -> SqlParamV {
        match self {
            SqlParam::Int(i) => SqlParamV::Int(*i as int),
            SqlParam::Text(t) => SqlParamV::Text(t@),
        }
    }
}

/// `WHERE` conditions over the `requests r` alias and their bind
/// parameters, in order.
pub struct FacetFilter {
    pub conditions: Vec<String>,
    pub params: Vec<SqlParam>,
}

pub open spec fn strings_view(v: Seq<String>) -> Seq<Seq<char>> {
    v.map_values(|s: String| s@)
}

pub open spec fn params_view(v: Seq<SqlParam>) -> Seq<SqlParamV> {
    v.map_values(|p: SqlParam| p@)
}

pub open spec fn unknown_project_condition() -> Seq<char> {
    "(r.session_id IS NULL OR r.session_id NOT IN\n                        (SELECT session_id FROM sessions WHERE cwd IS NOT NULL))"@
}

/// The conditions and parameters of a facet selection; the time bounds
/// only when `include_time` (the series binds per-bucket bounds itself).
pub open spec fn spec_filter(f: Facets, include_time: bool, w: TrailingWindows) -> (Seq<Seq<char>>, Seq<SqlParamV>) {
    let (start, end) = f.range.spec_resolve(w);
    let t1 = if include_time && start is Some {
        (seq!["r.timestamp_ms >= ?"@], seq![SqlParamV::Int(start->0 as int)])
    } else {
        (Seq::empty(), Seq::empty())
    };
    let t2 = if include_time && end is Some {
        (seq!["r.timestamp_ms < ?"@], seq![SqlParamV::Int(end->0 as int)])
    } else {
        (Seq::empty(), Seq::empty())
    };
    let m = match f.model {
        Some(model) => (seq!["r.model = ?"@], seq![SqlParamV::Text(model@)]),
        None => (Seq::empty(), Seq::empty()),
    };
    let q: Seq<Seq<char>> = match f.query_source {
        QuerySourceFacet::All => Seq::empty(),
        QuerySourceFacet::Main => seq!["(r.query_source IS NULL OR r.query_source <> 'subagent')"@],
        QuerySourceFacet::Subagent => seq!["r.query_source = 'subagent'"@],
    };
    let p = match f.project {
        ProjectFacet::All => (Seq::empty(), Seq::empty()),
        ProjectFacet::Unknown => (seq![unknown_project_condition()], Seq::empty()),
        ProjectFacet::Cwd(cwd) => (seq!["r.session_id IN (SELECT session_id FROM sessions WHERE cwd = ?)"@],
            seq![SqlParamV::Text(cwd@)]),
    };
    (t1.0 + t2.0 + m.0 + q + p.0, t1.1 + t2.1 + m.1 + p.1)
}

/// `r.query_source = 'lit'`.
pub open spec fn source_eq(lit: Seq<char>) -> Seq<char> {
    "r.query_source = '"@ + lit + "'"@
}

/// `r.query_source <> 'lit'`.
pub open spec fn source_ne(lit: Seq<char>) -> Seq<char> {
    "r.query_source <> '"@ + lit + "'"@
}

/// `(r.query_source IS NULL OR r.query_source <> 'lit')`.
pub open spec fn source_null_or_ne(lit: Seq<char>) -> Seq<char> {
    "(r.query_source IS NULL OR r.query_source <> '"@ + lit + "')"@
}

/// What SQL makes of a `WHERE` condition on the request-origin column, for
/// a row whose `query_source` is `qs` (`None` for NULL, which no
/// comparison selects): the forms `r.query_source = 'L'`,
/// `r.query_source <> 'L'`, `r.query_source IS NULL` and
/// `(r.query_source IS NULL OR r.query_source <> 'L')`; no other text
/// selects anything.
pub open spec fn source_condition_holds(c: Seq<char>, qs: Option<Seq<char>>) -> bool {
    ||| exists|lit: Seq<char>| c == #[trigger] source_eq(lit) && qs == Some(lit)
    ||| exists|lit: Seq<char>| c == #[trigger] source_ne(lit) && qs is Some && qs->0 != lit
    ||| c == "r.query_source IS NULL"@ && qs is None
    ||| exists|lit: Seq<char>| c == #[trigger] source_null_or_ne(lit) && (qs is None || qs->0 != lit)
}

/// Whether a row whose `query_source` is `qs` meets every condition.
pub open spec fn source_conditions_hold(cs: Seq<Seq<char>>, qs: Option<Seq<char>>) -> bool {
    forall|i: int| 0 <= i < cs.len() ==> source_condition_holds(#[trigger] cs[i], qs)
}

/// A selection by request origin alone.
pub open spec fn source_only(s: QuerySourceFacet) -> Facets {
    Facets { range: RangeFacet::All, project: ProjectFacet::All, model: None, query_source: s }
}

/// The four condition forms, told apart by their text.
proof fn lemma_source_forms(lit: Seq<char>, other: Seq<char>)
    ensures
        source_eq(lit) != source_ne(other),
        source_eq(lit) != source_null_or_ne(other),
        source_eq(lit) != "r.query_source IS NULL"@,
        source_null_or_ne(lit) != source_ne(other),
        source_null_or_ne(lit) != "r.query_source IS NULL"@,
        source_eq(lit) == source_eq(other) ==> lit == other,
        source_null_or_ne(lit) == source_null_or_ne(other) ==> lit == other,
{
    reveal_strlit("r.query_source = '");
    reveal_strlit("r.query_source <> '");
    reveal_strlit("(r.query_source IS NULL OR r.query_source <> '");
    reveal_strlit("r.query_source IS NULL");
    reveal_strlit("'");
    reveal_strlit("')");
    assert(source_eq(lit)[15] == '=');
    assert(source_ne(other)[15] == '<');
    assert(source_null_or_ne(lit)[0] == '(');
    assert(source_null_or_ne(other)[0] == '(');
    assert("r.query_source IS NULL"@[15] == 'I');
    if source_eq(lit) == source_eq(other) {
        assert(source_eq(lit).subrange(18, source_eq(lit).len() - 1) =~= lit);
        assert(source_eq(other).subrange(18, source_eq(other).len() - 1) =~= other);
    }
    if source_null_or_ne(lit) == source_null_or_ne(other) {
        assert(source_null_or_ne(lit).subrange(46, source_null_or_ne(lit).len() - 2) =~= lit);
        assert(source_null_or_ne(other).subrange(46, source_null_or_ne(other).len() - 2) =~= other);
    }
}

/// The request-origin facets select as their names say: `Subagent`
/// exactly the rows whose `query_source` is [`SUBAGENT_QUERY_SOURCE`],
/// `Main` exactly the others (untagged rows included), so the two split
/// every row between them; `All` adds no condition.
pub proof fn law_source_facets_select(qs: Option<Seq<char>>, include_time: bool, w: TrailingWindows)
    ensures
        source_conditions_hold(spec_filter(source_only(QuerySourceFacet::Subagent), include_time, w).0, qs)
            == (qs == Some(SUBAGENT_QUERY_SOURCE@)),
        source_conditions_hold(spec_filter(source_only(QuerySourceFacet::Main), include_time, w).0, qs)
            == (qs != Some(SUBAGENT_QUERY_SOURCE@)),
        spec_filter(source_only(QuerySourceFacet::All), include_time, w).0.len() == 0,
{
    let sub = SUBAGENT_QUERY_SOURCE@;
    reveal_strlit("subagent");
    reveal_strlit("r.query_source = '");
    reveal_strlit("(r.query_source IS NULL OR r.query_source <> '");
    reveal_strlit("'");
    reveal_strlit("')");
    reveal_strlit("r.query_source = 'subagent'");
    reveal_strlit("(r.query_source IS NULL OR r.query_source <> 'subagent')");
    let cs = spec_filter(source_only(QuerySourceFacet::Subagent), include_time, w).0;
    let cm = spec_filter(source_only(QuerySourceFacet::Main), include_time, w).0;
    assert(sub == "subagent"@);
    assert(cs =~= seq!["r.query_source = 'subagent'"@]);
    assert(cm =~= seq!["(r.query_source IS NULL OR r.query_source <> 'subagent')"@]);
    assert("r.query_source = 'subagent'"@ =~= source_eq(sub));
    assert("(r.query_source IS NULL OR r.query_source <> 'subagent')"@ =~= source_null_or_ne(sub));
    assert(cs =~= seq![source_eq(sub)]);
    assert(cm =~= seq![source_null_or_ne(sub)]);
    assert(spec_filter(source_only(QuerySourceFacet::All), include_time, w).0 =~= Seq::<Seq<char>>::empty());
    // Subagent.
    if source_condition_holds(source_eq(sub), qs) {
        if exists|lit: Seq<char>| source_eq(sub) == #[trigger] source_eq(lit) && qs == Some(lit) {
            let lit = choose|lit: Seq<char>| source_eq(sub) == #[trigger] source_eq(lit) && qs == Some(lit);
            lemma_source_forms(sub, lit);
        } else if exists|lit: Seq<char>| source_eq(sub) == #[trigger] source_ne(lit) && qs is Some && qs->0 != lit {
            let lit = choose|lit: Seq<char>| source_eq(sub) == #[trigger] source_ne(lit) && qs is Some && qs->0 != lit;
            lemma_source_forms(sub, lit);
        } else if exists|lit: Seq<char>| source_eq(sub) == #[trigger] source_null_or_ne(lit) && (qs is None || qs->0 != lit) {
            let lit = choose|lit: Seq<char>| source_eq(sub) == #[trigger] source_null_or_ne(lit) && (qs is None || qs->0 != lit);
            lemma_source_forms(sub, lit);
        } else {
            lemma_source_forms(sub, sub);
        }
    }
    if qs == Some(sub) {
        assert(source_eq(sub) == source_eq(sub) && qs == Some(sub));
    }
    assert(cs[0] == source_eq(sub));
    assert(source_conditions_hold(cs, qs) == source_condition_holds(source_eq(sub), qs));
    // Main.
    let m = source_null_or_ne(sub);
    if source_condition_holds(m, qs) {
        if exists|lit: Seq<char>| m == #[trigger] source_eq(lit) && qs == Some(lit) {
            let lit = choose|lit: Seq<char>| m == #[trigger] source_eq(lit) && qs == Some(lit);
            lemma_source_forms(lit, sub);
        } else if exists|lit: Seq<char>| m == #[trigger] source_ne(lit) && qs is Some && qs->0 != lit {
            let lit = choose|lit: Seq<char>| m == #[trigger] source_ne(lit) && qs is Some && qs->0 != lit;
            lemma_source_forms(sub, lit);
        } else if exists|lit: Seq<char>| m == #[trigger] source_null_or_ne(lit) && (qs is None || qs->0 != lit) {
            let lit = choose|lit: Seq<char>| m == #[trigger] source_null_or_ne(lit) && (qs is None || qs->0 != lit);
            lemma_source_forms(sub, lit);
        } else {
            lemma_source_forms(sub, sub);
        }
    }
    if qs != Some(sub) {
        assert(m == source_null_or_ne(sub) && (qs is None || qs->0 != sub));
    }
    assert(cm[0] == m);
    assert(source_conditions_hold(cm, qs) == source_condition_holds(m, qs));
}

/// What SQL makes of a condition with one bind parameter, for a row with
/// timestamp `ts` and model `model` (`None` for NULL, which no comparison
/// selects): `r.timestamp_ms >= ?`, `r.timestamp_ms < ?` and
/// `r.model = ?`; no other text selects anything.
pub open spec fn bound_condition_holds(c: Seq<char>, p: SqlParamV, ts: int, model: Option<Seq<char>>) -> bool {
    ||| c == "r.timestamp_ms >= ?"@ && (p matches SqlParamV::Int(x) && ts >= x)
    ||| c == "r.timestamp_ms < ?"@ && (p matches SqlParamV::Int(x) && ts < x)
    ||| c == "r.model = ?"@ && (p matches SqlParamV::Text(t) && model == Some(t))
}

/// A selection by time range and model alone.
pub open spec fn range_and_model(range: RangeFacet, model: Option<String>) -> Facets {
    Facets { range, project: ProjectFacet::All, model, query_source: QuerySourceFacet::All }
}

/// The range and model facets select as they say: with the time bounds
/// included, each condition takes the parameter at its own place, and a
/// row meets them all exactly when its timestamp lies in the range's
/// `[start, end)` (an absent bound is no bound) and, with a model chosen,
/// its model is that one. Without the time bounds only the model is
/// checked.
pub proof fn law_range_and_model_select(range: RangeFacet, model: Option<String>, include_time: bool,
    w: TrailingWindows, ts: int, row_model: Option<Seq<char>>)
    ensures
        ({
            let (cs, ps) = spec_filter(range_and_model(range, model), include_time, w);
            let (start, end) = range.spec_resolve(w);
            &&& cs.len() == ps.len()
            &&& (forall|i: int| 0 <= i < cs.len() ==> bound_condition_holds(#[trigger] cs[i], ps[i], ts, row_model))
                == ((!include_time || start is None || ts >= start->0 as int)
                    && (!include_time || end is None || ts < end->0 as int)
                    && (model is None || row_model == Some(model->0@)))
        }),
{
    reveal_strlit("r.timestamp_ms >= ?");
    reveal_strlit("r.timestamp_ms < ?");
    reveal_strlit("r.model = ?");
    let ge = "r.timestamp_ms >= ?"@;
    let lt = "r.timestamp_ms < ?"@;
    let mo = "r.model = ?"@;
    assert(ge != lt && ge != mo && lt != mo) by {
        assert(ge[15] != lt[15]);
        assert(ge.len() != mo.len() && lt.len() != mo.len());
    }
    let (cs, ps) = spec_filter(range_and_model(range, model), include_time, w);
    let (start, end) = range.spec_resolve(w);
    let t1c: Seq<Seq<char>> = if include_time && start is Some { seq![ge] } else { Seq::empty() };
    let t1p: Seq<SqlParamV> = if include_time && start is Some { seq![SqlParamV::Int(start->0 as int)] } else { Seq::empty() };
    let t2c: Seq<Seq<char>> = if include_time && end is Some { seq![lt] } else { Seq::empty() };
    let t2p: Seq<SqlParamV> = if include_time && end is Some { seq![SqlParamV::Int(end->0 as int)] } else { Seq::empty() };
    let mc: Seq<Seq<char>> = if model is Some { seq![mo] } else { Seq::empty() };
    let mp: Seq<SqlParamV> = match model { Some(m) => seq![SqlParamV::Text(m@)], None => Seq::empty() };
    assert(cs =~= t1c + t2c + mc);
    assert(ps =~= t1p + t2p + mp);
    let n1 = t1c.len() as int;
    let n2 = n1 + t2c.len();
    if include_time && start is Some {
        assert(cs[0] == ge && ps[0] == SqlParamV::Int(start->0 as int));
    }
    if include_time && end is Some {
        assert(cs[n1] == lt && ps[n1] == SqlParamV::Int(end->0 as int));
    }
    if model is Some {
        assert(cs[n2] == mo && ps[n2] == SqlParamV::Text(model->0@));
    }
    if (!include_time || start is None || ts >= start->0 as int)
        && (!include_time || end is None || ts < end->0 as int)
        && (model is None || row_model == Some(model->0@)) {
        assert forall|i: int| 0 <= i < cs.len() implies bound_condition_holds(#[trigger] cs[i], ps[i], ts, row_model) by {
            if i < n1 {
                assert(cs[i] == ge);
            } else if i < n2 {
                assert(cs[i] == lt && ps[i] == t2p[i - n1]);
            } else {
                assert(cs[i] == mo && ps[i] == mp[i - n2]);
            }
        }
    }
}

fn push_condition(filter: &mut FacetFilter, c: &str)
    ensures
        strings_view(final(filter).conditions@) == strings_view(old(filter).conditions@).push(c@),
        final(filter).params@ == old(filter).params@,
{
    let s = String::from_str(c);
    let ghost before = filter.conditions@;
    filter.conditions.push(s);
    assert(strings_view(filter.conditions@) =~= strings_view(before).push(c@));
}

fn push_param(filter: &mut FacetFilter, p: SqlParam)
    ensures
        params_view(final(filter).params@) == params_view(old(filter).params@).push(p@),
        final(filter).conditions@ == old(filter).conditions@,
{
    let ghost before = filter.params@;
    let ghost pv = p@;
    filter.params.push(p);
    assert(params_view(filter.params@) =~= params_view(before).push(pv));
}

impl Facets {
    /// Builds the SQL filter of the selection (see [`spec_filter`]).
    pub fn filter(&self, include_time: bool, w: &TrailingWindows) -> (r: FacetFilter)
        ensures
            (strings_view(r.conditions@), params_view(r.params@)) == spec_filter(*self, include_time, *w),
    {
        let mut filter = FacetFilter { conditions: Vec::new(), params: Vec::new() };
        assert(strings_view(filter.conditions@) =~= Seq::empty());
        assert(params_view(filter.params@) =~= Seq::empty());
        if include_time {
            let (start, end) = self.range.resolve(w);
            if let Some(s) = start {
                push_condition(&mut filter, "r.timestamp_ms >= ?");
                push_param(&mut filter, SqlParam::Int(s));
            }
            if let Some(e) = end {
                push_condition(&mut filter, "r.timestamp_ms < ?");
                push_param(&mut filter, SqlParam::Int(e));
            }
        }
        if let Some(model) = &self.model {
            push_condition(&mut filter, "r.model = ?");
            push_param(&mut filter, SqlParam::Text(model.clone()));
        }
        match self.query_source {
            QuerySourceFacet::All => {},
            QuerySourceFacet::Main => {
                push_condition(&mut filter, "(r.query_source IS NULL OR r.query_source <> 'subagent')");
            },
            QuerySourceFacet::Subagent => {
                push_condition(&mut filter, "r.query_source = 'subagent'");
            },
        }
        match &self.project {
            ProjectFacet::All => {},
            ProjectFacet::Unknown => {
                push_condition(&mut filter,
                    "(r.session_id IS NULL OR r.session_id NOT IN\n                        (SELECT session_id FROM sessions WHERE cwd IS NOT NULL))");
            },
            ProjectFacet::Cwd(cwd) => {
                push_condition(&mut filter, "r.session_id IN (SELECT session_id FROM sessions WHERE cwd = ?)");
                push_param(&mut filter, SqlParam::Text(cwd.clone()));
            },
        }
        let ghost spec = spec_filter(*self, include_time, *w);
        assert(strings_view(filter.conditions@) =~= spec.0);
        assert(params_view(filter.params@) =~= spec.1);
        filter
    }
}

/// The conditions joined by ` AND `.
pub open spec fn join_and(c: Seq<Seq<char>>) -> Seq<char>
    decreases c.len(),
{
    if c.len() == 0 {
        Seq::empty()
    } else if c.len() == 1 {
        c[0]
    } else {
        join_and(c.drop_last()) + " AND "@ + c.last()
    }
}

impl FacetFilter {
    /// `WHERE` and the joined conditions; empty without conditions.
    pub fn where_clause(&self) -> (r: String)
        ensures
            r@ == if self.conditions@.len() == 0 {
                Seq::<char>::empty()
            } else {
                "WHERE "@ + join_and(strings_view(self.conditions@))
            },
    {
        if self.conditions.len() == 0 {
            return String::new();
        }
        let ghost c = strings_view(self.conditions@);
        let mut joined = self.conditions[0].clone();
        assert(c.subrange(0, 1).drop_last() =~= Seq::<Seq<char>>::empty());
        let mut i: usize = 1;
        while i < self.conditions.len()
            invariant
                1 <= i <= self.conditions@.len(),
                c == strings_view(self.conditions@),
                joined@ == join_and(c.subrange(0, i as int)),
            decreases self.conditions@.len() - i,
        {
            joined.append(" AND ");
            joined.append(self.conditions[i].as_str());
            proof {
                assert(c.subrange(0, i + 1).drop_last() =~= c.subrange(0, i as int));
            }
            i += 1;
        }
        assert(c.subrange(0, i as int) =~= c);
        cat("WHERE ", joined.as_str())
    }
}

/// Optional series grouping.
#[derive(Debug, Clone, Copy, PartialEq, Eq, Structural)]
pub enum SeriesGroupBy {
    /// One point per bucket.
    Ungrouped,
    Model,
    Project,
}

/// Sort key of the session rollups (always with a direction).
#[derive(Debug, Clone, Copy, PartialEq, Eq, Structural)]
pub enum SessionSort {
    Cost,
    /// Total of all four token counters.
    Tokens,
    /// `last_ms - first_ms`.
    Duration,
    /// First request timestamp.
    Start,
}

pub open spec fn spec_order_clause(sort: SessionSort, descending: bool) -> Seq<char> {
    (match sort {
        SessionSort::Cost => "g.cost"@,
        SessionSort::Tokens => "(g.input + g.output + g.cache_read + g.cache_creation)"@,
        SessionSort::Duration => "(g.last_ms - g.first_ms)"@,
        SessionSort::Start => "g.first_ms"@,
    }) + " "@ + (if descending { "DESC"@ } else { "ASC"@ }) + ", g.session_id"@
}

/// The `ORDER BY` list of the session rollups: the sort key in the chosen
/// direction, ties broken by session id.
pub fn order_clause(sort: SessionSort, descending: bool) -> (r: String)
    ensures
        r@ == spec_order_clause(sort, descending),
{
    let key = match sort {
        SessionSort::Cost => "g.cost",
        SessionSort::Tokens => "(g.input + g.output + g.cache_read + g.cache_creation)",
        SessionSort::Duration => "(g.last_ms - g.first_ms)",
        SessionSort::Start => "g.first_ms",
    };
    let direction = if descending { "DESC" } else { "ASC" };
    let mut s = cat(key, " ");
    s.append(direction);
    s.append(", g.session_id");
    s
}

/// The page size actually used: the requested one (default
/// [`DEFAULT_SESSION_LIMIT`]) clamped to `1..=MAX_SESSION_LIMIT`.
pub fn page_limit(limit: Option<u32>) -> (r: u32)
    ensures
        r == (match limit {
            Some(l) => if l < 1 { 1 } else if l > MAX_SESSION_LIMIT { MAX_SESSION_LIMIT } else { l },
            None => DEFAULT_SESSION_LIMIT,
        }),
{
    let l = match limit {
        Some(l) => l,
        None => DEFAULT_SESSION_LIMIT,
    };
    if l < 1 { 1 } else if l > MAX_SESSION_LIMIT { MAX_SESSION_LIMIT } else { l }
}

/// The bucket boundaries of a series over `[start_ms, end_ms)` from the
/// ascending local midnights `midnights`, the first being that of the
/// first bucket's day: the first boundary clamped up to `start_ms`, then
/// every later midnight before `end_ms`, then `end_ms`. Empty for an
/// empty window.
pub open spec fn spec_day_boundaries(start_ms: i64, end_ms: i64, midnights: Seq<i64>) -> Seq<i64> {
    if start_ms >= end_ms {
        Seq::empty()
    } else {
        let first = if midnights[0] > start_ms { midnights[0] } else { start_ms };
        seq![first] + midnights.subrange(1, midnights.len() as int).filter(|m: i64| m < end_ms) + seq![end_ms]
    }
}

/// Builds the series buckets from the local midnights of consecutive days
/// (see [`spec_day_boundaries`]).
pub fn boundaries_from_midnights(start_ms: i64, end_ms: i64, midnights: &[i64]) -> (r: Vec<i64>)
    requires
        midnights@.len() >= 1,
    ensures
        r@ == spec_day_boundaries(start_ms, end_ms, midnights@),
{
    if start_ms >= end_ms {
        return Vec::new();
    }
    let first = if midnights[0] > start_ms { midnights[0] } else { start_ms };
    let mut out: Vec<i64> = Vec::new();
    out.push(first);
    let ghost tail = midnights@.subrange(1, midnights@.len() as int);
    let ghost pred = |m: i64| m < end_ms;
    let mut i: usize = 1;
    proof { reveal(Seq::filter); assert(tail.subrange(0, 0).filter(pred) =~= Seq::<i64>::empty()); }
    assert(out@ =~= seq![first] + tail.subrange(0, 0).filter(pred));
    while i < midnights.len()
        invariant
            1 <= i <= midnights@.len(),
            tail == midnights@.subrange(1, midnights@.len() as int),
            pred == (|m: i64| m < end_ms),
            out@ == seq![first] + tail.subrange(0, i - 1).filter(pred),
        decreases midnights@.len() - i,
    {
        let m = midnights[i];
        proof {
            reveal(Seq::filter);
            assert(tail.subrange(0, i as int).drop_last() =~= tail.subrange(0, i - 1));
            assert(tail.subrange(0, i as int).last() == m);
        }
        if m < end_ms {
            out.push(m);
        }
        i += 1;
    }
    out.push(end_ms);
    assert(tail.subrange(0, i - 1) =~= tail);
    out
}

/// How a series' buckets come out of the local midnights `m` of the
/// consecutive local days `d0`, `d0 + 1`, ...: `d1` is the local day of the
/// window's last instant (within a day of its UTC day, a UTC offset being
/// under a day); `d0` that of its first instant, unless the window spans
/// more than [`MAX_SERIES_DAYS`] days, when it is the day that keeps the
/// most recent ones; the midnights run from `d0` until one reaches the end
/// or the last day is reached; and the buckets are built from them by
/// [`spec_day_boundaries`].
pub open spec fn series_buckets(start_ms: i64, end_ms: i64, r: Seq<i64>, m: Seq<i64>, d0: int, d1: int) -> bool {
    let sd = (start_ms as int) / (DAY_MS as int);
    let ed = (end_ms - 1) / (DAY_MS as int);
    &&& ed - 1 <= d1 <= ed + 1
    &&& (sd - 1 <= d0 <= sd + 1 && d0 <= d1 && d1 - d0 + 1 <= MAX_SERIES_DAYS)
        || d0 == d1 - (MAX_SERIES_DAYS - 1)
    &&& 1 <= m.len() <= d1 - d0 + 1
    &&& forall|i: int| 0 <= i < m.len() ==> local_midnight_of(#[trigger] m[i] as int, d0 + i)
    &&& (m.len() == d1 - d0 + 1 || m.last() >= end_ms)
    &&& r == spec_day_boundaries(start_ms, end_ms, m)
}

/// Local-midnight bucket boundaries covering `[start_ms, end_ms)`, first
/// and last clamped to the window itself so partial-day custom ranges never
/// include rows outside it; at most [`MAX_SERIES_DAYS`] buckets, keeping
/// the most recent days. The local dates of the two ends and the midnights
/// come from the machine's time zone; the buckets are then built by
/// [`boundaries_from_midnights`] from the midnights of consecutive days,
/// asked for until one reaches `end_ms` (see [`series_buckets`]).
pub fn day_boundaries(start_ms: i64, end_ms: i64) -> (r: Vec<i64>)
    requires
        start_ms < end_ms ==> instant_within(start_ms as int, MAX_SERIES_DAYS as int)
            && instant_within(end_ms - 1, MAX_SERIES_DAYS as int),
    ensures
        start_ms >= end_ms ==> r@.len() == 0,
        start_ms < end_ms ==> exists|m: Seq<i64>, d0: int, d1: int| series_buckets(start_ms, end_ms, r@, m, d0, d1),
        start_ms < end_ms ==> 2 <= r@.len() <= MAX_SERIES_DAYS + 1,
        start_ms < end_ms ==> r@[0] >= start_ms && r@.last() == end_ms,
        forall|i: int| 0 < i < r@.len() - 1 ==> #[trigger] r@[i] < end_ms,
{
    if start_ms >= end_ms {
        return Vec::new();
    }
    let (first, last) = match (local_date_of(start_ms), local_date_of(end_ms - 1)) {
        (Some(a), Some(b)) => (a, b),
        _ => {
            proof { assert(false); }
            return Vec::new();
        },
    };
    proof {
        lemma_day_of_instant(start_ms as int, first.days());
        lemma_day_of_instant(end_ms - 1, last.days());
    }
    let end_day = days_of(last);
    let mut day = days_of(first);
    if end_day - day + 1 > MAX_SERIES_DAYS as i64 || end_day - day + 1 < 1 {
        day = end_day - (MAX_SERIES_DAYS as i64 - 1);
    }
    let ghost d0 = day as int;
    let mut midnights: Vec<i64> = Vec::new();
    midnights.push(local_midnight_ms(date_of_days(day)));
    while day < end_day
        invariant
            MIN_CALENDAR_DAY <= d0 <= day <= end_day,
            end_day <= MAX_CALENDAR_DAY - MAX_SERIES_DAYS,
            end_day - d0 + 1 <= MAX_SERIES_DAYS,
            midnights@.len() == day - d0 + 1,
            forall|i: int| 0 <= i < midnights@.len() ==> local_midnight_of(#[trigger] midnights@[i] as int, d0 + i),
        ensures
            day == end_day || midnights@.last() >= end_ms,
            midnights@.len() == day - d0 + 1,
            forall|i: int| 0 <= i < midnights@.len() ==> local_midnight_of(#[trigger] midnights@[i] as int, d0 + i),
        decreases end_day - day,
    {
        day += 1;
        let m = local_midnight_ms(date_of_days(day));
        let ghost before = midnights@;
        midnights.push(m);
        proof {
            assert forall|i: int| 0 <= i < midnights@.len() implies local_midnight_of(#[trigger] midnights@[i] as int, d0 + i) by {
                if i < before.len() { assert(midnights@[i] == before[i]); }
            }
        }
        if m >= end_ms {
            break;
        }
    }
    let r = boundaries_from_midnights(start_ms, end_ms, midnights.as_slice());
    proof {
        lemma_boundaries_shape(start_ms, end_ms, midnights@);
        assert(series_buckets(start_ms, end_ms, r@, midnights@, d0, end_day as int));
    }
    r
}

/// A local date within a day of an instant's UTC date lies as far inside
/// the calendar as the instant, but for that day.
proof fn lemma_day_of_instant(ms: int, d: int)
    requires
        instant_within(ms, MAX_SERIES_DAYS as int),
        ms / (DAY_MS as int) - 1 <= d <= ms / (DAY_MS as int) + 1,
    ensures
        MIN_CALENDAR_DAY + MAX_SERIES_DAYS - 1 <= d <= MAX_CALENDAR_DAY - MAX_SERIES_DAYS,
{
    assert(MIN_CALENDAR_DAY + MAX_SERIES_DAYS <= ms / (DAY_MS as int) < MAX_CALENDAR_DAY - MAX_SERIES_DAYS) by (nonlinear_arith)
        requires
            (MIN_CALENDAR_DAY + MAX_SERIES_DAYS) * DAY_MS <= ms < (MAX_CALENDAR_DAY - MAX_SERIES_DAYS) * DAY_MS,
            DAY_MS == 86_400_000,
    ;
}

/// The buckets built from `n` midnights number at most `n + 1`: the clamped
/// start, the kept midnights before the end, and the end; all but the last
/// lie before the end.
proof fn lemma_boundaries_shape(start_ms: i64, end_ms: i64, midnights: Seq<i64>)
    requires
        start_ms < end_ms,
        midnights.len() >= 1,
    ensures
        ({
            let r = spec_day_boundaries(start_ms, end_ms, midnights);
            &&& 2 <= r.len() <= midnights.len() + 1
            &&& r[0] >= start_ms
            &&& r.last() == end_ms
            &&& forall|i: int| 0 < i < r.len() - 1 ==> #[trigger] r[i] < end_ms
        }),
{
    broadcast use vstd::seq_lib::group_filter_ensures;
    let tail = midnights.subrange(1, midnights.len() as int);
    let pred = |m: i64| m < end_ms;
    let kept = tail.filter(pred);
    let first = if midnights[0] > start_ms { midnights[0] } else { start_ms };
    let r = spec_day_boundaries(start_ms, end_ms, midnights);
    assert(r == seq![first] + kept + seq![end_ms]);
    assert(kept.len() <= tail.len());
    assert forall|i: int| 0 < i < r.len() - 1 implies #[trigger] r[i] < end_ms by {
        assert(r[i] == kept[i - 1]);
        assert(pred(kept[i - 1]));
    }
}

/// The trailing-preset windows for the local date `today`: the first and
/// last of the trailing 1, 7 and 30 days' local-midnight boundaries, that
/// is the local midnights opening today, the day six days back and the day
/// twenty-nine days back, and the one closing today (see
/// [`local_midnight_of`]).
pub fn trailing_windows(today: LocalDate) -> (r: TrailingWindows)
    requires
        today.in_calendar(),
        today.days() < MAX_CALENDAR_DAY,
        today.days() - 30 + 1 >= MIN_CALENDAR_DAY,
    ensures
        local_midnight_of(r.day_start as int, today.days()),
        local_midnight_of(r.day_end as int, today.days() + 1),
        local_midnight_of(r.week_start as int, today.days() - 6),
        local_midnight_of(r.week_end as int, today.days() + 1),
        local_midnight_of(r.month_start as int, today.days() - 29),
        local_midnight_of(r.month_end as int, today.days() + 1),
{
    let day = trailing_day_boundaries(1, today);
    let week = trailing_day_boundaries(7, today);
    let month = trailing_day_boundaries(30, today);
    TrailingWindows {
        day_start: day[0],
        day_end: day[1],
        week_start: week[0],
        week_end: week[7],
        month_start: month[0],
        month_end: month[30],
    }
}

/// The option lists the facet bar offers.
#[derive(Debug, Clone, PartialEq, Eq)]
pub struct FacetOptions {
    /// Distinct known project directories, sorted.
    pub projects: Vec<String>,
    /// Whether an "unknown project" bucket exists.
    pub unknown_project: bool,
    /// Distinct model names observed, sorted.
    pub models: Vec<String>,
}

} // verus!
