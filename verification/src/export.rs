//! Report export: destination validation, the raw request CSV, and the
//! progress throttle. The zip itself is assembled by the caller.
use vstd::prelude::*;
use crate::text::{cat, push_char, signed_decimal, signed_decimal_text};
use crate::transcript::opt_str;
use crate::civil::{civil_of, padded};
use vstd::string::StringExecFns;
use vstd::utf8::*;

verus! {

/// Returned to the frontend, which owns the notification decision.
#[derive(Debug, Clone, Copy, PartialEq, Eq, Structural)]
pub struct ExportResult {
    pub elapsed_ms: u64,
    /// Raw rows streamed into `requests.csv`.
    pub rows_written: u64,
}

/// Progress events fire at most every this many rows...
pub const PROGRESS_ROW_INTERVAL: u64 = 2048;
/// ...and no sooner than this many milliseconds after the previous one.
pub const PROGRESS_MIN_INTERVAL_MS: u64 = 100;

/// Whether a progress event fires after `rows_written` rows,
/// `ms_since_last` milliseconds after the previous event: only when both
/// the row and the time floors are met.
pub fn should_emit_progress(rows_written: u64, ms_since_last: u64) -> (r: bool)
    ensures
        r == (rows_written % PROGRESS_ROW_INTERVAL == 0 && ms_since_last >= PROGRESS_MIN_INTERVAL_MS),
{
    rows_written % PROGRESS_ROW_INTERVAL == 0 && ms_since_last >= PROGRESS_MIN_INTERVAL_MS
}

/// Header row of the raw request CSV; column order matches [`RawExportRow`].
pub const REQUESTS_CSV_HEADER: &'static str = "timestamp_ms,timestamp_iso,model,query_source,event_type,source,cost_usd,input_tokens,output_tokens,cache_read_tokens,cache_creation_tokens,duration_ms,error,session_id,project\n";

/// Whether a CSV field must be quoted: it holds a comma, a quote, CR or LF.
pub open spec fn needs_quoting(s: Seq<char>) -> bool {
    exists|i: int| 0 <= i < s.len() && (s[i] == ',' || s[i] == '"' || s[i] == '\n' || s[i] == '\r')
}

/// `s` with every `"` doubled.
pub open spec fn double_quotes(s: Seq<char>) -> Seq<char>
    decreases s.len(),
{
    if s.len() == 0 {
        Seq::empty()
    } else {
        double_quotes(s.drop_last()) + if s.last() == '"' { seq!['"', '"'] } else { seq![s.last()] }
    }
}

/// RFC 4180 field quoting.
pub open spec fn spec_csv_field(s: Seq<char>) -> Seq<char> {
    if needs_quoting(s) {
        seq!['"'] + double_quotes(s) + seq!['"']
    } else {
        s
    }
}

/// RFC 4180 field quoting: a field holding a comma, quote, CR or LF is
/// wrapped in quotes with inner quotes doubled; any other is as-is.
pub fn csv_field(value: &str) -> (r: String)
    ensures
        r@ == spec_csv_field(value@),
{
    let n = value.unicode_len();
    let mut quote = false;
    let mut i: usize = 0;
    while i < n
        invariant
            n == value@.len(),
            i <= n,
            quote == (exists|j: int| 0 <= j < i && (value@[j] == ',' || value@[j] == '"' || value@[j] == '\n' || value@[j] == '\r')),
        decreases n - i,
    {
        let c = value.get_char(i);
        if c == ',' || c == '"' || c == '\n' || c == '\r' {
            quote = true;
        }
        i += 1;
    }
    if !quote {
        return String::from_str(value);
    }
    let mut out = String::new();
    push_char(&mut out, '"');
    let mut k: usize = 0;
    while k < n
        invariant
            n == value@.len(),
            k <= n,
            out@ == seq!['"'] + double_quotes(value@.subrange(0, k as int)),
        decreases n - k,
    {
        let c = value.get_char(k);
        proof {
            let t = value@.subrange(0, k + 1);
            assert(t.drop_last() =~= value@.subrange(0, k as int));
            assert(t.last() == c);
        }
        if c == '"' {
            push_char(&mut out, '"');
            push_char(&mut out, '"');
        } else {
            push_char(&mut out, c);
        }
        k += 1;
    }
    push_char(&mut out, '"');
    assert(value@.subrange(0, n as int) =~= value@);
    out
}

/// The RFC 3339 UTC text (millisecond precision, `Z`) of a unix-ms
/// instant as chrono renders it; empty outside chrono's range.
pub uninterp spec fn chrono_iso_millis(ms: int) -> Seq<char>;

/// The RFC 3339 text chrono writes for an instant from 1970 up to the year
/// 9999: `YYYY-MM-DDTHH:MM:SS.mmmZ`, each field zero-padded.
pub open spec fn spec_iso_millis(ms: int) -> Seq<char> {
    let (y, m, d) = civil_of(ms / 86_400_000);
    let msod = ms % 86_400_000;
    let sod = msod / 1000;
    padded(y as nat, 4) + "-"@ + padded(m as nat, 2) + "-"@ + padded(d as nat, 2) + "T"@
        + padded((sod / 3600) as nat, 2) + ":"@ + padded(((sod % 3600) / 60) as nat, 2) + ":"@
        + padded((sod % 60) as nat, 2) + "."@ + padded((msod % 1000) as nat, 3) + "Z"@
}

/// `DateTime::from_timestamp_millis(ms)` rendered by
/// `to_rfc3339_opts(SecondsFormat::Millis, true)`, empty when chrono
/// cannot represent the instant. The text is the named rendering of `ms`;
/// for an instant from 1970 to the end of year 9999 it is the fixed-width
/// UTC form chrono's RFC 3339 writer produces (see [`spec_iso_millis`]).
#[verifier::external_body]
fn iso_millis(ms: i64) -> (r: String)
    ensures
        r@ == chrono_iso_millis(ms as int),
        0 <= ms < 253_402_300_800_000 ==> r@ == spec_iso_millis(ms as int),
{
    chrono::DateTime::from_timestamp_millis(ms)
        .map(|dt| dt.to_rfc3339_opts(chrono::SecondsFormat::Millis, true))
        .unwrap_or_default()
}

/// One raw request row. `cost_usd` is the cost as the caller renders it
/// (`None` when unpriced).
#[derive(Debug, Clone, PartialEq, Eq)]
pub struct RawExportRow {
    pub timestamp_ms: i64,
    pub model: Option<String>,
    pub query_source: Option<String>,
    pub event_type: String,
    pub source: String,
    pub cost_usd: Option<String>,
    pub input_tokens: i64,
    pub output_tokens: i64,
    pub cache_read_tokens: i64,
    pub cache_creation_tokens: i64,
    pub duration_ms: Option<i64>,
    pub error: Option<String>,
    pub session_id: Option<String>,
    pub cwd: Option<String>,
}

pub open spec fn or_empty(o: Option<Seq<char>>) -> Seq<char> {
    match o {
        Some(s) => s,
        None => Seq::empty(),
    }
}

pub open spec fn opt_number_text(o: Option<i64>) -> Seq<char> {
    match o {
        Some(n) => signed_decimal_text(n as int),
        None => Seq::empty(),
    }
}

/// One CSV line (ending in `\n`): text fields quoted as needed, absent
/// values as empty cells, numbers unquoted.
pub open spec fn spec_csv_line(row: RawExportRow) -> Seq<char> {
    signed_decimal_text(row.timestamp_ms as int) + ","@
        + spec_csv_field(chrono_iso_millis(row.timestamp_ms as int)) + ","@
        + spec_csv_field(or_empty(opt_str(row.model))) + ","@
        + spec_csv_field(or_empty(opt_str(row.query_source))) + ","@
        + spec_csv_field(row.event_type@) + ","@
        + spec_csv_field(row.source@) + ","@
        + or_empty(opt_str(row.cost_usd)) + ","@
        + signed_decimal_text(row.input_tokens as int) + ","@
        + signed_decimal_text(row.output_tokens as int) + ","@
        + signed_decimal_text(row.cache_read_tokens as int) + ","@
        + signed_decimal_text(row.cache_creation_tokens as int) + ","@
        + opt_number_text(row.duration_ms) + ","@
        + spec_csv_field(or_empty(opt_str(row.error))) + ","@
        + spec_csv_field(or_empty(opt_str(row.session_id))) + ","@
        + spec_csv_field(or_empty(opt_str(row.cwd))) + "\n"@
}

fn opt_text(o: &Option<String>) -> (r: &str)
    ensures
        r@ == or_empty(opt_str(*o)),
{
    proof { reveal_strlit(""); }
    match o {
        Some(s) => s.as_str(),
        None => "",
    }
}

/// Renders one raw row as a CSV line (see [`spec_csv_line`]).
pub fn requests_csv_line(row: &RawExportRow) -> (r: String)
    ensures
        r@ == spec_csv_line(*row),
{
    let iso = iso_millis(row.timestamp_ms);
    let duration = match row.duration_ms {
        Some(d) => signed_decimal(d),
        None => String::new(),
    };
    let mut line = signed_decimal(row.timestamp_ms);
    line.append(",");
    line.append(csv_field(iso.as_str()).as_str());
    line.append(",");
    line.append(csv_field(opt_text(&row.model)).as_str());
    line.append(",");
    line.append(csv_field(opt_text(&row.query_source)).as_str());
    line.append(",");
    line.append(csv_field(row.event_type.as_str()).as_str());
    line.append(",");
    line.append(csv_field(row.source.as_str()).as_str());
    line.append(",");
    line.append(opt_text(&row.cost_usd));
    line.append(",");
    line.append(signed_decimal(row.input_tokens).as_str());
    line.append(",");
    line.append(signed_decimal(row.output_tokens).as_str());
    line.append(",");
    line.append(signed_decimal(row.cache_read_tokens).as_str());
    line.append(",");
    line.append(signed_decimal(row.cache_creation_tokens).as_str());
    line.append(",");
    line.append(duration.as_str());
    line.append(",");
    line.append(csv_field(opt_text(&row.error)).as_str());
    line.append(",");
    line.append(csv_field(opt_text(&row.session_id)).as_str());
    line.append(",");
    line.append(csv_field(opt_text(&row.cwd)).as_str());
    line.append("\n");
    line
}

/// `Path::extension` of a path, as text.
pub uninterp spec fn path_extension(p: Seq<char>) -> Option<Seq<char>>;

/// `Path::parent` of a path, as text.
pub uninterp spec fn path_parent(p: Seq<char>) -> Option<Seq<char>>;

/// The first UTF-8 byte of a non-empty text is `/` exactly when its first
/// character is.
proof fn lemma_first_byte_slash(s: Seq<char>)
    requires
        s.len() > 0,
    ensures
        encode_utf8(s).len() > 0,
        (encode_utf8(s)[0] == 47u8) == (s[0] == '/'),
{
    encode_utf8_first_scalar(s);
    char_u32_cast(s[0], s[0] as u32);
    let e = encode_scalar(s[0] as u32);
    assert(encode_utf8(s) == e + encode_utf8(s.drop_first()));
    char_is_scalar(s[0]);
    assert(e.len() > 0);
    if s[0] == '/' {
        assert(s[0] as u32 == 47);
        assert((47u32 & 0x7Fu32) as u8 == 47u8) by (bit_vector);
    }
    if encode_utf8(s)[0] == 47u8 {
        assert((47u8 & 0x7Fu8) as u32 == 47u32) by (bit_vector);
        assert(decode_first_scalar(encode_utf8(s)) == 47);
        char_u32_cast(s[0], 47u32);
    }
}

/// `Path::is_absolute` on Unix: the path begins with `/`.
fn path_is_absolute(p: &str) -> (r: bool)
    ensures
        r == (p@.len() > 0 && p@[0] == '/'),
{
    let b = p.as_bytes();
    proof {
        if p@.len() > 0 {
            lemma_first_byte_slash(p@);
        }
    }
    b.len() > 0 && b[0] == 47u8
}

/// `Path::extension`; the result is the named extension of `p`.
#[verifier::external_body]
fn extension_of(p: &str) -> (r: Option<String>)
    ensures
        opt_str(r) == path_extension(p@),
{
    std::path::Path::new(p).extension().and_then(|e| e.to_str()).map(|e| e.to_string())
}

/// `Path::parent`; the result is the named parent of `p`.
#[verifier::external_body]
fn parent_of(p: &str) -> (r: Option<String>)
    ensures
        opt_str(r) == path_parent(p@),
{
    std::path::Path::new(p).parent().and_then(|d| d.to_str()).map(|d| d.to_string())
}

/// ASCII lower case of a character.
pub open spec fn ascii_lower(c: char) -> char {
    if 'A' <= c && c <= 'Z' { ((c as u32) + 32) as char } else { c }
}

/// `ext.eq_ignore_ascii_case("zip")`.
pub open spec fn is_zip_extension(ext: Seq<char>) -> bool {
    ext.len() == 3 && ascii_lower(ext[0]) == 'z' && ascii_lower(ext[1]) == 'i' && ascii_lower(ext[2]) == 'p'
}

fn lower(c: char) -> (r: char)
    ensures
        r == ascii_lower(c),
{
    if 'A' <= c && c <= 'Z' {
        let b: u8 = (c as u8) + 32;
        b as char
    } else {
        c
    }
}

fn zip_extension(ext: &str) -> (r: bool)
    ensures
        r == is_zip_extension(ext@),
{
    if ext.unicode_len() != 3 {
        return false;
    }
    lower(ext.get_char(0)) == 'z' && lower(ext.get_char(1)) == 'i' && lower(ext.get_char(2)) == 'p'
}

/// The checks on a destination before anything is written: an absolute
/// path with a `.zip` extension (any case) and a parent directory. `Ok`
/// carries the parent directory, whose existence the caller checks next.
pub open spec fn spec_validate_destination(d: Seq<char>) -> Result<Seq<char>, Seq<char>> {
    if !(d.len() > 0 && d[0] == '/') {
        Err("export destination must be an absolute path: "@ + d)
    } else if !(path_extension(d) matches Some(e) && is_zip_extension(e)) {
        Err("export destination must end in .zip: "@ + d)
    } else {
        match path_parent(d) {
            Some(p) => Ok(p),
            None => Err("export destination has no parent directory: "@ + d),
        }
    }
}

/// Validates a save-dialog destination (see [`spec_validate_destination`]).
pub fn validate_destination(destination: &str) -> (r: Result<String, String>)
    ensures
        match r {
            Ok(p) => spec_validate_destination(destination@) == Ok::<Seq<char>, Seq<char>>(p@),
            Err(e) => spec_validate_destination(destination@) == Err::<Seq<char>, Seq<char>>(e@),
        },
{
    if !path_is_absolute(destination) {
        return Err(cat("export destination must be an absolute path: ", destination));
    }
    let ok_ext = match extension_of(destination) {
        Some(e) => zip_extension(e.as_str()),
        None => false,
    };
    if !ok_ext {
        return Err(cat("export destination must end in .zip: ", destination));
    }
    match parent_of(destination) {
        Some(p) => Ok(p),
        None => Err(cat("export destination has no parent directory: ", destination)),
    }
}

/// The error when the destination's parent directory does not exist.
pub fn missing_directory_error(parent: &str) -> (r: String)
    ensures
        r@ == "export destination directory does not exist: "@ + parent@,
{
    cat("export destination directory does not exist: ", parent)
}

/// The whole destination check before an export writes anything: the
/// rules of [`spec_validate_destination`] in their order, then that the
/// parent directory exists (`parent_is_dir`, which the caller reads from
/// the file system).
pub open spec fn spec_destination_check(d: Seq<char>, parent_is_dir: bool) -> Result<(), Seq<char>> {
    match spec_validate_destination(d) {
        Err(e) => Err(e),
        Ok(p) => if parent_is_dir {
            Ok(())
        } else {
            Err("export destination directory does not exist: "@ + p)
        },
    }
}

/// Checks a save-dialog destination (see [`spec_destination_check`]).
pub fn destination_check(destination: &str, parent_is_dir: bool) -> (r: Result<(), String>)
    ensures
        match r {
            Ok(()) => spec_destination_check(destination@, parent_is_dir) == Ok::<(), Seq<char>>(()),
            Err(e) => spec_destination_check(destination@, parent_is_dir) == Err::<(), Seq<char>>(e@),
        },
{
    let parent = match validate_destination(destination) {
        Ok(p) => p,
        Err(e) => { return Err(e); },
    };
    if !parent_is_dir {
        return Err(missing_directory_error(parent.as_str()));
    }
    Ok(())
}

} // verus!
