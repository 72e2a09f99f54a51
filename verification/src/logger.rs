//! Log-line construction and recent-log retrieval.
//!
//! The logger value is constructed explicitly from the application data
//! directory; writing the rendered lines to disk is the caller's
//! concern, so a failure to write can degrade to a console fallback
//! without ever reaching the library's callers as an error. A log entry
//! has the form `[<timestamp>] [<LEVEL>] <message>` on its own line.

use vstd::prelude::*;
use vstd::string::StrSliceExecFns;
use vstd::string::StringExecFns;
use crate::text::{chars_of_str, copy_range, first_where, lemma_first_where, string_of_chars};

verus! {

/// One rendered log line: `[<ts>] [<level>] <message>` and a newline.
pub open spec fn spec_log_line(ts: Seq<char>, level: Seq<char>, msg: Seq<char>) -> Seq<char> {
    "["@ + ts + "] ["@ + level + "] "@ + msg + "\n"@
}

/// Relies on chrono::Local::now and the Display of its format: the
/// current local time rendered with millisecond precision. The result
/// depends on the clock, so only its shape is promised: the fixed
/// year-month-day hour:minute:second.millis format emits digits, `-`,
/// ` `, `:` and `.` alone, so the text is non-empty and free of `]` and
/// newlines, keeping the `[..]` bracket structure of a log line
/// unambiguous.
#[verifier::external_body]
fn now_timestamp() -> (r: String)
    ensures
        r@.len() > 0,
        forall|i: int| 0 <= i < r@.len() ==> r@[i] != ']' && r@[i] != '\n',
{
    chrono::Local::now().format("%Y-%m-%d %H:%M:%S%.3f").to_string()
}

/// A timestamp that keeps a log line's bracket structure unambiguous:
/// non-empty, with no closing bracket and no newline in it.
pub open spec fn plain_timestamp(ts: Seq<char>) -> bool {
    ts.len() > 0 && forall|i: int| 0 <= i < ts.len() ==> ts[i] != ']' && ts[i] != '\n'
}

/// The path of the log file inside the application data directory.
pub fn init(app_data_dir: &str) -> (r: String)
    ensures
        r@ == app_data_dir@ + "/log.txt"@,
{
    let mut r = String::from_str(app_data_dir);
    r.append("/log.txt");
    r
}

/// Render one log entry from its parts.
pub fn format_log_entry(timestamp: &str, level: &str, message: &str) -> (r: String)
    ensures
        r@ == spec_log_line(timestamp@, level@, message@),
{
    let mut r = String::from_str("[");
    r.append(timestamp);
    r.append("] [");
    r.append(level);
    r.append("] ");
    r.append(message);
    r.append("\n");
    proof {
        assert(r@ =~= spec_log_line(timestamp@, level@, message@));
    }
    r
}

/// Render an error entry, stamped with the current time.
pub fn error(message: &str) -> (r: String)
    ensures
        exists|ts: Seq<char>| r@ == spec_log_line(ts, "ERROR"@, message@) && #[trigger] plain_timestamp(ts),
{
    let ts = now_timestamp();
    let r = format_log_entry(ts.as_str(), "ERROR", message);
    proof {
        assert(r@ == spec_log_line(ts@, "ERROR"@, message@));
        assert(plain_timestamp(ts@));
    }
    r
}

/// Render an error entry whose message is prefixed with a context tag.
pub fn error_with_context(context: &str, message: &str) -> (r: String)
    ensures
        exists|ts: Seq<char>|
            r@ == spec_log_line(ts, "ERROR"@, "["@ + context@ + "] "@ + message@)
                && #[trigger] plain_timestamp(ts),
{
    let mut m = String::from_str("[");
    m.append(context);
    m.append("] ");
    m.append(message);
    proof {
        assert(m@ =~= "["@ + context@ + "] "@ + message@);
    }
    let ts = now_timestamp();
    let r = format_log_entry(ts.as_str(), "ERROR", m.as_str());
    proof {
        assert(r@ == spec_log_line(ts@, "ERROR"@, m@));
        assert(plain_timestamp(ts@));
    }
    r
}

/// Render a warning entry, stamped with the current time.
pub fn warn(message: &str) -> (r: String)
    ensures
        exists|ts: Seq<char>| r@ == spec_log_line(ts, "WARN"@, message@) && #[trigger] plain_timestamp(ts),
{
    let ts = now_timestamp();
    let r = format_log_entry(ts.as_str(), "WARN", message);
    proof {
        assert(r@ == spec_log_line(ts@, "WARN"@, message@));
        assert(plain_timestamp(ts@));
    }
    r
}

/// Render an info entry, stamped with the current time.
pub fn info(message: &str) -> (r: String)
    ensures
        exists|ts: Seq<char>| r@ == spec_log_line(ts, "INFO"@, message@) && #[trigger] plain_timestamp(ts),
{
    let ts = now_timestamp();
    let r = format_log_entry(ts.as_str(), "INFO", message);
    proof {
        assert(r@ == spec_log_line(ts@, "INFO"@, message@));
        assert(plain_timestamp(ts@));
    }
    r
}

/// The newline separator.
pub open spec fn nl_pred() -> spec_fn(char) -> bool {
    |c: char| c == '\n'
}

/// The newline-separated fields of `s` from position `i` on: what is
/// between consecutive newlines, the text before the first and after
/// the last included.
pub open spec fn fields_from(s: Seq<char>, i: int) -> Seq<Seq<char>>
    decreases s.len() - i,
{
    if !(0 <= i <= s.len()) {
        seq![]
    } else {
        let j = first_where(s, i, nl_pred());
        if j >= s.len() || j < i {
            seq![s.subrange(i, s.len() as int)]
        } else {
            seq![s.subrange(i, j)] + fields_from(s, j + 1)
        }
    }
}

/// The lines of `s`: its newline-separated fields, except that a
/// trailing newline does not open a final empty line.
pub open spec fn spec_lines(s: Seq<char>) -> Seq<Seq<char>> {
    let raw = fields_from(s, 0);
    if raw.len() > 0 && raw.last().len() == 0 {
        raw.drop_last()
    } else {
        raw
    }
}

/// The lines joined back with single newlines, no trailing newline.
pub open spec fn join_lines(ls: Seq<Seq<char>>) -> Seq<char>
    decreases ls.len(),
{
    if ls.len() == 0 {
        Seq::empty()
    } else if ls.len() == 1 {
        ls[0]
    } else {
        ls[0] + seq!['\n'] + join_lines(ls.drop_first())
    }
}

/// The last `max_lines` lines of `s`, in original order, joined with
/// newlines.
pub open spec fn spec_recent(s: Seq<char>, max_lines: int) -> Seq<char> {
    let ls = spec_lines(s);
    let start = if ls.len() > max_lines {
        ls.len() - max_lines
    } else {
        0
    };
    join_lines(ls.skip(start))
}

/// Split `v` into its newline-separated fields.
fn split_fields(v: &Vec<char>) -> (parts: Vec<Vec<char>>)
    ensures
        field_views(parts@) == fields_from(v@, 0),
        parts@.len() >= 1,
{
    let n = v.len();
    let mut parts: Vec<Vec<char>> = Vec::new();
    let mut start: usize = 0;
    loop
        invariant
            n == v@.len(),
            0 <= start <= n,
            fields_from(v@, 0) =~= field_views(parts@) + fields_from(v@, start as int),
        decreases n - start,
    {
        let mut j: usize = start;
        while j < n && v[j] != '\n'
            invariant
                n == v@.len(),
                start <= j <= n,
                forall|k: int| start <= k < j ==> v@[k] != '\n',
            decreases n - j,
        {
            j = j + 1;
        }
        proof {
            assert(forall|k: int| start <= k < j ==> !#[trigger] nl_pred()(v@[k]));
            if j < n {
                assert(nl_pred()(v@[j as int]));
            }
            lemma_first_where(v@, start as int, nl_pred(), j as int);
        }
        let part = copy_range(v, start, j);
        let ghost old_parts = parts@;
        parts.push(part);
        proof {
            assert(field_views(parts@) =~= field_views(old_parts) + seq![part@]);
        }
        if j == n {
            proof {
                assert(fields_from(v@, start as int) =~= seq![v@.subrange(start as int, n as int)]);
                assert(field_views(parts@) =~= fields_from(v@, 0));
            }
            return parts;
        }
        proof {
            assert(fields_from(v@, start as int) =~= seq![v@.subrange(start as int, j as int)]
                + fields_from(v@, j + 1));
            assert(field_views(parts@) + fields_from(v@, j + 1) =~= fields_from(v@, 0));
        }
        start = j + 1;
    }
}

/// The views of a vector of character vectors.
pub open spec fn field_views(parts: Seq<Vec<char>>) -> Seq<Seq<char>> {
    parts.map_values(|p: Vec<char>| p@)
}

/// Join `parts[idx..]` with newlines.
fn join_tail(parts: &Vec<Vec<char>>, idx: usize) -> (r: String)
    requires
        idx <= parts@.len(),
    ensures
        r@ == join_lines(field_views(parts@).skip(idx as int)),
    decreases parts@.len() - idx,
{
    let n = parts.len();
    proof {
        assert(field_views(parts@).len() == n);
    }
    if idx == n {
        let r = String::new();
        proof {
            assert(field_views(parts@).skip(idx as int) =~= Seq::<Seq<char>>::empty());
        }
        r
    } else if idx + 1 == n {
        let r = string_of_chars(&parts[idx]);
        proof {
            let tail = field_views(parts@).skip(idx as int);
            assert(tail.len() == 1);
            assert(tail[0] == parts@[idx as int]@);
        }
        r
    } else {
        let mut r = string_of_chars(&parts[idx]);
        r.append("\n");
        let rest = join_tail(parts, idx + 1);
        let r2 = r.concat(rest.as_str());
        proof {
            reveal_strlit("\n");
            let tail = field_views(parts@).skip(idx as int);
            assert(tail.len() >= 2);
            assert(tail[0] == parts@[idx as int]@);
            assert(tail.drop_first() =~= field_views(parts@).skip(idx + 1 as int));
            assert("\n"@ =~= seq!['\n']);
            assert(r2@ =~= tail[0] + seq!['\n'] + join_lines(tail.drop_first()));
        }
        r2
    }
}

/// The trailing `max_lines` lines of already-read log text, in their
/// original order, joined with newlines.
///
/// This is the computational half of recent-log retrieval: the caller
/// reads at most the last 512 KiB of the log file and hands the text
/// here; at most `max_lines` lines come back.
pub fn tail_lines(content: &str, max_lines: usize) -> (r: String)
    ensures
        r@ == spec_recent(content@, max_lines as int),
        spec_lines(content@).len() > max_lines ==> r@ == join_lines(
            spec_lines(content@).skip(spec_lines(content@).len() - max_lines),
        ),
{
    let v = chars_of_str(content);
    let mut parts = split_fields(&v);
    // A trailing newline does not open a final empty line.
    if parts[parts.len() - 1].len() == 0 {
        let ghost before = parts@;
        let _ = parts.pop();
        proof {
            assert(field_views(parts@) =~= field_views(before).drop_last());
        }
    }
    proof {
        assert(field_views(parts@) =~= spec_lines(content@));
    }
    let total = parts.len();
    let start: usize = if total > max_lines {
        total - max_lines
    } else {
        0
    };
    join_tail(&parts, start)
}

} // verus!
