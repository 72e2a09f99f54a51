//! The sanitization gate: validation of every piece of untrusted input
//! before it may reach process-argument construction or disk I/O.
//!
//! Each function rejects on the first violation it finds and returns the
//! sanitized value otherwise; none of them panics.

use vstd::prelude::*;
use vstd::string::StrSliceExecFns;
use vstd::string::StringExecFns;
use crate::errors::AppError;
use crate::host::{extract_host, is_ssrf_target, scheme_ok, spec_host_of, spec_is_blocked_host};
use crate::text::{
    chars_eq_str,
    chars_of_str,
    colon_pred,
    contains_chars,
    contains_seq,
    copy_range,
    has_prefix,
    has_prefix_chars,
    lemma_first_where,
    starts_with_at,
    first_where,
    lower_chars_of_str,
    lower_seq,
    string_of_chars,
    trim_spec,
    trim_str,
};

verus! {

/// The maximum accepted URL length, in characters.
pub const MAX_URL_LENGTH: usize = 8192;

/// The maximum accepted path length, in characters.
pub const MAX_PATH_LENGTH: usize = 4096;

/// The maximum accepted filename-template length, in characters.
pub const MAX_TEMPLATE_LENGTH: usize = 500;

/// Whether a raw URL passes validation: after trimming it is non-empty,
/// within the length bound, carries an `http://` or `https://` scheme
/// (case-insensitively), and any extractable host is not a local or
/// private network target.
pub open spec fn spec_url_ok(raw: Seq<char>) -> bool {
    let t = trim_spec(raw);
    let low = lower_seq(t);
    &&& t.len() > 0
    &&& t.len() <= 8192
    &&& scheme_ok(low)
    &&& (spec_host_of(low) matches Some(h) ==> !spec_is_blocked_host(h))
}

/// Validate a URL for safe use as an argument of the external download
/// tool.
///
/// Only `http://` and `https://` URLs are accepted; every other scheme
/// is rejected. The URL is rejected when its host is a local or private
/// network address, with one generic message that does not reveal which
/// rule matched. On success the trimmed original string is returned
/// unchanged.
pub fn sanitize_url(url: &str) -> (r: Result<String, AppError>)
    ensures
        r is Ok <==> spec_url_ok(url@),
        r matches Ok(t) ==> t@ == trim_spec(url@),
        r matches Err(e) ==> e matches AppError::InvalidUrl(_),
        trim_spec(url@).len() > 8192 ==> r is Err,
        !scheme_ok(lower_seq(trim_spec(url@))) ==> r is Err,
        r matches Ok(t) ==> spec_url_ok(t@),
        (trim_spec(url@).len() > 0 && trim_spec(url@).len() <= 8192 && scheme_ok(
            lower_seq(trim_spec(url@)),
        ) && (spec_host_of(lower_seq(trim_spec(url@))) matches Some(h) && spec_is_blocked_host(h)))
            ==> (r matches Err(AppError::InvalidUrl(m)) && m@
            == "URLs pointing to local or private network addresses are not allowed"@),
{
    proof {
        crate::text::lemma_trim_idempotent(url@);
    }
    let t = trim_str(url);
    let n = t.as_str().unicode_len();
    if n == 0 {
        return Err(AppError::InvalidUrl(String::from_str("URL is empty")));
    }
    if n > MAX_URL_LENGTH {
        return Err(
            AppError::InvalidUrl(
                String::from_str("URL exceeds the maximum length of 8192 characters"),
            ),
        );
    }
    let low = lower_chars_of_str(t.as_str());
    let https = chars_of_str("https://");
    let http = chars_of_str("http://");
    if !has_prefix_chars(&low, &http) && !has_prefix_chars(&low, &https) {
        return Err(
            AppError::InvalidUrl(String::from_str("Only http:// and https:// URLs are supported")),
        );
    }
    match extract_host(&low) {
        Some(h) => {
            if is_ssrf_target(&h) {
                Err(
                    AppError::InvalidUrl(
                        String::from_str(
                            "URLs pointing to local or private network addresses are not allowed",
                        ),
                    ),
                )
            } else {
                Ok(t)
            }
        },
        None => Ok(t),
    }
}

/// Whether `s` has a `..` path component: a `..` bounded by the string's
/// ends or by `/` separators.
pub open spec fn has_dotdot_component(s: Seq<char>) -> bool {
    exists|i: int|
        #![trigger s[i]]
        0 <= i && i + 2 <= s.len() && s[i] == '.' && s[i + 1] == '.' && (i == 0 || s[i - 1] == '/')
            && (i + 2 == s.len() || s[i + 2] == '/')
}

/// Whether a raw output path passes validation: after trimming it is
/// non-empty, within the length bound, absolute, and free of
/// parent-directory components.
pub open spec fn spec_path_ok(raw: Seq<char>) -> bool {
    let t = trim_spec(raw);
    &&& t.len() > 0
    &&& t.len() <= 4096
    &&& t[0] == '/'
    &&& !has_dotdot_component(t)
}

/// Validate a download output path.
///
/// The path must be absolute and must not contain a `..` traversal
/// component. Existence and writability are not checked here; that is
/// deferred to actual I/O. On success the trimmed path is returned
/// unchanged.
pub fn sanitize_output_path(path: &str) -> (r: Result<String, AppError>)
    ensures
        r is Ok <==> spec_path_ok(path@),
        r matches Ok(t) ==> t@ == trim_spec(path@),
        r matches Err(e) ==> e matches AppError::FileError(_),
        r matches Ok(t) ==> spec_path_ok(t@),
{
    proof {
        crate::text::lemma_trim_idempotent(path@);
    }
    let t = trim_str(path);
    let v = chars_of_str(t.as_str());
    let n = v.len();
    if n == 0 {
        return Err(AppError::FileError(String::from_str("Download path cannot be empty")));
    }
    if n > MAX_PATH_LENGTH {
        return Err(
            AppError::FileError(
                String::from_str("Path exceeds the maximum length of 4096 characters"),
            ),
        );
    }
    if v[0] != '/' {
        return Err(
            AppError::FileError(String::from_str("Download path must be an absolute path")),
        );
    }
    let mut i: usize = 0;
    while i + 2 <= n
        invariant
            n == v@.len(),
            n <= 4096,
            v@ == t@,
            t@ == trim_spec(path@),
            0 <= i <= n,
            forall|k: int|
                #![trigger v@[k]]
                0 <= k < i ==> !(k + 2 <= v@.len() && v@[k] == '.' && v@[k + 1] == '.' && (k == 0
                    || v@[k - 1] == '/') && (k + 2 == v@.len() || v@[k + 2] == '/')),
        decreases n - i,
    {
        if v[i] == '.' && v[i + 1] == '.' && (i == 0 || v[i - 1] == '/') && (i + 2 == n || v[i
            + 2] == '/') {
            proof {
                assert(v@ == t@);
                assert(0 <= i as int && i + 2 <= t@.len() && t@[i as int] == '.' && t@[i as int
                    + 1] == '.' && (i as int == 0 || t@[i as int - 1] == '/') && (i + 2 == t@.len()
                    || t@[i as int + 2] == '/'));
                assert(has_dotdot_component(t@));
            }
            return Err(
                AppError::FileError(
                    String::from_str("Download path must not contain '..' traversal"),
                ),
            );
        }
        i = i + 1;
    }
    proof {
        if has_dotdot_component(t@) {
            let k = choose|k: int|
                #![trigger t@[k]]
                0 <= k && k + 2 <= t@.len() && t@[k] == '.' && t@[k + 1] == '.' && (k == 0 || t@[k
                    - 1] == '/') && (k + 2 == t@.len() || t@[k + 2] == '/');
            assert(v@[k] == '.');
            assert(k < i);
            assert(false);
        }
    }
    Ok(t)
}

/// Whether a raw filename template passes validation: after trimming it
/// is non-empty, within the length bound, free of the disallowed
/// patterns `..` and `%(#)`, and relative.
pub open spec fn spec_template_ok(raw: Seq<char>) -> bool {
    let t = trim_spec(raw);
    &&& t.len() > 0
    &&& t.len() <= 500
    &&& !contains_seq(t, ".."@)
    &&& !contains_seq(t, "%(#)"@)
    &&& t[0] != '/'
}

/// Validate a filename template for the external download tool.
///
/// Provider placeholders such as `%(title)s` pass through unchecked; the
/// literal sequences `..` and `%(#)` are rejected, and the template must
/// be a relative path, to be joined against the output directory by the
/// caller. On success the trimmed template is returned unchanged.
pub fn sanitize_filename_template(template: &str) -> (r: Result<String, AppError>)
    ensures
        r is Ok <==> spec_template_ok(template@),
        r matches Ok(t) ==> t@ == trim_spec(template@),
        r matches Err(e) ==> e matches AppError::Custom(_),
        r matches Ok(t) ==> spec_template_ok(t@),
{
    proof {
        crate::text::lemma_trim_idempotent(template@);
    }
    let t = trim_str(template);
    let v = chars_of_str(t.as_str());
    let n = v.len();
    if n == 0 {
        return Err(AppError::Custom(String::from_str("Filename template cannot be empty")));
    }
    if n > MAX_TEMPLATE_LENGTH {
        return Err(AppError::Custom(String::from_str("Filename template is too long")));
    }
    let dotdot = chars_of_str("..");
    if contains_chars(&v, &dotdot) {
        return Err(
            AppError::Custom(
                String::from_str("Filename template contains disallowed pattern: '..'"),
            ),
        );
    }
    let hash_expansion = chars_of_str("%(#)");
    if contains_chars(&v, &hash_expansion) {
        return Err(
            AppError::Custom(
                String::from_str("Filename template contains disallowed pattern: '%(#)'"),
            ),
        );
    }
    if v[0] == '/' {
        return Err(
            AppError::Custom(String::from_str("Filename template must be a relative path")),
        );
    }
    Ok(t)
}

/// The browser identifiers the external tool can read cookies from.
pub open spec fn browser_name_ok(name: Seq<char>) -> bool {
    ||| name == "brave"@
    ||| name == "chrome"@
    ||| name == "chromium"@
    ||| name == "edge"@
    ||| name == "firefox"@
    ||| name == "opera"@
    ||| name == "safari"@
    ||| name == "vivaldi"@
    ||| name == "whale"@
}

/// Whether a raw cookie-browser identifier passes validation: after
/// trimming and lower-casing it is non-empty and the portion before the
/// first colon is a known browser name.
pub open spec fn spec_browser_ok(raw: Seq<char>) -> bool {
    let t = lower_seq(trim_spec(raw));
    &&& t.len() > 0
    &&& browser_name_ok(t.subrange(0, first_where(t, 0, colon_pred())))
}

/// Validate a cookie-browser identifier, optionally of the form
/// `name:profile`.
///
/// Only the portion before the first colon is checked against the
/// allow-list; the full lower-cased string, including any profile
/// suffix, is returned on success.
pub fn sanitize_cookie_browser(browser: &str) -> (r: Result<String, AppError>)
    ensures
        r is Ok <==> spec_browser_ok(browser@),
        r matches Ok(s) ==> s@ == lower_seq(trim_spec(browser@)),
        r matches Err(e) ==> e matches AppError::Custom(_),
        r matches Ok(s) ==> spec_browser_ok(s@),
        (lower_seq(trim_spec(browser@)).len() > 0 && !spec_browser_ok(browser@)) ==> (r matches Err(
            AppError::Custom(m),
        ) && m@
            == "Unsupported cookie browser. Supported: brave, chrome, chromium, edge, firefox, opera, safari, vivaldi, whale"@),
{
    proof {
        crate::text::lemma_trim_lower_trimmed(browser@);
        crate::text::lemma_lower_idempotent(trim_spec(browser@));
    }
    let t = trim_str(browser);
    let low = lower_chars_of_str(t.as_str());
    let n = low.len();
    if n == 0 {
        return Err(AppError::Custom(String::from_str("Cookie browser name cannot be empty")));
    }
    let mut j: usize = 0;
    while j < n && low[j] != ':'
        invariant
            n == low@.len(),
            0 <= j <= n,
            forall|k: int| 0 <= k < j ==> low@[k] != ':',
        decreases n - j,
    {
        j = j + 1;
    }
    proof {
        assert(forall|k: int| 0 <= k < j ==> !#[trigger] colon_pred()(low@[k]));
        if j < n {
            assert(colon_pred()(low@[j as int]));
        }
        lemma_first_where(low@, 0, colon_pred(), j as int);
    }
    let name = copy_range(&low, 0, j);
    let known = chars_eq_str(&name, "brave") || chars_eq_str(&name, "chrome") || chars_eq_str(
        &name,
        "chromium",
    ) || chars_eq_str(&name, "edge") || chars_eq_str(&name, "firefox") || chars_eq_str(
        &name,
        "opera",
    ) || chars_eq_str(&name, "safari") || chars_eq_str(&name, "vivaldi") || chars_eq_str(
        &name,
        "whale",
    );
    if !known {
        return Err(
            AppError::Custom(
                String::from_str(
                    "Unsupported cookie browser. Supported: brave, chrome, chromium, edge, firefox, opera, safari, vivaldi, whale",
                ),
            ),
        );
    }
    Ok(string_of_chars(&low))
}

/// `s` with every occurrence of `pat` replaced by `rep`, scanning left
/// to right without overlap; an empty pattern replaces nothing.
pub open spec fn replace_spec(s: Seq<char>, pat: Seq<char>, rep: Seq<char>) -> Seq<char>
    decreases s.len(),
{
    if pat.len() == 0 || s.len() < pat.len() {
        s
    } else if has_prefix(s, pat) {
        rep + replace_spec(s.subrange(pat.len() as int, s.len() as int), pat, rep)
    } else {
        seq![s[0]] + replace_spec(s.drop_first(), pat, rep)
    }
}

/// Scrub an error message before it is shown outward: every occurrence
/// of the user's home directory (as handed in by the caller, read from
/// its environment) is replaced with `~`. Purely privacy-hygiene; this
/// never fails.
pub fn sanitize_error_message(msg: &str, home: &str) -> (r: String)
    ensures
        r@ == replace_spec(msg@, home@, "~"@),
{
    let v = chars_of_str(msg);
    let p = chars_of_str(home);
    let n = v.len();
    let m = p.len();
    if m == 0 {
        return String::from_str(msg);
    }
    proof {
        reveal_strlit("~");
    }
    let mut out: Vec<char> = Vec::new();
    let mut i: usize = 0;
    proof {
        assert(v@.subrange(0, n as int) =~= msg@);
        assert(out@ + replace_spec(msg@, home@, "~"@) =~= replace_spec(msg@, home@, "~"@));
    }
    while i < n
        invariant
            n == v@.len(),
            m == p@.len(),
            1 <= m,
            v@ == msg@,
            p@ == home@,
            "~"@ =~= seq!['~'],
            0 <= i <= n,
            replace_spec(msg@, home@, "~"@) =~= out@ + replace_spec(
                v@.subrange(i as int, n as int),
                p@,
                "~"@,
            ),
        decreases n - i,
    {
        let ghost rem = v@.subrange(i as int, n as int);
        if n - i >= m && starts_with_at(&v, &p, i) {
            let ghost old_out = out@;
            out.push('~');
            proof {
                assert(rem.subrange(0, m as int) =~= v@.subrange(i as int, i + m as int));
                assert(has_prefix(rem, p@));
                assert(rem.subrange(m as int, rem.len() as int) =~= v@.subrange(
                    i + m as int,
                    n as int,
                ));
                assert(replace_spec(rem, p@, "~"@) =~= seq!['~'] + replace_spec(
                    v@.subrange(i + m as int, n as int),
                    p@,
                    "~"@,
                ));
                assert(out@ + replace_spec(v@.subrange(i + m as int, n as int), p@, "~"@)
                    =~= old_out + replace_spec(rem, p@, "~"@));
            }
            i = i + m;
        } else {
            let ghost old_out = out@;
            proof {
                if rem.len() >= m {
                    let sub = v@.subrange(i as int, n as int);
                    assert(sub.subrange(0, m as int) =~= v@.subrange(i as int, i + m as int));
                    assert(!has_prefix(rem, p@));
                }
                assert(rem.drop_first() =~= v@.subrange(i + 1 as int, n as int));
                assert(rem[0] == v@[i as int]);
                if rem.len() < m {
                    assert(replace_spec(rem, p@, "~"@) == rem);
                    assert(replace_spec(rem.drop_first(), p@, "~"@) == rem.drop_first());
                    assert(replace_spec(rem, p@, "~"@) =~= seq![rem[0]] + replace_spec(
                        rem.drop_first(),
                        p@,
                        "~"@,
                    ));
                } else {
                    assert(replace_spec(rem, p@, "~"@) =~= seq![rem[0]] + replace_spec(
                        rem.drop_first(),
                        p@,
                        "~"@,
                    ));
                }
            }
            out.push(v[i]);
            proof {
                assert(out@ + replace_spec(v@.subrange(i + 1 as int, n as int), p@, "~"@)
                    =~= old_out + replace_spec(rem, p@, "~"@));
            }
            i = i + 1;
        }
    }
    proof {
        assert(v@.subrange(n as int, n as int) =~= Seq::<char>::empty());
        assert(replace_spec(Seq::<char>::empty(), p@, "~"@) == Seq::<char>::empty());
        assert(out@ + Seq::<char>::empty() =~= out@);
    }
    string_of_chars(&out)
}

/// The clamped concurrency value: `n` forced into `[1, 10]`.
pub open spec fn spec_clamp_concurrent(n: int) -> int {
    if n < 1 {
        1
    } else if n > 10 {
        10
    } else {
        n
    }
}

/// Clamp a requested concurrency limit into the safe range `[1, 10]`.
///
/// This function is total: it never fails, it silently coerces
/// out-of-range input. It is idempotent: applying it to its own result
/// changes nothing.
pub fn clamp_max_concurrent(n: u32) -> (r: u32)
    ensures
        r == spec_clamp_concurrent(n as int),
        r == spec_clamp_concurrent(r as int),
        1 <= r <= 10,
{
    if n < 1 {
        1
    } else if n > 10 {
        10
    } else {
        n
    }
}

} // verus!
