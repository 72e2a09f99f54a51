//! Application settings and the validation the update command performs,
//! plus the platform browser-detection tables.
//!
//! Persistence, the folder-picker dialog and filesystem existence checks
//! are the caller's concern; the decisions (which settings are valid,
//! whether the binary cache must be invalidated, which probed browsers
//! to report) are made here.

use vstd::prelude::*;
use vstd::string::StrSliceExecFns;
use vstd::string::StringExecFns;
use crate::errors::AppError;
use crate::security::{
    clamp_max_concurrent,
    sanitize_cookie_browser,
    sanitize_filename_template,
    sanitize_output_path,
    spec_browser_ok,
    spec_clamp_concurrent,
    spec_path_ok,
    spec_template_ok,
};

verus! {

/// How the external binaries the system depends on are resolved.
#[derive(Clone, Copy, PartialEq, Eq, Structural, Debug)]
pub enum DepMode {
    /// Use a managed copy when present, fall back to the system.
    Auto,
    /// Only binaries found on the system are used.
    System,
    /// Only the managed copies are used.
    Managed,
}

impl Default for DepMode {
    /// The default resolution mode.
    fn default() -> (r: Self)
        ensures
            r == DepMode::Auto,
    {
        DepMode::Auto
    }
}

/// The persisted application settings.
#[derive(Clone, Debug)]
pub struct AppSettings {
    /// Absolute download directory; empty means "unset".
    pub download_path: String,
    /// Relative filename template with provider placeholders.
    pub filename_template: String,
    /// Optional browser to read cookies from, possibly `name:profile`.
    pub cookie_browser: Option<String>,
    /// Upper bound on simultaneously running downloads.
    pub max_concurrent: u32,
    /// How the external binaries are resolved.
    pub dep_mode: DepMode,
}

/// Whether a settings value passes the update command's validation:
/// the download path is unset or valid, the template is valid, and the
/// cookie browser, when present, is valid.
pub open spec fn spec_settings_ok(s: AppSettings) -> bool {
    &&& (s.download_path@.len() == 0 || spec_path_ok(s.download_path@))
    &&& spec_template_ok(s.filename_template@)
    &&& (s.cookie_browser matches Some(b) ==> spec_browser_ok(b@))
}

/// Validate a settings value before it is persisted: re-run the
/// sanitizers on the non-empty download path, the template and the
/// cookie browser, rejecting on the first violation, and clamp
/// `max_concurrent` into its safe range. The fields themselves are kept
/// as given.
pub fn validate_settings(s: AppSettings) -> (r: Result<AppSettings, AppError>)
    ensures
        r is Ok <==> spec_settings_ok(s),
        r matches Ok(t) ==> {
            &&& t.download_path == s.download_path
            &&& t.filename_template == s.filename_template
            &&& t.cookie_browser == s.cookie_browser
            &&& t.dep_mode == s.dep_mode
            &&& t.max_concurrent == spec_clamp_concurrent(s.max_concurrent as int)
        },
        (s.download_path@.len() > 0 && !spec_path_ok(s.download_path@)) ==> r matches Err(
            AppError::FileError(_),
        ),
        ((s.download_path@.len() == 0 || spec_path_ok(s.download_path@)) && !spec_template_ok(
            s.filename_template@,
        )) ==> r matches Err(AppError::Custom(_)),
        ((s.download_path@.len() == 0 || spec_path_ok(s.download_path@)) && spec_template_ok(
            s.filename_template@,
        ) && (s.cookie_browser matches Some(b) && !spec_browser_ok(b@))) ==> r matches Err(
            AppError::Custom(_),
        ),
{
    if s.download_path.as_str().unicode_len() != 0 {
        match sanitize_output_path(s.download_path.as_str()) {
            Ok(_) => {},
            Err(e) => {
                return Err(e);
            },
        }
    }
    match sanitize_filename_template(s.filename_template.as_str()) {
        Ok(_) => {},
        Err(e) => {
            return Err(e);
        },
    }
    match &s.cookie_browser {
        Some(b) => {
            match sanitize_cookie_browser(b.as_str()) {
                Ok(_) => {},
                Err(e) => {
                    return Err(e);
                },
            }
        },
        None => {},
    }
    let clamped = clamp_max_concurrent(s.max_concurrent);
    Ok(
        AppSettings {
            download_path: s.download_path,
            filename_template: s.filename_template,
            cookie_browser: s.cookie_browser,
            max_concurrent: clamped,
            dep_mode: s.dep_mode,
        },
    )
}

/// Whether a settings update switched the dependency-resolution mode,
/// in which case the binary dependency cache must be invalidated.
pub fn dep_cache_must_invalidate(old_mode: DepMode, new_mode: DepMode) -> (r: bool)
    ensures
        r == (old_mode != new_mode),
{
    old_mode != new_mode
}

/// A platform tag for the browser-detection tables.
#[derive(Clone, Copy, PartialEq, Eq, Structural, Debug)]
pub enum Platform {
    /// Windows install paths.
    Windows,
    /// macOS application bundles.
    MacOs,
    /// Linux binary paths.
    Linux,
}

/// The browser names probed on each platform, in check order.
pub open spec fn spec_check_names(p: Platform) -> Seq<Seq<char>> {
    match p {
        Platform::Windows => seq![
            "chrome"@,
            "chrome"@,
            "firefox"@,
            "firefox"@,
            "edge"@,
            "brave"@,
        ],
        Platform::MacOs => seq!["chrome"@, "firefox"@, "safari"@, "brave"@, "edge"@],
        Platform::Linux => seq![
            "chrome"@,
            "chrome"@,
            "chromium"@,
            "chromium"@,
            "firefox"@,
            "brave"@,
            "edge"@,
        ],
    }
}

/// The install paths probed on each platform, in check order.
pub open spec fn spec_check_paths(p: Platform) -> Seq<Seq<char>> {
    match p {
        Platform::Windows => seq![
            "C:\\Program Files\\Google\\Chrome\\Application\\chrome.exe"@,
            "C:\\Program Files (x86)\\Google\\Chrome\\Application\\chrome.exe"@,
            "C:\\Program Files\\Mozilla Firefox\\firefox.exe"@,
            "C:\\Program Files (x86)\\Mozilla Firefox\\firefox.exe"@,
            "C:\\Program Files (x86)\\Microsoft\\Edge\\Application\\msedge.exe"@,
            "C:\\Program Files\\BraveSoftware\\Brave-Browser\\Application\\brave.exe"@,
        ],
        Platform::MacOs => seq![
            "/Applications/Google Chrome.app"@,
            "/Applications/Firefox.app"@,
            "/Applications/Safari.app"@,
            "/Applications/Brave Browser.app"@,
            "/Applications/Microsoft Edge.app"@,
        ],
        Platform::Linux => seq![
            "/usr/bin/google-chrome-stable"@,
            "/usr/bin/google-chrome"@,
            "/usr/bin/chromium-browser"@,
            "/usr/bin/chromium"@,
            "/usr/bin/firefox"@,
            "/usr/bin/brave-browser"@,
            "/usr/bin/microsoft-edge"@,
        ],
    }
}

/// The fixed table of `(browser name, well-known install path)` pairs
/// probed on a platform, in check order.
pub fn browser_checks(p: Platform) -> (r: Vec<(String, String)>)
    ensures
        r@.map_values(|pr: (String, String)| pr.0@) == spec_check_names(p),
        r@.map_values(|pr: (String, String)| pr.1@) == spec_check_paths(p),
{
    let mut r: Vec<(String, String)> = Vec::new();
    match p {
        Platform::Windows => {
            push_check(&mut r, "chrome", "C:\\Program Files\\Google\\Chrome\\Application\\chrome.exe");
            push_check(&mut r, "chrome", "C:\\Program Files (x86)\\Google\\Chrome\\Application\\chrome.exe");
            push_check(&mut r, "firefox", "C:\\Program Files\\Mozilla Firefox\\firefox.exe");
            push_check(&mut r, "firefox", "C:\\Program Files (x86)\\Mozilla Firefox\\firefox.exe");
            push_check(&mut r, "edge", "C:\\Program Files (x86)\\Microsoft\\Edge\\Application\\msedge.exe");
            push_check(&mut r, "brave", "C:\\Program Files\\BraveSoftware\\Brave-Browser\\Application\\brave.exe");
        },
        Platform::MacOs => {
            push_check(&mut r, "chrome", "/Applications/Google Chrome.app");
            push_check(&mut r, "firefox", "/Applications/Firefox.app");
            push_check(&mut r, "safari", "/Applications/Safari.app");
            push_check(&mut r, "brave", "/Applications/Brave Browser.app");
            push_check(&mut r, "edge", "/Applications/Microsoft Edge.app");
        },
        Platform::Linux => {
            push_check(&mut r, "chrome", "/usr/bin/google-chrome-stable");
            push_check(&mut r, "chrome", "/usr/bin/google-chrome");
            push_check(&mut r, "chromium", "/usr/bin/chromium-browser");
            push_check(&mut r, "chromium", "/usr/bin/chromium");
            push_check(&mut r, "firefox", "/usr/bin/firefox");
            push_check(&mut r, "brave", "/usr/bin/brave-browser");
            push_check(&mut r, "edge", "/usr/bin/microsoft-edge");
        },
    }
    proof {
        assert(r@.map_values(|pr: (String, String)| pr.0@) =~= spec_check_names(p));
        assert(r@.map_values(|pr: (String, String)| pr.1@) =~= spec_check_paths(p));
    }
    r
}

/// Append one `(name, path)` probe to the table.
fn push_check(r: &mut Vec<(String, String)>, name: &str, path: &str)
    ensures
        final(r)@.len() == old(r)@.len() + 1,
        final(r)@.map_values(|pr: (String, String)| pr.0@) == old(r)@.map_values(
            |pr: (String, String)| pr.0@,
        ).push(name@),
        final(r)@.map_values(|pr: (String, String)| pr.1@) == old(r)@.map_values(
            |pr: (String, String)| pr.1@,
        ).push(path@),
{
    let entry = (String::from_str(name), String::from_str(path));
    r.push(entry);
    proof {
        assert(r@.map_values(|pr: (String, String)| pr.0@) =~= old(r)@.map_values(
            |pr: (String, String)| pr.0@,
        ).push(name@));
        assert(r@.map_values(|pr: (String, String)| pr.1@) =~= old(r)@.map_values(
            |pr: (String, String)| pr.1@,
        ).push(path@));
    }
}

/// The probed browser names that were found, de-duplicated, in check
/// order.
pub open spec fn spec_available(names: Seq<Seq<char>>, present: Seq<bool>) -> Seq<Seq<char>>
    decreases names.len(),
{
    if names.len() == 0 {
        seq![]
    } else {
        let rest = spec_available(names.drop_last(), present.drop_last());
        if names.len() <= present.len() && present[names.len() - 1] && !rest.contains(
            names.last(),
        ) {
            rest.push(names.last())
        } else {
            rest
        }
    }
}

/// From the probe table's names and the caller's filesystem existence
/// answers, the available browsers: each name whose probe succeeded,
/// reported once, in the insertion order of the checks.
pub fn available_browsers(names: &Vec<String>, present: &Vec<bool>) -> (r: Vec<String>)
    requires
        names@.len() == present@.len(),
    ensures
        r@.map_values(|s: String| s@) == spec_available(
            names@.map_values(|s: String| s@),
            present@,
        ),
{
    let n = names.len();
    let mut out: Vec<String> = Vec::new();
    let mut i: usize = 0;
    while i < n
        invariant
            n == names@.len(),
            n == present@.len(),
            0 <= i <= n,
            out@.map_values(|s: String| s@) =~= spec_available(
                names@.map_values(|s: String| s@).subrange(0, i as int),
                present@.subrange(0, i as int),
            ),
        decreases n - i,
    {
        let ghost nv = names@.map_values(|s: String| s@);
        proof {
            assert(nv.subrange(0, i + 1 as int).drop_last() =~= nv.subrange(0, i as int));
            assert(present@.subrange(0, i + 1 as int).drop_last() =~= present@.subrange(
                0,
                i as int,
            ));
            assert(nv.subrange(0, i + 1 as int).last() == nv[i as int]);
        }
        if present[i] {
            let mut seen = false;
            let mut j: usize = 0;
            while j < out.len()
                invariant
                    0 <= j <= out@.len(),
                    i < n,
                    n == names@.len(),
                    seen <==> (exists|k: int|
                        0 <= k < j && (#[trigger] out@[k])@ == names@[i as int]@),
                decreases out@.len() - j,
            {
                if out[j].eq(&names[i]) {
                    seen = true;
                }
                j = j + 1;
            }
            proof {
                let ov = out@.map_values(|s: String| s@);
                if seen {
                    let k = choose|k: int|
                        0 <= k < out@.len() && (#[trigger] out@[k])@ == names@[i as int]@;
                    assert(ov[k] == names@[i as int]@);
                    assert(ov.contains(nv[i as int]));
                } else {
                    if ov.contains(nv[i as int]) {
                        let k = choose|k: int| 0 <= k < ov.len() && ov[k] == nv[i as int];
                        assert((out@[k])@ == names@[i as int]@);
                        assert(false);
                    }
                }
            }
            if !seen {
                let ghost old_out = out@;
                out.push(names[i].clone());
                proof {
                    assert(out@.map_values(|s: String| s@) =~= old_out.map_values(
                        |s: String| s@,
                    ).push(names@[i as int]@));
                }
            }
        }
        proof {
            assert(out@.map_values(|s: String| s@) =~= spec_available(
                nv.subrange(0, i + 1 as int),
                present@.subrange(0, i + 1 as int),
            ));
        }
        i = i + 1;
    }
    proof {
        assert(names@.map_values(|s: String| s@).subrange(0, n as int) =~= names@.map_values(
            |s: String| s@,
        ));
        assert(present@.subrange(0, n as int) =~= present@);
    }
    out
}

} // verus!
