use ytdlp_guard::errors::AppError;
use ytdlp_guard::settings::available_browsers;
use ytdlp_guard::settings::browser_checks;
use ytdlp_guard::settings::dep_cache_must_invalidate;
use ytdlp_guard::settings::AppSettings;
use ytdlp_guard::settings::DepMode;
use ytdlp_guard::settings::Platform;
use ytdlp_guard::settings::validate_settings;

fn base_settings() -> AppSettings {
    AppSettings {
        download_path: String::from("/home/user/Downloads"),
        filename_template: String::from("%(title)s.%(ext)s"),
        cookie_browser: Some(String::from("firefox")),
        max_concurrent: 3,
        dep_mode: DepMode::Auto,
    }
}

#[test]
fn test_validate_settings_accepts_and_clamps() {
    let mut s = base_settings();
    s.max_concurrent = 99;
    let t = validate_settings(s).unwrap();
    assert_eq!(t.max_concurrent, 10);
    assert_eq!(t.download_path, "/home/user/Downloads");
    assert_eq!(t.filename_template, "%(title)s.%(ext)s");
    assert_eq!(t.cookie_browser, Some(String::from("firefox")));
    assert_eq!(t.dep_mode, DepMode::Auto);
}

#[test]
fn test_validate_settings_empty_path_means_unset() {
    let mut s = base_settings();
    s.download_path = String::new();
    assert!(validate_settings(s).is_ok());
}

#[test]
fn test_validate_settings_rejects_bad_fields() {
    let mut s = base_settings();
    s.download_path = String::from("relative/path");
    assert!(matches!(validate_settings(s), Err(AppError::FileError(_))));

    let mut s2 = base_settings();
    s2.filename_template = String::from("../%(title)s");
    assert!(matches!(validate_settings(s2), Err(AppError::Custom(_))));

    let mut s3 = base_settings();
    s3.cookie_browser = Some(String::from("netscape"));
    assert!(matches!(validate_settings(s3), Err(AppError::Custom(_))));
}

#[test]
fn test_dep_cache_invalidation_decision() {
    assert!(!dep_cache_must_invalidate(DepMode::Auto, DepMode::Auto));
    assert!(dep_cache_must_invalidate(DepMode::Auto, DepMode::System));
    assert!(dep_cache_must_invalidate(DepMode::Managed, DepMode::Auto));
    assert_eq!(DepMode::default(), DepMode::Auto);
}

#[test]
fn test_browser_checks_tables() {
    let linux = browser_checks(Platform::Linux);
    let names: Vec<&str> = linux.iter().map(|(n, _)| n.as_str()).collect();
    assert_eq!(
        names,
        ["chrome", "chrome", "chromium", "chromium", "firefox", "brave", "edge"]
    );
    assert_eq!(linux[0].1, "/usr/bin/google-chrome-stable");
    assert_eq!(linux[4].1, "/usr/bin/firefox");
    assert_eq!(browser_checks(Platform::MacOs).len(), 5);
    assert_eq!(browser_checks(Platform::MacOs)[2].1, "/Applications/Safari.app");
    assert_eq!(browser_checks(Platform::Windows).len(), 6);
}

#[test]
fn test_available_browsers_dedup_insertion_order() {
    let checks = browser_checks(Platform::Linux);
    let names: Vec<String> = checks.into_iter().map(|(n, _)| n).collect();
    // Both chrome probes and one chromium probe succeed, plus edge.
    let present = vec![true, true, true, false, false, false, true];
    let found = available_browsers(&names, &present);
    assert_eq!(found, ["chrome", "chromium", "edge"]);
    // Nothing found.
    let none = vec![false; 7];
    assert!(available_browsers(&names, &none).is_empty());
}
