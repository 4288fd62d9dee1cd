use stattracker::config::{
    confine_template_path, config_path_in, copies_bundled_template, db_path, is_safe_template_id,
    normalize_base_url, normalize_storage_path, strip_verbatim_prefix, template_dir, Config,
};
use stattracker::error::AppError;
use stattracker::paths::{join_path, path_starts_with, PathStyle};

const UNIX: PathStyle = PathStyle::Unix;
const WINDOWS: PathStyle = PathStyle::Windows;

#[test]
fn template_ids_must_be_a_single_normal_component() {
    for style in [UNIX, WINDOWS] {
        assert!(is_safe_template_id("horizontal", style));
        assert!(is_safe_template_id("my-template", style));
        assert!(!is_safe_template_id("", style));
        assert!(!is_safe_template_id(".", style));
        assert!(!is_safe_template_id("..", style));
        assert!(!is_safe_template_id("foo/bar", style));
        assert!(!is_safe_template_id("foo\\bar", style));
        assert!(!is_safe_template_id("../evil", style));
    }
}

#[test]
fn storage_paths_must_be_absolute_without_parent_dir() {
    for style in [UNIX, WINDOWS] {
        assert!(normalize_storage_path("", None, style).is_err());
        assert!(normalize_storage_path("relative-folder", None, style).is_err());
    }
    let traversal = r"C:\StatTrackerMissingDir\..\AlsoMissingStatTracker";
    assert!(normalize_storage_path(traversal, None, WINDOWS).is_err());
    let traversal = "/tmp/stattracker-missing-dir/../also-missing-stattracker";
    assert!(normalize_storage_path(traversal, None, UNIX).is_err());
}

#[test]
fn strips_windows_verbatim_prefix() {
    let local = strip_verbatim_prefix(
        r"\\?\C:\Users\demo\AppData\Roaming\org.sspl.stattracker".to_string(),
    );
    assert_eq!(local, r"C:\Users\demo\AppData\Roaming\org.sspl.stattracker".to_string());
    let unc = strip_verbatim_prefix(r"\\?\UNC\server\share\folder".to_string());
    assert_eq!(unc, r"\\server\share\folder".to_string());
}

#[test]
fn plain_paths_keep_their_text() {
    assert_eq!(strip_verbatim_prefix("/home/demo".to_string()), "/home/demo");
}

#[test]
fn storage_path_errors_name_the_problem() {
    assert_eq!(
        normalize_storage_path("   ", None, UNIX),
        Err(AppError::Message("Storage location is empty.".to_string()))
    );
    assert_eq!(
        normalize_storage_path("relative-folder", None, UNIX),
        Err(AppError::Message("Storage location must be an absolute path.".to_string()))
    );
    assert_eq!(
        normalize_storage_path("/a/../b", None, UNIX),
        Err(AppError::Message("Storage location must not contain '.' or '..'.".to_string()))
    );
}

#[test]
fn storage_paths_that_resolve_are_taken_as_resolved() {
    assert_eq!(
        normalize_storage_path("  /data/widget  ", None, UNIX),
        Ok("/data/widget".to_string())
    );
    assert_eq!(
        normalize_storage_path("relative-folder", Some("/home/demo/relative-folder".to_string()), UNIX),
        Ok("/home/demo/relative-folder".to_string())
    );
    assert_eq!(
        normalize_storage_path("x", Some(r"\\?\C:\data".to_string()), UNIX),
        Ok(r"C:\data".to_string())
    );
    assert_eq!(normalize_storage_path("/a/..b/c", None, UNIX), Ok("/a/..b/c".to_string()));
    assert_eq!(normalize_storage_path("/a/./b", None, UNIX), Ok("/a/./b".to_string()));
}

#[test]
fn base_urls_gain_one_trailing_slash() {
    assert_eq!(normalize_base_url("  https://example.com  "), "https://example.com/");
    assert_eq!(normalize_base_url("https://example.com/"), "https://example.com/");
    assert_eq!(normalize_base_url("   "), "");
    let once = normalize_base_url(" http://desk.local ");
    assert_eq!(normalize_base_url(&once), once);
}

#[test]
fn paths_join_with_one_separator() {
    assert_eq!(join_path(UNIX, "/data", "templates"), "/data/templates");
    assert_eq!(join_path(UNIX, "/data/", "templates"), "/data/templates");
    assert_eq!(join_path(UNIX, "", "templates"), "templates");
    assert_eq!(join_path(UNIX, "/data", "/etc"), "/etc");
    assert_eq!(config_path_in("/data", UNIX), "/data/config.toml");
    assert_eq!(db_path("/data", UNIX), "/data/stattracker.db");
}

#[test]
fn template_dirs_stay_under_templates() {
    assert_eq!(template_dir("/data", "vertical", UNIX), Ok("/data/templates/vertical".to_string()));
    assert_eq!(
        template_dir("/data", "../evil", UNIX),
        Err(AppError::Message("Template '../evil' is not allowed.".to_string()))
    );
}

fn sample_config() -> Config {
    let mut c = Config::defaults("/data".to_string());
    c.base_url = " https://stats.example.org ".to_string();
    c.desk_id = 3;
    c.unfocused_opacity = 250;
    c.update_mode = "loud".to_string();
    c.active_template = "../up".to_string();
    c.window_title = String::new();
    c.inactivity_minutes = 0;
    c
}

#[test]
fn normalize_brings_settings_into_range() {
    let mut c = sample_config();
    c.normalize(UNIX);
    assert_eq!(c.base_url, "https://stats.example.org/");
    assert_eq!(c.unfocused_opacity, 100);
    assert_eq!(c.update_mode, "notify");
    assert_eq!(c.active_template, "horizontal");
    assert_eq!(c.window_title, "StatTracker");
    assert_eq!(c.inactivity_minutes, 15);
    let mut s = sample_config();
    s.update_mode = "silent".to_string();
    s.unfocused_opacity = 40;
    s.normalize(UNIX);
    assert_eq!(s.update_mode, "silent");
    assert_eq!(s.unfocused_opacity, 40);
}

#[test]
fn normalize_twice_changes_nothing_more() {
    let mut a = sample_config();
    a.normalize(UNIX);
    let mut b = a.clone();
    b.normalize(UNIX);
    assert_eq!(format!("{:?}", a), format!("{:?}", b));
}

#[test]
fn defaults_and_completeness() {
    let d = Config::defaults("/data".to_string());
    assert_eq!(d.window_title, "StatTracker");
    assert_eq!(d.update_mode, "notify");
    assert!(d.autostart);
    assert!(!d.always_on_top);
    assert_eq!(d.unfocused_opacity, 55);
    assert_eq!(d.inactivity_minutes, 15);
    assert_eq!(d.active_template, "horizontal");
    assert_eq!(
        d.inactivity_message,
        "No questions have been recorded recently. Please remember to log desk activity."
    );
    assert!(!d.is_complete());
    let mut c = sample_config();
    c.normalize(UNIX);
    assert!(c.is_complete());
    c.desk_id = 0;
    assert!(!c.is_complete());
}

#[test]
fn template_paths_must_stay_inside_the_templates_folder() {
    assert!(path_starts_with(UNIX, "/data/templates/horizontal", "/data/templates"));
    assert!(path_starts_with(UNIX, "/data/templates/", "/data/templates"));
    assert!(path_starts_with(UNIX, "/data//templates/./x", "/data/templates"));
    assert!(path_starts_with(UNIX, "/anything", "/"));
    assert!(!path_starts_with(UNIX, "/data/templatesx", "/data/templates"));
    assert!(!path_starts_with(UNIX, "/etc/passwd", "/data/templates"));
    assert!(!path_starts_with(UNIX, "./a", "a"));
    assert!(!path_starts_with(UNIX, "data/templates", "/data"));
    assert_eq!(
        confine_template_path("/data/templates/x".to_string(), None, UNIX),
        Ok("/data/templates/x".to_string())
    );
    assert_eq!(
        confine_template_path(
            "/data/templates/link".to_string(),
            Some(("/data/templates".to_string(), "/data/templates/real".to_string())),
            UNIX
        ),
        Ok("/data/templates/real".to_string())
    );
    assert_eq!(
        confine_template_path(
            "/data/templates/link".to_string(),
            Some(("/data/templates".to_string(), "/etc".to_string())),
            UNIX
        ),
        Err(AppError::Message("Template path is outside the templates directory.".to_string()))
    );
}

#[test]
fn customized_templates_are_not_overwritten() {
    assert!(copies_bundled_template("horizontal", false, false, UNIX));
    assert!(!copies_bundled_template("horizontal", true, false, UNIX));
    assert!(copies_bundled_template("horizontal", true, true, UNIX));
    assert!(!copies_bundled_template("..", false, true, UNIX));
    assert!(!copies_bundled_template("a/b", false, false, UNIX));
}

#[test]
fn drive_names_are_not_template_ids_on_windows() {
    assert!(!is_safe_template_id("C:", WINDOWS));
    assert!(!is_safe_template_id("d:notes", WINDOWS));
    assert!(is_safe_template_id("C:", UNIX));
    assert!(is_safe_template_id("1:", WINDOWS));
    assert!(!copies_bundled_template("C:", false, false, WINDOWS));
}

#[test]
fn windows_storage_paths_follow_windows_rules() {
    assert_eq!(
        normalize_storage_path(r" C:\StatTracker ", None, WINDOWS),
        Ok(r"C:\StatTracker".to_string())
    );
    assert_eq!(
        normalize_storage_path(r"\\server\share\desk", None, WINDOWS),
        Ok(r"\\server\share\desk".to_string())
    );
    assert_eq!(
        normalize_storage_path(r"\\?\C:\StatTracker", None, WINDOWS),
        Ok(r"C:\StatTracker".to_string())
    );
    assert_eq!(
        normalize_storage_path(r"C:StatTracker", None, WINDOWS),
        Err(AppError::Message("Storage location must be an absolute path.".to_string()))
    );
    assert_eq!(
        normalize_storage_path(r"\StatTracker", None, WINDOWS),
        Err(AppError::Message("Storage location must be an absolute path.".to_string()))
    );
    assert_eq!(
        normalize_storage_path(r"C:\a/../b", None, WINDOWS),
        Err(AppError::Message("Storage location must not contain '.' or '..'.".to_string()))
    );
    assert_eq!(
        normalize_storage_path(r"\\?\C:\a\.\b", None, WINDOWS),
        Err(AppError::Message("Storage location must not contain '.' or '..'.".to_string()))
    );
    assert_eq!(
        normalize_storage_path(r"C:\StatTracker", None, UNIX),
        Err(AppError::Message("Storage location must be an absolute path.".to_string()))
    );
}

#[test]
fn windows_template_folders_stay_inside_templates() {
    let root = r"\\?\C:\Users\demo\StatTracker\templates";
    let inside = r"\\?\C:\Users\demo\StatTracker\templates\horizontal";
    assert!(path_starts_with(WINDOWS, inside, root));
    assert!(path_starts_with(WINDOWS, inside, r"\\?\c:\Users\demo\StatTracker\templates"));
    assert!(!path_starts_with(WINDOWS, r"\\?\C:\Users\demo\Other", root));
    assert!(!path_starts_with(UNIX, inside, root));
    assert!(path_starts_with(WINDOWS, r"C:/data/templates/x", r"C:\data\templates"));
    assert!(path_starts_with(WINDOWS, r"\\server\share\t\x", r"//server/share/t"));
    assert!(path_starts_with(WINDOWS, r"C:\x", ""));
    assert_eq!(
        confine_template_path(
            r"C:\data\templates\horizontal".to_string(),
            Some((root.to_string(), inside.to_string())),
            WINDOWS
        ),
        Ok(inside.to_string())
    );
}

#[test]
fn windows_paths_join_with_backslashes() {
    assert_eq!(join_path(WINDOWS, r"C:\data", "templates"), r"C:\data\templates");
    assert_eq!(join_path(WINDOWS, r"C:\data\", "templates"), r"C:\data\templates");
    assert_eq!(join_path(WINDOWS, "C:", "templates"), "C:templates");
    assert_eq!(join_path(WINDOWS, r"C:\data", r"\x"), r"C:\x");
    assert_eq!(join_path(WINDOWS, r"C:\data", r"D:\x"), r"D:\x");
    assert_eq!(join_path(WINDOWS, r"\\?\C:\a\\b", "t"), r"\\?\C:\a\b\t");
    assert_eq!(join_path(WINDOWS, r"\\?\C:\a\b", r"..\t"), r"\\?\C:\a\t");
    assert_eq!(db_path(r"C:\data", WINDOWS), r"C:\data\stattracker.db");
    assert_eq!(
        template_dir(r"C:\data", "vertical", WINDOWS),
        Ok(r"C:\data\templates\vertical".to_string())
    );
}
