use godam::fs::check_path_stays_within;
use godam::fs::get_addons_path;
use godam::fs::get_cache_path;
use godam::fs::get_cached_zip_path;
use godam::fs::get_config_path;
use godam::fs::get_gitignore_path;
use godam::fs::get_install_folder_path;
use godam::fs::get_out_path_from_archive_path;
use godam::fs::get_project_file_path;

#[test]
fn paths_are_within_working_directory() {
    let cache_path = get_cache_path();
    let cached_zip_path = get_cached_zip_path("1234");

    assert!(check_path_stays_within(cache_path));
    assert!(check_path_stays_within(cached_zip_path.as_str()));
}

#[test]
fn fixed_paths_have_expected_values() {
    assert_eq!(get_config_path(), "./addons/godam.toml");
    assert_eq!(get_project_file_path(), "./project.godot");
    assert_eq!(get_cache_path(), "./addons/.godam");
    assert_eq!(get_addons_path(), "./addons");
    assert_eq!(get_gitignore_path(), "./addons/.gitignore");
}

#[test]
fn cached_zip_path_is_keyed_by_id() {
    assert_eq!(get_cached_zip_path("42"), "./addons/.godam/42.zip");
    assert_eq!(get_install_folder_path("cool_plugin"), "./addons/cool_plugin");
}

#[test]
fn out_path_strips_everything_before_the_marker() {
    assert_eq!(
        get_out_path_from_archive_path("MyAddon-main/addons/cool_plugin/plugin.cfg"),
        Some("addons/cool_plugin/plugin.cfg".to_string())
    );
    assert_eq!(
        get_out_path_from_archive_path("addons/x/y.gd"),
        Some("addons/x/y.gd".to_string())
    );
    assert_eq!(get_out_path_from_archive_path("readme.txt"), None);
}

#[test]
fn out_path_uses_the_first_marker_occurrence() {
    assert_eq!(
        get_out_path_from_archive_path("a/addons/b/addons/c"),
        Some("addons/b/addons/c".to_string())
    );
}

#[test]
fn containment_check_rejects_escapes() {
    assert!(check_path_stays_within("addons/plug/file.gd"));
    assert!(check_path_stays_within("addons/a/../b"));
    assert!(check_path_stays_within("addons/.."));
    assert!(!check_path_stays_within("addons/../.."));
    assert!(!check_path_stays_within("addons/../../etc/passwd"));
    assert!(!check_path_stays_within(".."));
    assert!(check_path_stays_within("./addons/x"));
}
