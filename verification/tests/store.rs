use godam::assets::uninstall;
use godam::assets::AssetError;
use godam::assets::AssetInfo;
use godam::commands::install::pending_assets;
use godam::config::Config;
use godam::config::ConfigError;
use godam::godot::GodotVersion;

fn version() -> GodotVersion {
    GodotVersion { major: 4, minor: 3, patch: 0 }
}

fn asset(id: &str, title: &str) -> AssetInfo {
    AssetInfo {
        asset_id: id.to_string(),
        title: title.to_string(),
        download_url: format!("https://example.invalid/{id}"),
        install_folder: None,
    }
}

#[test]
fn add_and_get_round_trip() {
    let mut config = Config::init(version());
    config.add_asset("1".to_string(), asset("1", "Alpha")).unwrap();
    let found = config.get_asset_info("1").unwrap();
    assert_eq!(found.title, "Alpha");
    assert!(config.get_asset_info("2").is_none());
}

#[test]
fn adding_a_duplicate_id_is_a_conflict() {
    let mut config = Config::init(version());
    config.add_asset("1".to_string(), asset("1", "Alpha")).unwrap();
    match config.add_asset("1".to_string(), asset("1", "Alpha again")) {
        Err(ConfigError::Duplicate(id)) => assert_eq!(id, "1"),
        _ => panic!("expected a duplicate error"),
    }
    assert_eq!(config.get_asset_info("1").unwrap().title, "Alpha");
}

#[test]
fn removing_an_unknown_id_fails_with_not_found() {
    let mut config = Config::init(version());
    config.add_asset("1".to_string(), asset("1", "Alpha")).unwrap();
    match config.remove_asset("2") {
        Err(ConfigError::NotFound(id)) => assert_eq!(id, "2"),
        _ => panic!("expected a not-found error"),
    }
    assert!(config.get_asset_info("1").is_some());
}

#[test]
fn removing_a_present_id_deletes_record_and_mapping() {
    let mut config = Config::init(version());
    config.add_asset("1".to_string(), asset("1", "Alpha")).unwrap();
    config.add_asset("2".to_string(), asset("2", "Beta")).unwrap();
    config.set_install_folder("1", "alpha_folder".to_string()).unwrap();

    let (removed, folder) = config.remove_asset("1").unwrap();
    assert_eq!(removed.asset_id, "1");
    assert_eq!(folder, Some("alpha_folder".to_string()));
    assert!(config.get_asset_info("1").is_none());
    assert!(config.get_install_folder("1").is_none());
    assert_eq!(config.get_asset_info("2").unwrap().title, "Beta");
}

#[test]
fn install_folder_is_recorded_and_read_back() {
    let mut config = Config::init(version());
    config.add_asset("1".to_string(), asset("1", "Alpha")).unwrap();
    assert!(config.get_install_folder("1").is_none());
    config.set_install_folder("1", "plug".to_string()).unwrap();
    assert_eq!(config.get_install_folder("1").unwrap(), "plug");
    match config.set_install_folder("9", "plug".to_string()) {
        Err(ConfigError::NotFound(id)) => assert_eq!(id, "9"),
        _ => panic!("expected a not-found error"),
    }
}

#[test]
fn is_installed_requires_folder_present_on_disk() {
    let mut a = asset("1", "Alpha");
    assert!(!a.is_installed(&vec!["plug".to_string()]));
    a.install_folder = Some("plug".to_string());
    assert!(a.is_installed(&vec!["plug".to_string()]));
    assert!(!a.is_installed(&vec!["other".to_string()]));
    assert!(!a.is_installed(&Vec::new()));
}

#[test]
fn pending_assets_are_those_without_a_present_folder() {
    let mut config = Config::init(version());
    let mut installed = asset("1", "Alpha");
    installed.install_folder = Some("alpha".to_string());
    let mut deleted = asset("2", "Beta");
    deleted.install_folder = Some("beta".to_string());
    let fresh = asset("3", "Gamma");
    config.add_asset("1".to_string(), installed).unwrap();
    config.add_asset("2".to_string(), deleted).unwrap();
    config.add_asset("3".to_string(), fresh).unwrap();

    let on_disk = vec!["alpha".to_string()];
    let pending = pending_assets(&config, &on_disk);
    let ids: Vec<&str> = pending.iter().map(|a| a.asset_id.as_str()).collect();
    assert_eq!(ids, vec!["2", "3"]);
}

#[test]
fn uninstall_yields_folder_path_or_not_installed() {
    let mut a = asset("1", "Alpha");
    match uninstall(&a, &vec!["plug".to_string()]) {
        Err(AssetError::NotInstalled(id)) => assert_eq!(id, "1"),
        _ => panic!("expected not-installed"),
    }
    a.install_folder = Some("plug".to_string());
    assert_eq!(uninstall(&a, &vec!["plug".to_string()]).unwrap(), "./addons/plug");
    match uninstall(&a, &Vec::new()) {
        Err(AssetError::NotInstalled(id)) => assert_eq!(id, "1"),
        _ => panic!("expected not-installed when the folder is gone"),
    }
}
