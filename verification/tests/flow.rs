use std::collections::HashMap;
use std::io::Write;

use godam::addons::get_unpack_path;
use godam::assets::install;
use godam::assets::AssetArchive;
use godam::assets::AssetInfo;
use godam::assets::ExtractOut;
use godam::commands::list;
use godam::commands::search::try_find_asset_unambiguously;
use godam::commands::search::SearchError;
use godam::config::Config;
use godam::godot::AssetSearchResult;
use godam::godot::GodotVersion;

fn build_zip(entries: &[(&str, &[u8])]) -> Vec<u8> {
    let mut writer = zip::ZipWriter::new(std::io::Cursor::new(Vec::new()));
    let options = zip::write::SimpleFileOptions::default();
    for (name, data) in entries {
        writer.start_file(*name, options).unwrap();
        writer.write_all(data).unwrap();
    }
    writer.finish().unwrap().into_inner()
}

fn apply_outs(disk: &mut HashMap<String, Vec<u8>>, outs: &[ExtractOut]) {
    for out in outs {
        if !out.is_dir && !disk.contains_key(&out.path) {
            disk.insert(out.path.clone(), out.data.clone());
        }
    }
}

#[test]
fn installing_twice_yields_identical_contents() {
    let bytes = build_zip(&[
        ("addons/p/a.txt", b"alpha".as_slice()),
        ("addons/p/sub/b.txt", b"beta".as_slice()),
    ]);
    let first = AssetArchive::from_bytes("1".to_string(), bytes.clone()).unwrap();
    let second = AssetArchive::from_bytes("1".to_string(), bytes).unwrap();
    let (_, outs1) = install(first).unwrap();
    let (_, outs2) = install(second).unwrap();

    assert_eq!(outs1.len(), outs2.len());
    for (a, b) in outs1.iter().zip(outs2.iter()) {
        assert_eq!(a.path, b.path);
        assert_eq!(a.data, b.data);
        assert_eq!(a.is_dir, b.is_dir);
    }

    let mut disk: HashMap<String, Vec<u8>> = HashMap::new();
    apply_outs(&mut disk, &outs1);
    let after_first = disk.clone();
    apply_outs(&mut disk, &outs2);
    assert_eq!(disk, after_first);
}

#[test]
fn retry_over_partial_extraction_keeps_existing_files() {
    let bytes = build_zip(&[
        ("addons/p/a.txt", b"alpha".as_slice()),
        ("addons/p/b.txt", b"beta".as_slice()),
    ]);
    let archive = AssetArchive::from_bytes("1".to_string(), bytes).unwrap();
    let (_, outs) = install(archive).unwrap();

    let mut disk: HashMap<String, Vec<u8>> = HashMap::new();
    disk.insert("addons/p/a.txt".to_string(), b"edited by hand".to_vec());
    apply_outs(&mut disk, &outs);
    assert_eq!(disk["addons/p/a.txt"], b"edited by hand".to_vec());
    assert_eq!(disk["addons/p/b.txt"], b"beta".to_vec());
}

#[test]
fn batch_with_one_failure_installs_the_others() {
    let mut config = Config::init(GodotVersion { major: 4, minor: 3, patch: 0 });
    for i in 0..10 {
        let id = format!("id{i}");
        config
            .add_asset(
                id.clone(),
                AssetInfo {
                    asset_id: id.clone(),
                    title: format!("Asset {i}"),
                    download_url: format!("https://example.invalid/{id}"),
                    install_folder: None,
                },
            )
            .unwrap();
    }

    let mut any_failed = false;
    for i in 0..10 {
        let id = format!("id{i}");
        // One asset's download fails; the others yield a valid archive.
        let downloaded: Option<Vec<u8>> = if i == 7 {
            None
        } else {
            Some(build_zip(&[(format!("addons/plug{i}/a.gd").as_str(), b"data".as_slice())]))
        };
        match downloaded {
            None => {
                any_failed = true;
            },
            Some(bytes) => {
                let archive = AssetArchive::from_bytes(id.clone(), bytes).unwrap();
                let (folder_name, _prefix) = archive.get_plugin_info().unwrap();
                config.set_install_folder(id.as_str(), folder_name).unwrap();
                let (_, outs) = install(archive).unwrap();
                assert_eq!(outs.len(), 1);
            },
        }
    }

    assert!(any_failed);
    for i in 0..10 {
        let id = format!("id{i}");
        let folder = config.get_install_folder(id.as_str());
        if i == 7 {
            assert!(folder.is_none());
        } else {
            assert_eq!(folder.unwrap(), &format!("plug{i}"));
        }
    }
}

#[test]
fn list_lines_are_aligned() {
    let mut config = Config::init(GodotVersion { major: 4, minor: 3, patch: 0 });
    config
        .add_asset(
            "1".to_string(),
            AssetInfo {
                asset_id: "1".to_string(),
                title: "Alpha".to_string(),
                download_url: "https://example.invalid/1".to_string(),
                install_folder: None,
            },
        )
        .unwrap();
    config
        .add_asset(
            "123".to_string(),
            AssetInfo {
                asset_id: "123".to_string(),
                title: "Be".to_string(),
                download_url: "https://example.invalid/123".to_string(),
                install_folder: None,
            },
        )
        .unwrap();
    let lines = list::exec(&config);
    assert_eq!(lines, vec!["  1: Alpha", "123: Be   "]);
}

#[test]
fn search_by_name_needs_exactly_one_hit() {
    let one = vec![AssetSearchResult { asset_id: "7".to_string(), title: "Only".to_string() }];
    let picked = try_find_asset_unambiguously("only", &one).unwrap();
    assert_eq!(picked.asset_id, "7");

    match try_find_asset_unambiguously("nothing", &Vec::new()) {
        Err(SearchError::NoAddonsFound(n)) => assert_eq!(n, "nothing"),
        _ => panic!("expected no-addons-found"),
    }

    let many = vec![
        AssetSearchResult { asset_id: "1".to_string(), title: "First".to_string() },
        AssetSearchResult { asset_id: "2".to_string(), title: "Second".to_string() },
    ];
    match try_find_asset_unambiguously("ambiguous", &many) {
        Err(SearchError::MultipleAddonsFound(n, candidates)) => {
            assert_eq!(n, "ambiguous");
            assert_eq!(candidates, vec!["First", "Second"]);
        },
        _ => panic!("expected multiple-addons-found"),
    }
}

#[test]
fn unpack_path_keeps_or_rebases_addon_entries() {
    assert_eq!(get_unpack_path("addons/x/y.gd"), Some("addons/x/y.gd".to_string()));
    assert_eq!(get_unpack_path("wrap/addons/x/y.gd"), Some("addons/x/y.gd".to_string()));
    assert_eq!(get_unpack_path("wrap/addons/x/"), Some("addons/x/".to_string()));
    assert_eq!(get_unpack_path("a/b/c.gd"), None);
    assert_eq!(get_unpack_path("readme.txt"), None);
}
