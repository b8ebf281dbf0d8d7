use std::io::Write;

use godam::assets::install;
use godam::assets::AssetArchive;
use godam::assets::AssetError;

fn build_zip(entries: &[(&str, &[u8])]) -> Vec<u8> {
    let mut writer = zip::ZipWriter::new(std::io::Cursor::new(Vec::new()));
    let options = zip::write::SimpleFileOptions::default();
    for (name, data) in entries {
        writer.start_file(*name, options).unwrap();
        writer.write_all(data).unwrap();
    }
    writer.finish().unwrap().into_inner()
}

#[test]
fn archive_from_bytes_lists_entries_in_order() {
    let bytes = build_zip(&[("addons/p/a.txt", b"a"), ("addons/p/b.txt", b"b")]);
    let archive = AssetArchive::from_bytes("1".to_string(), bytes).unwrap();
    assert_eq!(archive.entries, vec!["addons/p/a.txt", "addons/p/b.txt"]);
}

#[test]
fn archive_from_bytes_rejects_non_archives() {
    let result = AssetArchive::from_bytes("1".to_string(), b"not a zip at all".to_vec());
    assert!(matches!(result, Err(AssetError::Zip(_))));
}

#[test]
fn locator_finds_marker_at_first_component() {
    let bytes = build_zip(&[("addons/foo/x.gd", b"x")]);
    let archive = AssetArchive::from_bytes("1".to_string(), bytes).unwrap();
    let (plugin, prefix) = archive.get_plugin_info().unwrap();
    assert_eq!(plugin, "foo");
    assert_eq!(prefix, "addons/foo");
}

#[test]
fn locator_finds_marker_at_second_component() {
    let bytes = build_zip(&[("MyAddon-main/addons/cool_plugin/plugin.cfg", b"x")]);
    let archive = AssetArchive::from_bytes("1".to_string(), bytes).unwrap();
    let (plugin, prefix) = archive.get_plugin_info().unwrap();
    assert_eq!(plugin, "cool_plugin");
    assert_eq!(prefix, "MyAddon-main/addons/cool_plugin");
}

#[test]
fn locator_prefers_the_first_matching_entry() {
    let bytes = build_zip(&[
        ("readme.txt", b"r"),
        ("wrap/addons/first/a.gd", b"a"),
        ("addons/second/b.gd", b"b"),
    ]);
    let archive = AssetArchive::from_bytes("1".to_string(), bytes).unwrap();
    let (plugin, _) = archive.get_plugin_info().unwrap();
    assert_eq!(plugin, "first");
}

#[test]
fn locator_skips_an_empty_following_component() {
    let bytes = build_zip(&[("addons/", b""), ("addons/real/a.gd", b"a")]);
    let archive = AssetArchive::from_bytes("1".to_string(), bytes).unwrap();
    let (plugin, _) = archive.get_plugin_info().unwrap();
    assert_eq!(plugin, "real");
}

#[test]
fn locate_fails_with_structural_error_without_marker() {
    let bytes = build_zip(&[("readme.txt", b"r"), ("LICENSE", b"l")]);
    let archive = AssetArchive::from_bytes("123".to_string(), bytes).unwrap();
    assert!(archive.get_plugin_info().is_none());
    match archive.get_plugin_name_and_files_to_extract() {
        Err(AssetError::InvalidAssetStructure(id)) => assert_eq!(id, "123"),
        _ => panic!("expected a structural error"),
    }
    match install(AssetArchive::from_bytes(
        "123".to_string(),
        build_zip(&[("readme.txt", b"r"), ("LICENSE", b"l")]),
    )
    .unwrap())
    {
        Err(AssetError::InvalidAssetStructure(id)) => assert_eq!(id, "123"),
        _ => panic!("expected a structural error, no files planned"),
    }
}

#[test]
fn files_to_extract_are_those_under_the_prefix() {
    let bytes = build_zip(&[
        ("wrap/addons/p/a.gd", b"a"),
        ("wrap/readme.txt", b"r"),
        ("wrap/addons/p/sub/b.gd", b"b"),
    ]);
    let archive = AssetArchive::from_bytes("1".to_string(), bytes).unwrap();
    let (plugin, files) = archive.get_plugin_name_and_files_to_extract().unwrap();
    assert_eq!(plugin, "p");
    assert_eq!(files, vec!["wrap/addons/p/a.gd", "wrap/addons/p/sub/b.gd"]);
}

#[test]
fn install_plans_rebased_outputs_with_contents() {
    let bytes = build_zip(&[
        ("MyAddon-main/addons/cool_plugin/plugin.cfg", b"cfg-data".as_slice()),
        ("MyAddon-main/addons/cool_plugin/main.gd", b"gd-data".as_slice()),
    ]);
    let archive = AssetArchive::from_bytes("123".to_string(), bytes).unwrap();
    let (plugin, outs) = install(archive).unwrap();
    assert_eq!(plugin, "cool_plugin");
    assert_eq!(outs.len(), 2);
    assert_eq!(outs[0].path, "addons/cool_plugin/plugin.cfg");
    assert_eq!(outs[0].data, b"cfg-data");
    assert!(!outs[0].is_dir);
    assert_eq!(outs[1].path, "addons/cool_plugin/main.gd");
    assert_eq!(outs[1].data, b"gd-data");
    assert!(!outs[1].is_dir);
}

#[test]
fn install_refuses_paths_that_escape_the_project() {
    let bytes = build_zip(&[("addons/../../evil/x.txt", b"x")]);
    let archive = AssetArchive::from_bytes("1".to_string(), bytes).unwrap();
    match install(archive) {
        Err(AssetError::UnsafePath(p)) => assert_eq!(p, "addons/../../evil/x.txt"),
        _ => panic!("expected the escape to be refused"),
    }
}

#[test]
fn install_marks_directory_entries() {
    let mut writer = zip::ZipWriter::new(std::io::Cursor::new(Vec::new()));
    let options = zip::write::SimpleFileOptions::default();
    writer.add_directory("addons/p/sub", options).unwrap();
    writer.start_file("addons/p/a.gd", options).unwrap();
    writer.write_all(b"a").unwrap();
    let bytes = writer.finish().unwrap().into_inner();
    let archive = AssetArchive::from_bytes("1".to_string(), bytes).unwrap();
    let (_, outs) = install(archive).unwrap();
    assert_eq!(outs.len(), 2);
    assert_eq!(outs[0].path, "addons/p/sub/");
    assert!(outs[0].is_dir);
    assert!(!outs[1].is_dir);
}
