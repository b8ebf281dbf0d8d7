use godam::godot::get_version;
use godam::godot::GodotProjectError;
use godam::godot::GodotVersion;

#[test]
fn two_component_version_gets_a_zero_patch() {
    let file = "[application]\nconfig/features=PackedStringArray(\"4.3\", \"Forward Plus\")\n";
    assert_eq!(get_version(file).unwrap(), GodotVersion { major: 4, minor: 3, patch: 0 });
}

#[test]
fn three_component_version_is_taken_as_is() {
    let file = "config/features=PackedStringArray(\"4.2.1\")";
    assert_eq!(get_version(file).unwrap(), GodotVersion { major: 4, minor: 2, patch: 1 });
}

#[test]
fn missing_features_line_means_project_not_found() {
    let file = "[application]\nconfig/name=\"demo\"\n";
    assert!(matches!(get_version(file), Err(GodotProjectError::ProjectNotFound)));
}

#[test]
fn features_line_without_quotes_is_a_parse_error() {
    let file = "config/features=PackedStringArray(";
    assert!(matches!(get_version(file), Err(GodotProjectError::VersionParse(_))));
}

#[test]
fn non_version_tag_is_a_parse_error() {
    let file = "config/features=PackedStringArray(\"not a version\")";
    assert!(matches!(get_version(file), Err(GodotProjectError::VersionParse(_))));
}

#[test]
fn first_features_line_wins() {
    let file = "config/features=PackedStringArray(\"4.1\")\nconfig/features=PackedStringArray(\"4.2\")";
    assert_eq!(get_version(file).unwrap(), GodotVersion { major: 4, minor: 1, patch: 0 });
}
