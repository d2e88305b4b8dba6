use convenience_tools::paths::{
    config_path, current_log_file, data_dir, fallback_config_path, join_path, logs_path, themes_path,
    use_fallback_config, LEGACY_CONFIG_FILE_NAME, SETTINGS_FILE_NAME,
};

#[test]
fn isolated_override_keeps_settings_path_outside_the_executable_directory() {
    let data = data_dir(Some("/tmp/isolated-settings-path"), Some("/home/me/.config"), '/');
    assert_eq!(data, "/tmp/isolated-settings-path");
    let primary = config_path(&data, Some("/opt/tools"), true, '/');
    assert_eq!(primary, format!("/tmp/isolated-settings-path/{LEGACY_CONFIG_FILE_NAME}"));
    // With the override the primary file is always the one used.
    assert!(!use_fallback_config(true, true, true, Some(1), Some(2)));
    assert!(!use_fallback_config(true, true, false, None, Some(2)));
}

#[test]
fn normal_runtime_path_uses_settings_json_next_to_the_executable() {
    let data = data_dir(None, Some("C:\\Users\\me\\AppData\\Roaming"), '\\');
    assert_eq!(data, "C:\\Users\\me\\AppData\\Roaming\\gpui-convenience-tools");
    let path = config_path(&data, Some("C:\\Program Files\\Tools"), false, '\\');
    assert_eq!(path, format!("C:\\Program Files\\Tools\\{SETTINGS_FILE_NAME}"));
    // Without the executable's folder the data folder takes its place.
    assert_eq!(config_path(&data, None, false, '\\'), format!("{data}\\{SETTINGS_FILE_NAME}"));
    // An empty override does not count.
    assert_eq!(data_dir(Some(""), None, '/'), "./gpui-convenience-tools");
}

#[test]
fn the_older_settings_file_wins_only_when_newer() {
    assert!(use_fallback_config(false, true, false, None, None));
    assert!(use_fallback_config(false, true, true, Some(10), Some(20)));
    assert!(!use_fallback_config(false, true, true, Some(20), Some(10)));
    assert!(!use_fallback_config(false, true, true, Some(20), Some(20)));
    assert!(use_fallback_config(false, true, true, None, Some(1)));
    assert!(!use_fallback_config(false, true, true, Some(1), None));
    assert!(!use_fallback_config(false, false, false, None, None));
}

#[test]
fn data_folder_layout() {
    let data = "/home/me/.config/gpui-convenience-tools";
    assert_eq!(fallback_config_path(data, '/'), format!("{data}/config.json"));
    assert_eq!(themes_path(data, '/'), format!("{data}/themes"));
    let logs = logs_path(data, '/');
    assert_eq!(logs, format!("{data}/logs"));
    assert_eq!(current_log_file(&logs, '/'), format!("{data}/logs/app.log"));
    assert_eq!(join_path("C:\\", "a", '\\'), "C:\\a");
    assert_eq!(join_path("", "a", '\\'), "a");
    // A bare drive is joined as Windows does, without a separator.
    assert_eq!(join_path("C:", "a", '\\'), "C:a");
    assert_eq!(join_path("C:", "a", '/'), "C:/a");
    assert_eq!(join_path("x/", "a", '\\'), "x/a");
}
