use std::path::PathBuf;

use espanso_settings::{ConfigPathSource, SettingsLaunchOptions, SettingsPaths};

#[test]
fn launch_options_are_constructible_without_opening_a_window() {
    let options = SettingsLaunchOptions {
        paths: SettingsPaths {
            config: PathBuf::from("/config"),
            packages: PathBuf::from("/packages"),
            runtime: PathBuf::from("/runtime"),
        },
        location_store_path: PathBuf::from("/bootstrap/settings-location.json"),
        config_override_source: ConfigPathSource::PlatformDefault,
    };

    assert_eq!(options.paths.config, PathBuf::from("/config"));
    assert!(options.config_override_source.allows_persistent_change());
}

#[test]
fn only_overrides_pin_the_location() {
    assert!(!ConfigPathSource::Cli.allows_persistent_change());
    assert!(!ConfigPathSource::Environment.allows_persistent_change());
    assert!(ConfigPathSource::Persisted.allows_persistent_change());
    assert_eq!(ConfigPathSource::Cli.display_name(), "命令行覆盖");
    assert_eq!(ConfigPathSource::Environment.display_name(), "环境变量覆盖");
    assert_eq!(ConfigPathSource::Persisted.display_name(), "自定义目录");
    assert_eq!(ConfigPathSource::PlatformDefault.display_name(), "系统默认");
}

#[test]
fn running_without_a_window_toolkit_reports_it() {
    let options = SettingsLaunchOptions {
        paths: SettingsPaths {
            config: PathBuf::from("/config"),
            packages: PathBuf::from("/packages"),
            runtime: PathBuf::from("/runtime"),
        },
        location_store_path: PathBuf::from("/bootstrap/settings-location.json"),
        config_override_source: ConfigPathSource::Cli,
    };
    assert_eq!(
        espanso_settings::run(options),
        Err("espanso-settings was built without the ui feature".to_string())
    );
}

#[test]
fn the_subcommand_defaults_to_the_platform_location_and_exits_with_one_on_failure() {
    let paths = SettingsPaths {
        config: PathBuf::from("/config"),
        packages: PathBuf::from("/packages"),
        runtime: PathBuf::from("/runtime"),
    };
    let options = espanso_settings::launch_options(
        paths,
        PathBuf::from("/bootstrap/settings-location.json"),
        None,
    );
    assert_eq!(options.config_override_source, ConfigPathSource::PlatformDefault);
    assert_eq!(options.paths.runtime, PathBuf::from("/runtime"));
    let pinned = espanso_settings::launch_options(
        options.paths,
        options.location_store_path,
        Some(ConfigPathSource::Environment),
    );
    assert_eq!(pinned.config_override_source, ConfigPathSource::Environment);
    assert_eq!(espanso_settings::settings_exit_code(&Ok(())), 0);
    assert_eq!(espanso_settings::settings_exit_code(&Err("no window".to_string())), 1);
}
