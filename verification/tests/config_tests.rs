use mouse_capture::commands::{Cli, Commands};
use mouse_capture::config::{
    default_base_directory, default_device_path, default_dir_permissions,
    default_file_permissions, default_max_file_size_mb, Config, StorageConfig,
};

#[test]
fn storage_defaults() {
    let c = StorageConfig::default();
    assert_eq!(c.base_directory, "data");
    assert_eq!(c.directory_permissions, 0o700);
    assert_eq!(c.file_permissions, 0o600);
    assert_eq!(c.max_file_size_mb, 2);
    assert!(!c.store_4_bytes);
    assert_eq!(c.device_path, "/dev/input/mice");
}

#[test]
fn config_default_nests_storage_defaults() {
    let c = Config::default();
    assert_eq!(c.storage.base_directory, "data");
    assert_eq!(c.storage.max_file_size_mb, 2);
}

#[test]
fn default_helpers_match_defaults() {
    assert_eq!(default_base_directory(), "data");
    assert_eq!(default_dir_permissions(), 0o700);
    assert_eq!(default_file_permissions(), 0o600);
    assert_eq!(default_max_file_size_mb(), 2);
    assert_eq!(default_device_path(), "/dev/input/mice");
}

#[test]
fn commands_carry_dump_arguments() {
    let cli = Cli {
        command: Commands::Dump { date: Some("2024-01-15".to_string()), output: None },
    };
    match cli.command {
        Commands::Dump { date, output } => {
            assert_eq!(date.as_deref(), Some("2024-01-15"));
            assert!(output.is_none());
        },
        _ => panic!("expected a dump command"),
    }
}
