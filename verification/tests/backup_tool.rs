use tallytail::schema::{
    ensure_database_schema_version, missing_schema_version_message, SchemaVersionMismatch, ASSETS_DB_SCHEMA_VERSION,
};
use tallytail::fly_backup::{
    backend_request_url, backup_file_name, needs_start, select_machine, Config, ConfigErrorKind, FlyMachine,
    FlyMachineConfig, FlyMachineMount, SelectMachineError,
};

fn args(list: &[&str]) -> Vec<Option<String>> {
    list.iter().map(|a| Some(a.to_string())).collect()
}

fn machine(id: &str, state: &str, mounts: Option<Vec<&str>>) -> FlyMachine {
    FlyMachine {
        id: id.to_string(),
        state: state.to_string(),
        config: Some(FlyMachineConfig {
            mounts: mounts.map(|ms| ms.iter().map(|p| FlyMachineMount { path: p.to_string() }).collect()),
        }),
    }
}

#[test]
fn parses_backup_arguments_with_defaults() {
    let (config, help) = Config::parse(args(&[
        "--url", "https://tallytail.fly.dev", "--out-dir", "C:/Backups", "--unlock-pattern", "123456789",
    ]))
    .ok()
    .unwrap();
    assert!(!help);
    assert_eq!(config.backend_origin, "https://tallytail.fly.dev");
    assert_eq!(config.output_dir, "C:/Backups");
    assert_eq!(config.unlock_pattern, "123456789");
    assert_eq!(config.app, "tallytail");
    assert_eq!(config.remote_data_dir, "/app/data");
    assert_eq!(config.flyctl, "flyctl");
}

#[test]
fn help_wins_and_errors_name_the_argument() {
    let (_, help) = Config::parse(args(&["--app", "other", "-h", "--bogus"])).ok().unwrap();
    assert!(help);
    let err = Config::parse(args(&["--url"])).err().unwrap();
    assert_eq!(err.kind, ConfigErrorKind::MissingValue);
    assert_eq!(err.message(), "missing value for --url");
    let err = Config::parse(args(&["--bogus"])).err().unwrap();
    assert_eq!(err.message(), "unknown option: --bogus");
    let err = Config::parse(args(&["backup"])).err().unwrap();
    assert_eq!(err.message(), "unexpected positional argument: backup");
    let err = Config::parse(args(&["--url", "u", "--unlock-pattern", "p"])).err().unwrap();
    assert_eq!(err.message(), "missing --out-dir argument");
    let err = Config::parse(vec![None]).err().unwrap();
    assert_eq!(err.kind, ConfigErrorKind::ArgumentNotUtf8);
    let err = Config::parse(vec![Some("--app".to_string()), None]).err().unwrap();
    assert_eq!(err.message(), "--app value must be valid UTF-8");
}

#[test]
fn selects_a_machine_with_the_data_mount_preferring_started_ones() {
    let machines = vec![
        machine("a", "started", None),
        machine("b", "stopped", Some(vec!["/app/data/"])),
        machine("c", "started", Some(vec!["/other", "/app/data"])),
    ];
    assert_eq!(select_machine(&machines, "/app/data/"), Ok(2));
    assert_eq!(select_machine(&machines[..2].to_vec_for_test(), "/app/data"), Ok(1));
    assert_eq!(select_machine(&machines, "/data"), Err(SelectMachineError::NoMount));
    assert_eq!(select_machine(&Vec::new(), "/app/data"), Err(SelectMachineError::NoMachines));
    assert!(needs_start(&machines[1]));
    assert!(!needs_start(&machines[2]));
}

trait ToVecForTest {
    fn to_vec_for_test(&self) -> Vec<FlyMachine>;
}

impl ToVecForTest for [FlyMachine] {
    fn to_vec_for_test(&self) -> Vec<FlyMachine> {
        self.iter()
            .map(|m| FlyMachine {
                id: m.id.clone(),
                state: m.state.clone(),
                config: m.config.as_ref().map(|c| FlyMachineConfig {
                    mounts: c.mounts.as_ref().map(|ms| ms.iter().map(|p| FlyMachineMount { path: p.path.clone() }).collect()),
                }),
            })
            .collect()
    }
}

#[test]
fn names_backup_urls_and_files() {
    assert_eq!(backend_request_url("https://tallytail.fly.dev//", "unlock"), "https://tallytail.fly.dev/unlock");
    assert_eq!(backend_request_url("http://localhost:3000", "create_data_backup"), "http://localhost:3000/create_data_backup");
    assert_eq!(backup_file_name("tallytail", 2026, 7, 7, 21, 30, 0), "tallytail-data-20260707-213000.tar.gz");
    assert_eq!(backup_file_name("app", 999, 12, 31, 9, 5, 59), "app-data-09991231-090559.tar.gz");
    assert_eq!(backup_file_name("app", 12026, 1, 2, 3, 4, 5), "app-data-+120260102-030405.tar.gz");
}

#[test]
fn refuses_a_database_of_another_schema_version() {
    assert!(ensure_database_schema_version(ASSETS_DB_SCHEMA_VERSION, ASSETS_DB_SCHEMA_VERSION).is_ok());
    let err = ensure_database_schema_version(2, 1).err().unwrap();
    assert_eq!(err, SchemaVersionMismatch { stored_version: 2, current_version: 1 });
    assert_eq!(err.message("assets database"), "assets database schema version 2 does not match supported version 1");
    assert_eq!(missing_schema_version_message("assets database"), "assets database is missing schema version");
}
