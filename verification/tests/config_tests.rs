use resource_gateway::config::{Config, RunnerConfig};

fn pair(name: &str, root: &str) -> (String, String) {
    (name.to_string(), root.to_string())
}

fn catalog() -> Config {
    Config::new(
        vec![
            pair("datafiles", "/data/files"),
            pair("backup", "/data/backup"),
            pair("packages", "/data/packages"),
        ],
        vec!["datafiles".to_string(), "packages".to_string()],
        Some("/data/packages".to_string()),
    )
}

#[test]
fn filetype_path_finds_the_root() {
    let config = catalog();
    assert_eq!(config.filetype_path("backup"), Some(&"/data/backup".to_string()));
    assert_eq!(config.filetype_path("datafiles"), Some(&"/data/files".to_string()));
}

#[test]
fn filetype_path_of_unknown_category_is_none() {
    let config = catalog();
    assert_eq!(config.filetype_path("nothing"), None);
    assert_eq!(config.filetype_path(""), None);
    assert_eq!(config.filetype_path("Backup"), None);
}

#[test]
fn later_pair_of_the_same_name_wins() {
    let config = Config::new(
        vec![pair("datafiles", "/first"), pair("backup", "/b"), pair("datafiles", "/second")],
        vec![],
        None,
    );
    assert_eq!(config.filetype_path("datafiles"), Some(&"/second".to_string()));
    assert_eq!(config.filetypelist(), vec!["datafiles".to_string(), "backup".to_string()]);
}

#[test]
fn filetypelist_names_each_category_once() {
    let config = catalog();
    assert_eq!(
        config.filetypelist(),
        vec!["datafiles".to_string(), "backup".to_string(), "packages".to_string()]
    );
    assert_eq!(Config::new(vec![], vec![], None).filetypelist(), Vec::<String>::new());
}

#[test]
fn deleteable_filetype_path_needs_the_flag() {
    let config = catalog();
    assert_eq!(config.deleteable_filetype_path("datafiles"), Some(&"/data/files".to_string()));
    assert_eq!(config.deleteable_filetype_path("backup"), None);
    assert_eq!(config.deleteable_filetype_path("nothing"), None);
    assert!(config.is_deleteable("packages"));
    assert!(!config.is_deleteable("backup"));
}

#[test]
fn deleteable_name_without_a_root_has_no_path() {
    let config = Config::new(vec![pair("backup", "/b")], vec!["ghost".to_string()], None);
    assert!(config.is_deleteable("ghost"));
    assert_eq!(config.deleteable_filetype_path("ghost"), None);
}

#[test]
fn new_keeps_what_it_is_given() {
    let config = catalog();
    assert_eq!(config.filetype_paths.len(), 3);
    assert_eq!(config.deleteable_filetypes, vec!["datafiles".to_string(), "packages".to_string()]);
    assert_eq!(config._package_dir, Some("/data/packages".to_string()));
}

#[test]
fn default_runner_config_names_no_directory() {
    let runner = RunnerConfig::default();
    assert_eq!(runner.backup_dir, None);
    assert_eq!(runner.datafile_dir, None);
    assert_eq!(runner.compile_cache_dir, None);
    assert_eq!(runner.package_dir, None);
    assert_eq!(runner.source_cache_dir, None);
    let config = Config::from_runner(runner);
    assert_eq!(config.filetypelist(), Vec::<String>::new());
    assert_eq!(config.deleteable_filetypes, Vec::<String>::new());
    assert_eq!(config._package_dir, None);
}

#[test]
fn from_runner_gives_the_five_categories() {
    let runner = RunnerConfig {
        backup_dir: Some("/b".to_string()),
        datafile_dir: Some("/d".to_string()),
        compile_cache_dir: Some("/c".to_string()),
        package_dir: Some("/p".to_string()),
        source_cache_dir: Some("/s".to_string()),
    };
    let config = Config::from_runner(runner);
    assert_eq!(
        config.filetype_paths,
        vec![
            pair("datafiles", "/d"),
            pair("backup", "/b"),
            pair("compile_cache", "/c"),
            pair("source_cache", "/s"),
            pair("packages", "/p"),
        ]
    );
    assert_eq!(config.deleteable_filetypes, vec!["datafiles".to_string(), "packages".to_string()]);
    assert_eq!(config._package_dir, Some("/p".to_string()));
    assert_eq!(config.deleteable_filetype_path("packages"), Some(&"/p".to_string()));
    assert_eq!(config.deleteable_filetype_path("source_cache"), None);
}

#[test]
fn from_runner_leaves_out_what_is_not_configured() {
    let runner = RunnerConfig {
        backup_dir: Some("/b".to_string()),
        datafile_dir: None,
        compile_cache_dir: None,
        package_dir: None,
        source_cache_dir: None,
    };
    let config = Config::from_runner(runner);
    assert_eq!(config.filetype_paths, vec![pair("backup", "/b")]);
    assert_eq!(config.deleteable_filetypes, Vec::<String>::new());
    assert_eq!(config.filetype_path("datafiles"), None);
}
