use hartex::bootstrap::{check_exit_code, config_file_path, BootstrapSubcommand, CheckApi, CheckDatabase, CheckDiscord,
    CheckLocalization, CheckUtilities, Config, Flags, IniBuild, IniConfig, IniRust};
use hartex::paths::starts_with_slash;

fn flags(args: &[&str], json: bool) -> Flags {
    Flags {
        bypass_fs_lock: true,
        json,
        subcommand: BootstrapSubcommand::Check,
        subcommand_args: args.iter().map(|a| String::from(*a)).collect(),
    }
}

#[test]
fn config_file_lives_under_root() {
    assert_eq!(config_file_path("/repo"), "/repo/hartex.conf");
    assert_eq!(config_file_path("/repo/"), "/repo/hartex.conf");
    assert_eq!(config_file_path(""), "hartex.conf");
}

#[test]
fn defaults() {
    let c = Config::default_for_root(String::from("/repo"));
    assert!(!c.bypass_fs_lock && !c.output_json && !c.release && c.debug);
    assert!(c.config_path.is_none());
    assert!(matches!(c.subcommand, BootstrapSubcommand::Build));
    assert_eq!(c.output_dir, "build");
    assert_eq!((c.codegen_units, c.opt_level, c.parallel_threads), (1, 3, 8));
}

#[test]
fn flags_without_configuration_file() {
    let c = Config::from_flags(flags(&["api-backend"], true), String::from("/repo"), None);
    assert!(c.bypass_fs_lock && c.output_json);
    assert!(matches!(c.subcommand, BootstrapSubcommand::Check));
    assert_eq!(c.subcommand_args, vec![String::from("api-backend")]);
    assert!(c.config_path.is_none());
    assert_eq!(c.output_dir, "build");
    assert_eq!((c.codegen_units, c.debug, c.opt_level, c.parallel_threads, c.release), (1, true, 3, 8, false));
}

#[test]
fn configuration_file_settings_apply() {
    let ini = IniConfig {
        build: Some(IniBuild { output_dir: Some(String::from("/tmp/out")) }),
        rust: Some(IniRust { codegen_units: 16, debug: false, opt_level: 2, parallel_threads: 4, release: true }),
    };
    let c = Config::parse_from_args_inner(flags(&[], false), String::from("/repo"), Some(ini)).ok().unwrap();
    assert_eq!(c.config_path.as_deref(), Some("/repo/hartex.conf"));
    assert_eq!(c.output_dir, "/tmp/out");
    assert_eq!((c.codegen_units, c.debug, c.opt_level, c.parallel_threads, c.release), (16, false, 2, 4, true));
}

#[test]
fn empty_sections_keep_defaults() {
    let ini = IniConfig { build: Some(IniBuild { output_dir: None }), rust: None };
    let c = Config::from_flags(flags(&[], false), String::from("/repo"), Some(ini));
    assert_eq!(c.config_path.as_deref(), Some("/repo/hartex.conf"));
    assert_eq!(c.output_dir, "build");
    assert_eq!(c.codegen_units, 1);
}

#[test]
fn relative_output_dir_becomes_absolute() {
    let c = Config::parse_from_args_inner(flags(&[], false), String::from("/repo"), None).ok().unwrap();
    assert!(starts_with_slash(&c.output_dir));
    assert!(c.output_dir.ends_with("build"));
    assert_eq!(c.output_dir, std::path::absolute("build").unwrap().to_str().unwrap());
    assert!(c.output_dir.ends_with("/build"));
}

#[test]
fn steps_run_when_named_or_nothing_named() {
    let none = Config::from_flags(flags(&[], false), String::from("/repo"), None);
    assert!(CheckApi::run_config(&none) && CheckDatabase::run_config(&none) && CheckDiscord::run_config(&none)
        && CheckLocalization::run_config(&none) && CheckUtilities::run_config(&none));
    let some = Config::from_flags(flags(&["localization", "database"], false), String::from("/repo"), None);
    assert!(!CheckApi::run_config(&some));
    assert!(CheckDatabase::run_config(&some));
    assert!(!CheckDiscord::run_config(&some));
    assert!(CheckLocalization::run_config(&some));
    assert!(!CheckUtilities::run_config(&some));
}

#[test]
fn cargo_check_runs() {
    let plain = Config::from_flags(flags(&[], false), String::from("/repo"), None);
    let run = CheckDiscord.run(&plain);
    assert_eq!(run.project, "discord-frontend");
    assert_eq!(run.directory, "/repo/discord-frontend");
    assert_eq!(run.args, vec![String::from("check")]);
    let json = Config::from_flags(flags(&[], true), String::from("/repo"), None);
    let run = CheckUtilities.run(&json);
    assert_eq!(run.directory, "/repo/rust-utilities");
    assert_eq!(run.args, vec![String::from("check"), String::from("--message-format"), String::from("json")]);
    assert_eq!(CheckApi.run(&plain).directory, "/repo/api-backend");
    assert_eq!(CheckDatabase.run(&plain).directory, "/repo/database");
    assert_eq!(CheckLocalization.run(&plain).directory, "/repo/localization");
}

#[test]
fn exit_codes() {
    assert_eq!(check_exit_code(true, Some(0)), None);
    assert_eq!(check_exit_code(false, Some(101)), Some(101));
    assert_eq!(check_exit_code(false, None), Some(1));
}
