//! The build tool's configuration: command line flags and the optional
//! `hartex.conf` file combined into one configuration, and the `check`
//! steps that run `cargo check` on the projects of the repository.

use vstd::prelude::*;
use crate::names::{name_set, views};
use crate::paths::{absolute_path, has_suffix, is_absolute, join_path, joined_path, plain_relative, starts_with_slash};

verus! {

/// A subcommand of the build tool.
pub enum BootstrapSubcommand {
    Build,
    Check,
}

/// The command line flags.
pub struct Flags {
    pub bypass_fs_lock: bool,
    pub json: bool,
    pub subcommand: BootstrapSubcommand,
    pub subcommand_args: Vec<String>,
}

/// The `[build]` section of `hartex.conf`.
pub struct IniBuild {
    pub output_dir: Option<String>,
}

/// The `[rust]` section of `hartex.conf`.
pub struct IniRust {
    pub codegen_units: u32,
    pub debug: bool,
    pub opt_level: u32,
    pub parallel_threads: u32,
    pub release: bool,
}

/// The contents of `hartex.conf`.
pub struct IniConfig {
    pub build: Option<IniBuild>,
    pub rust: Option<IniRust>,
}

/// Some general configuration options.
pub struct Config {
    /// Whether to bypass filesystem lock.
    pub bypass_fs_lock: bool,
    /// Path to a `hartex.conf` configuration file.
    pub config_path: Option<String>,
    /// Whether to output JSON for language servers to process.
    pub output_json: bool,
    /// The root path of the project.
    pub root: String,
    /// A subcommand.
    pub subcommand: BootstrapSubcommand,
    /// Arguments to be passed to subcommands.
    pub subcommand_args: Vec<String>,
    /// The output directory.
    pub output_dir: String,
    /// Instructs the compiler the number of code generation units.
    pub codegen_units: u32,
    /// Whether to include debug information.
    pub debug: bool,
    /// Optimization level.
    pub opt_level: u32,
    /// Number of parallel threads to use to speed up compilation.
    pub parallel_threads: u32,
    /// Whether to compile in release mode.
    pub release: bool,
}

/// The path of the configuration file under the project's root.
pub open spec fn config_file_text(root: Seq<char>) -> Seq<char> {
    joined_path(root, "hartex.conf"@)
}

/// The path of the configuration file under the project's root.
pub fn config_file_path(root: &str) -> (r: String)
    ensures
        r@ == config_file_text(root@),
{
    join_path(root, "hartex.conf")
}

/// The output directory that the configuration names, `build` by default.
pub open spec fn configured_output_dir(ini: Option<IniConfig>) -> Seq<char> {
    match ini {
        Some(i) => match i.build {
            Some(b) => match b.output_dir {
                Some(d) => d@,
                None => "build"@,
            },
            None => "build"@,
        },
        None => "build"@,
    }
}

/// The configuration's compiler settings: those of the `[rust]` section,
/// else the defaults (1 unit, debug information, level 3, 8 threads, no
/// release).
pub open spec fn rust_settings(ini: Option<IniConfig>) -> (u32, bool, u32, u32, bool) {
    match ini {
        Some(i) => match i.rust {
            Some(r) => (r.codegen_units, r.debug, r.opt_level, r.parallel_threads, r.release),
            None => (1, true, 3, 8, false),
        },
        None => (1, true, 3, 8, false),
    }
}

/// `c` is the configuration made of `flags`, the root and the
/// configuration file's contents, whatever its output directory.
pub open spec fn configured(c: Config, flags: Flags, root: Seq<char>, ini: Option<IniConfig>) -> bool {
    &&& c.bypass_fs_lock == flags.bypass_fs_lock
    &&& c.output_json == flags.json
    &&& c.subcommand == flags.subcommand
    &&& c.subcommand_args@ == flags.subcommand_args@
    &&& c.root@ == root
    &&& c.config_path matches Some(p) ==> ini is Some && p@ == config_file_text(root)
    &&& ini is Some ==> c.config_path is Some
    &&& (c.codegen_units, c.debug, c.opt_level, c.parallel_threads, c.release) == rust_settings(ini)
}

/// A `[rust]` section decides every compiler setting, whatever the
/// `[build]` section holds; without one the settings are the defaults
/// (1 unit, debug information, level 3, 8 threads, no release).
pub proof fn lemma_rust_section_decides(build: Option<IniBuild>, rust: IniRust)
    ensures
        rust_settings(Some(IniConfig { build, rust: Some(rust) }))
            == (rust.codegen_units, rust.debug, rust.opt_level, rust.parallel_threads, rust.release),
        rust_settings(Some(IniConfig { build, rust: None })) == (1u32, true, 3u32, 8u32, false),
        rust_settings(None) == (1u32, true, 3u32, 8u32, false),
{
}

/// The `[build]` section's output directory, when it names one, is the
/// output directory, whatever the `[rust]` section holds; else `build`.
pub proof fn lemma_build_section_decides(dir: Option<String>, rust: Option<IniRust>)
    ensures
        configured_output_dir(Some(IniConfig { build: Some(IniBuild { output_dir: dir }), rust }))
            == match dir { Some(d) => d@, None => "build"@ },
        configured_output_dir(Some(IniConfig { build: None, rust })) == "build"@,
{
}

impl Config {
    /// The default configuration for a repository rooted at `root`: build
    /// into `build`, one codegen unit, debug information, optimization level
    /// 3, 8 threads, no release mode.
    pub fn default_for_root(root: String) -> (r: Config)
        ensures
            r.bypass_fs_lock == false,
            r.config_path is None,
            r.output_json == false,
            r.root@ == root@,
            r.subcommand == BootstrapSubcommand::Build,
            r.subcommand_args@.len() == 0,
            r.output_dir@ == "build"@,
            (r.codegen_units, r.debug, r.opt_level, r.parallel_threads, r.release) == rust_settings(None),
    {
        Config {
            bypass_fs_lock: false,
            config_path: None,
            output_json: false,
            root,
            subcommand: BootstrapSubcommand::Build,
            subcommand_args: Vec::new(),
            output_dir: String::from_str("build"),
            codegen_units: 1,
            debug: true,
            opt_level: 3,
            parallel_threads: 8,
            release: false,
        }
    }

    /// The configuration made of the flags and, when the configuration file
    /// exists under `root`, its contents `ini`; the output directory is left
    /// as the configuration names it.
    pub fn from_flags(flags: Flags, root: String, ini: Option<IniConfig>) -> (r: Config)
        ensures
            configured(r, flags, root@, ini),
            r.output_dir@ == configured_output_dir(ini),
            ini is Some && ini->0.rust is Some ==> r.codegen_units == ini->0.rust->0.codegen_units
                && r.debug == ini->0.rust->0.debug && r.opt_level == ini->0.rust->0.opt_level
                && r.parallel_threads == ini->0.rust->0.parallel_threads && r.release == ini->0.rust->0.release,
            ini is Some && ini->0.build is Some && ini->0.build->0.output_dir is Some
                ==> r.output_dir@ == ini->0.build->0.output_dir->0@,
    {
        let ghost (f, i) = (flags, ini);
        let mut config = Config::default_for_root(root);
        config.bypass_fs_lock = flags.bypass_fs_lock;
        config.output_json = flags.json;
        config.subcommand = flags.subcommand;
        config.subcommand_args = flags.subcommand_args;
        let path = config_file_path(config.root.as_str());
        config.config_path = Some(path);
        match ini {
            Some(ini) => {
                match ini.build {
                    Some(build) => match build.output_dir {
                        Some(dir) => {
                            config.output_dir = dir;
                        }
                        None => {}
                    },
                    None => {}
                }
                match ini.rust {
                    Some(rust) => {
                        config.codegen_units = rust.codegen_units;
                        config.debug = rust.debug;
                        config.opt_level = rust.opt_level;
                        config.parallel_threads = rust.parallel_threads;
                        config.release = rust.release;
                    }
                    None => {}
                }
            }
            None => {
                config.config_path = None;
            }
        }
        config
    }

    /// Combines the command line flags with the configuration file's
    /// contents `ini` (given when the file at `config_file_path(root)`
    /// exists) and makes the output directory absolute. An output directory
    /// that is already absolute is kept as it is; a relative one is resolved
    /// against the current directory (a plain one then ends the result), and
    /// when that fails the error says so. The output directory is not empty:
    /// an empty one cannot be made absolute.
    pub fn parse_from_args_inner(flags: Flags, root: String, ini: Option<IniConfig>) -> (r: Result<Config, ConfigError>)
        requires
            configured_output_dir(ini).len() > 0,
        ensures
            is_absolute(configured_output_dir(ini)) ==> r is Ok,
            plain_relative(configured_output_dir(ini)) ==> (r matches Ok(c)
                ==> has_suffix(c.output_dir@, seq!['/'] + configured_output_dir(ini))),
            match r {
                Ok(c) => configured(c, flags, root@, ini) && is_absolute(c.output_dir@)
                    && (is_absolute(configured_output_dir(ini)) ==> c.output_dir@ == configured_output_dir(ini)),
                Err(e) => e == ConfigError::OutputDirUnresolved && !is_absolute(configured_output_dir(ini)),
            },
    {
        let mut config = Config::from_flags(flags, root, ini);
        if !starts_with_slash(config.output_dir.as_str()) {
            match absolute_path(config.output_dir.as_str()) {
                Some(dir) => {
                    config.output_dir = dir;
                }
                None => {
                    return Err(ConfigError::OutputDirUnresolved);
                }
            }
        }
        Ok(config)
    }
}

/// Why the configuration could not be made.
pub enum ConfigError {
    /// The output directory could not be made absolute.
    OutputDirUnresolved,
}

/// A `cargo check` run: the directory that it runs in and its arguments.
pub struct CargoCheck {
    pub project: String,
    pub directory: String,
    pub args: Vec<String>,
}

/// The arguments of `cargo check`: `check`, then `--message-format json`
/// when JSON output is asked for.
pub open spec fn check_args(output_json: bool) -> Seq<Seq<char>> {
    if output_json {
        seq!["check"@, "--message-format"@, "json"@]
    } else {
        seq!["check"@]
    }
}

/// `run` is the `cargo check` of `project` under the configuration's root.
pub open spec fn checks(run: CargoCheck, project: Seq<char>, config: Config) -> bool {
    &&& run.project@ == project
    &&& run.directory@ == joined_path(config.root@, project)
    &&& views(run.args@) == check_args(config.output_json)
}

/// The `cargo check` run of a project of the repository.
fn check_cargo_project(project: &str, config: &Config) -> (r: CargoCheck)
    ensures
        checks(r, project@, *config),
{
    let directory = join_path(config.root.as_str(), project);
    let mut args: Vec<String> = Vec::new();
    args.push(String::from_str("check"));
    if config.output_json {
        args.push(String::from_str("--message-format"));
        args.push(String::from_str("json"));
    }
    proof {
        reveal_strlit("check");
        reveal_strlit("--message-format");
        reveal_strlit("json");
        assert(views(args@) =~= check_args(config.output_json));
    }
    CargoCheck { project: String::from_str(project), directory, args }
}

/// The exit code that a failed `cargo check` ends the build tool with: the
/// command's own code, or 1 when it has none; none when the check passed.
pub fn check_exit_code(success: bool, code: Option<i32>) -> (r: Option<i32>)
    ensures
        success ==> r is None,
        !success ==> r == Some(match code {
            Some(c) => c,
            None => 1i32,
        }),
{
    if success {
        None
    } else {
        match code {
            Some(c) => Some(c),
            None => Some(1),
        }
    }
}

/// A step runs for the project `project` when the subcommand's arguments
/// name it, or name nothing.
pub open spec fn step_selected(config: Config, project: Seq<char>) -> bool {
    name_set(config.subcommand_args@).contains(project) || config.subcommand_args@.len() == 0
}

fn selected(config: &Config, project: &str) -> (r: bool)
    ensures
        r == step_selected(*config, project@),
{
    let name = String::from_str(project);
    crate::names::contains_name(&config.subcommand_args, &name) || config.subcommand_args.len() == 0
}

/// Step for checking the api-backend project.
pub struct CheckApi;

impl CheckApi {
    /// Whether the step runs.
    pub fn run_config(config: &Config) -> (r: bool)
        ensures
            r == step_selected(*config, "api-backend"@),
    {
        selected(config, "api-backend")
    }

    /// The `cargo check` run of the step.
    pub fn run(self, config: &Config) -> (r: CargoCheck)
        ensures
            checks(r, "api-backend"@, *config),
    {
        proof {
            reveal_strlit("api-backend");
        }
        check_cargo_project("api-backend", config)
    }
}

/// Step for checking the hartex-database-queries project.
pub struct CheckDatabase;

impl CheckDatabase {
    /// Whether the step runs.
    pub fn run_config(config: &Config) -> (r: bool)
        ensures
            r == step_selected(*config, "database"@),
    {
        selected(config, "database")
    }

    /// The `cargo check` run of the step.
    pub fn run(self, config: &Config) -> (r: CargoCheck)
        ensures
            checks(r, "database"@, *config),
    {
        proof {
            reveal_strlit("database");
        }
        check_cargo_project("database", config)
    }
}

/// Step for checking the discord-frontend project.
pub struct CheckDiscord;

impl CheckDiscord {
    /// Whether the step runs.
    pub fn run_config(config: &Config) -> (r: bool)
        ensures
            r == step_selected(*config, "discord-frontend"@),
    {
        selected(config, "discord-frontend")
    }

    /// The `cargo check` run of the step.
    pub fn run(self, config: &Config) -> (r: CargoCheck)
        ensures
            checks(r, "discord-frontend"@, *config),
    {
        proof {
            reveal_strlit("discord-frontend");
        }
        check_cargo_project("discord-frontend", config)
    }
}

/// Step for checking the localization project.
pub struct CheckLocalization;

impl CheckLocalization {
    /// Whether the step runs.
    pub fn run_config(config: &Config) -> (r: bool)
        ensures
            r == step_selected(*config, "localization"@),
    {
        selected(config, "localization")
    }

    /// The `cargo check` run of the step.
    pub fn run(self, config: &Config) -> (r: CargoCheck)
        ensures
            checks(r, "localization"@, *config),
    {
        proof {
            reveal_strlit("localization");
        }
        check_cargo_project("localization", config)
    }
}

/// Step for checking the rust-utilities project.
pub struct CheckUtilities;

impl CheckUtilities {
    /// Whether the step runs.
    pub fn run_config(config: &Config) -> (r: bool)
        ensures
            r == step_selected(*config, "rust-utilities"@),
    {
        selected(config, "rust-utilities")
    }

    /// The `cargo check` run of the step.
    pub fn run(self, config: &Config) -> (r: CargoCheck)
        ensures
            checks(r, "rust-utilities"@, *config),
    {
        proof {
            reveal_strlit("rust-utilities");
        }
        check_cargo_project("rust-utilities", config)
    }
}

} // verus!
