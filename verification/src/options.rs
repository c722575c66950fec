//! What the user asks for: command line and configuration file.

use vstd::prelude::*;

use crate::text;

verus! {

broadcast use crate::text::group_views;

/// How the report is written.
#[derive(Debug, Clone, Copy, PartialEq, Eq, Structural)]
pub enum Format {
    Text,
    Sarif,
}

/// The least severity that makes a check fail.
#[derive(Debug, Clone, Copy, PartialEq, Eq, Structural)]
pub enum FailOn {
    Error,
    Warning,
    Never,
}

/// The options of the command line.
#[derive(Debug)]
pub struct Args {
    /// Whether the check is asked for by its name, as the commit hook does.
    pub check: bool,
    pub paths: Vec<String>,
    pub svd: Option<String>,
    pub format: Option<Format>,
    pub fail_on: Option<FailOn>,
    pub output: Option<String>,
    pub notes: bool,
    pub scan_headers: bool,
    pub no_color: bool,
}

/// The configuration file. The command line overrides all of it.
#[derive(Debug)]
pub struct Config {
    pub paths: Option<Vec<String>>,
    pub svd: Option<String>,
    pub format: Option<Format>,
    pub fail_on: Option<FailOn>,
    pub output: Option<String>,
    pub notes: Option<bool>,
    pub scan_headers: Option<bool>,
}

/// What a check is run with.
#[derive(Debug)]
pub struct Settings {
    pub paths: Vec<String>,
    pub format: Format,
    pub fail_on: FailOn,
    pub output: Option<String>,
    pub notes: bool,
    pub scan_headers: bool,
}

pub struct SettingsView {
    pub paths: Seq<Seq<char>>,
    pub format: Format,
    pub fail_on: FailOn,
    pub output: Option<Seq<char>>,
    pub notes: bool,
    pub scan_headers: bool,
}

pub struct ArgsView {
    pub check: bool,
    pub paths: Seq<Seq<char>>,
    pub svd: Option<Seq<char>>,
    pub format: Option<Format>,
    pub fail_on: Option<FailOn>,
    pub output: Option<Seq<char>>,
    pub notes: bool,
    pub scan_headers: bool,
    pub no_color: bool,
}

pub struct ConfigView {
    pub paths: Option<Seq<Seq<char>>>,
    pub svd: Option<Seq<char>>,
    pub format: Option<Format>,
    pub fail_on: Option<FailOn>,
    pub output: Option<Seq<char>>,
    pub notes: Option<bool>,
    pub scan_headers: Option<bool>,
}

impl View for Args {
    type V = ArgsView;

    open spec fn view(&self) -> ArgsView {
        ArgsView {
            check: self.check,
            paths: text::views(self.paths@),
            svd: text::option_view(self.svd),
            format: self.format,
            fail_on: self.fail_on,
            output: text::option_view(self.output),
            notes: self.notes,
            scan_headers: self.scan_headers,
            no_color: self.no_color,
        }
    }
}

impl View for Config {
    type V = ConfigView;

    open spec fn view(&self) -> ConfigView {
        ConfigView {
            paths: match self.paths {
                Some(paths) => Some(text::views(paths@)),
                None => None,
            },
            svd: text::option_view(self.svd),
            format: self.format,
            fail_on: self.fail_on,
            output: text::option_view(self.output),
            notes: self.notes,
            scan_headers: self.scan_headers,
        }
    }
}

impl View for Settings {
    type V = SettingsView;

    open spec fn view(&self) -> SettingsView {
        SettingsView {
            paths: text::views(self.paths@),
            format: self.format,
            fail_on: self.fail_on,
            output: text::option_view(self.output),
            notes: self.notes,
            scan_headers: self.scan_headers,
        }
    }
}

/// Why there is nothing to check.
#[derive(Debug, Clone, Copy, PartialEq, Eq, Structural)]
pub enum OptionsError {
    /// Neither the command line nor the configuration names a path.
    NoPaths,
    /// The paths hold no source file.
    NoFiles,
}

impl OptionsError {
    pub open spec fn text(self) -> Seq<char> {
        match self {
            OptionsError::NoPaths =>
                "no paths given — pass paths on the command line or set `paths` in .silicon.toml"@,
            OptionsError::NoFiles => "no .c/.h files found in the given paths"@,
        }
    }

    pub fn message(&self) -> (r: &'static str)
        ensures
            r@ == self.text(),
    {
        match self {
            OptionsError::NoPaths =>
                "no paths given — pass paths on the command line or set `paths` in .silicon.toml",
            OptionsError::NoFiles => "no .c/.h files found in the given paths",
        }
    }
}

// ── Which option counts ──────────────────────────────────────────────────────

/// The first of two options that is given.
pub open spec fn first_given<A>(cli: Option<A>, config: Option<A>) -> Option<A> {
    match cli {
        Some(_) => cli,
        None => config,
    }
}

/// The first of two options that is given, or else a default.
pub open spec fn given_or<A>(cli: Option<A>, config: Option<A>, default: A) -> A {
    match first_given(cli, config) {
        Some(a) => a,
        None => default,
    }
}

/// The paths to check: those of the command line, or else those of the configuration,
/// or else, if the check is asked for by its name, the current directory.
pub open spec fn chosen_paths(args: ArgsView, config: ConfigView) -> Seq<Seq<char>> {
    if args.paths.len() > 0 {
        args.paths
    } else {
        match config.paths {
            Some(paths) if paths.len() > 0 => paths,
            _ => if args.check {
                seq!["."@]
            } else {
                Seq::empty()
            },
        }
    }
}

/// What a check is run with: what the command line says, where it is silent what the
/// configuration says, and where that is silent too the default.
pub open spec fn settings(args: ArgsView, config: ConfigView) -> SettingsView {
    SettingsView {
        paths: chosen_paths(args, config),
        format: given_or(args.format, config.format, Format::Text),
        fail_on: given_or(args.fail_on, config.fail_on, FailOn::Error),
        output: first_given(args.output, config.output),
        notes: args.notes || config.notes == Some(true),
        scan_headers: args.scan_headers || config.scan_headers == Some(true),
    }
}

fn clone_paths(paths: &[String]) -> (r: Vec<String>)
    ensures
        text::views(r@) == text::views(paths@),
{
    let ghost all = text::views(paths@);
    let mut out: Vec<String> = Vec::new();
    let mut i: usize = 0;
    while i < paths.len()
        invariant
            i <= paths@.len(),
            all == text::views(paths@),
            text::views(out@) =~= all.take(i as int),
        decreases paths.len() - i,
    {
        out.push(paths[i].clone());
        i += 1;
    }
    assert(all.take(all.len() as int) =~= all);
    out
}

fn first_text(cli: &Option<String>, config: &Option<String>) -> (r: Option<String>)
    ensures
        text::option_view(r) == first_given(text::option_view(*cli), text::option_view(*config)),
{
    match cli {
        Some(s) => Some(s.clone()),
        None => match config {
            Some(s) => Some(s.clone()),
            None => None,
        },
    }
}

/// The SVD file to check against; `None` stands for the one that comes with the tool.
pub fn svd_path(args: &Args, config: &Config) -> (r: Option<String>)
    ensures
        text::option_view(r) == first_given(args@.svd, config@.svd),
{
    first_text(&args.svd, &config.svd)
}

/// Whether the output is coloured: not where the command line forbids it or names an
/// output file, nor where there is no terminal. An output file of the configuration does
/// not count here.
pub fn use_color(args: &Args, terminal: bool) -> (r: bool)
    ensures
        r == (!args@.no_color && args@.output is None && terminal),
{
    !args.no_color && args.output.is_none() && terminal
}

/// What to run a check with.
pub fn resolve(args: &Args, config: &Config) -> (r: Result<Settings, OptionsError>)
    ensures
        match r {
            Ok(s) => s@ == settings(args@, config@) && s@.paths.len() > 0,
            Err(e) => e == OptionsError::NoPaths && settings(args@, config@).paths.len() == 0,
        },
{
    let mut paths = if args.paths.len() > 0 {
        clone_paths(&args.paths)
    } else {
        match &config.paths {
            Some(paths) => clone_paths(paths),
            None => Vec::new(),
        }
    };
    assert(text::views(paths@).len() == paths@.len());
    if paths.len() == 0 && args.check {
        paths.push(".".to_owned());
    }
    assert(text::views(paths@) =~= chosen_paths(args@, config@));
    if paths.len() == 0 {
        return Err(OptionsError::NoPaths);
    }
    let format = match args.format {
        Some(f) => f,
        None => match config.format {
            Some(f) => f,
            None => Format::Text,
        },
    };
    let fail_on = match args.fail_on {
        Some(f) => f,
        None => match config.fail_on {
            Some(f) => f,
            None => FailOn::Error,
        },
    };
    let notes = args.notes || matches!(config.notes, Some(true));
    let scan_headers = args.scan_headers || matches!(config.scan_headers, Some(true));
    Ok(
        Settings {
            paths,
            format,
            fail_on,
            output: first_text(&args.output, &config.output),
            notes,
            scan_headers,
        },
    )
}

/// Whether a file with that extension is checked: C files are, and headers if asked for.
pub fn is_source_file(extension: Option<&str>, scan_headers: bool) -> (r: bool)
    ensures
        r == match extension {
            Some(e) => e@ == "c"@ || (scan_headers && e@ == "h"@),
            None => false,
        },
{
    match extension {
        Some(e) => text::same_text(e, "c") || (scan_headers && text::same_text(e, "h")),
        None => false,
    }
}

/// Whether there are files to check at all.
pub fn require_files(count: usize) -> (r: Result<(), OptionsError>)
    ensures
        r is Ok <==> count > 0,
        r matches Err(e) ==> e == OptionsError::NoFiles,
{
    if count > 0 {
        Ok(())
    } else {
        Err(OptionsError::NoFiles)
    }
}

// ── What holds of every choice ───────────────────────────────────────────────

/// The command line overrides the configuration: what it gives counts, whatever the
/// configuration says.
pub proof fn command_line_overrides(args: ArgsView, a: ConfigView, b: ConfigView)
    ensures
        args.paths.len() > 0 ==> settings(args, a).paths == settings(args, b).paths && settings(args, a).paths
            == args.paths,
        args.format is Some ==> settings(args, a).format == settings(args, b).format && settings(args, a).format
            == args.format->0,
        args.fail_on is Some ==> settings(args, a).fail_on == settings(args, b).fail_on && settings(args, a).fail_on
            == args.fail_on->0,
        args.output is Some ==> settings(args, a).output == settings(args, b).output && settings(args, a).output
            == args.output,
        args.notes ==> settings(args, a).notes && settings(args, b).notes,
        args.scan_headers ==> settings(args, a).scan_headers && settings(args, b).scan_headers,
        args.svd is Some ==> first_given(args.svd, a.svd) == args.svd,
{
}

} // verus!
