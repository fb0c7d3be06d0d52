//! The command line: global options and the commands with their arguments.
use vstd::prelude::*;
use crate::repl::{resolve_path, spec_resolve_path};

verus! {

/// Global options and the command to run (none: start the shell).
#[derive(Clone, Debug, PartialEq, Eq)]
pub struct Cli {
    pub connect: String,
    pub json: bool,
    pub command: Option<Commands>,
}

/// A command and its arguments.
#[derive(Clone, Debug, PartialEq, Eq)]
pub enum Commands {
    Ls { path: String, recursive: bool, detailed: bool },
    Get { path: String },
    SetData { path: String, data: String, version: Option<i32> },
    Create { path: String, data: Option<String>, ephemeral: bool, sequential: bool, recursive: bool },
    Delete { path: String, recursive: bool },
    Stat { path: String },
    Exists { path: String, verbose: bool },
    Tree { path: String, depth: Option<usize> },
    Find { path: String, pattern: String, node_type: Option<String> },
    Watch { path: String },
    Cp { src: String, dst: String, recursive: bool },
    Mv { src: String, dst: String, dry_run: bool },
    GetAcl { path: String },
    SetAcl { path: String, acl: String },
    Dump { path: String },
    Load { path: String, file: String, overwrite: bool },
    Health { cmd: HealthCommand },
    Diff { path: String, host1: String, host2: String },
    AddAuth { scheme: String, credential: String },
    Completions { shell: String },
}

/// A four-letter-word command and the server it goes to.
#[derive(Clone, Debug, PartialEq, Eq)]
pub enum HealthCommand {
    Ruok { host: String },
    Stat { host: String },
    Srvr { host: String },
    Mntr { host: String },
}

impl HealthCommand {
    /// The four-letter word sent.
    pub open spec fn spec_word(&self) -> Seq<char> {
        match self {
            HealthCommand::Ruok { .. } => "ruok"@,
            HealthCommand::Stat { .. } => "stat"@,
            HealthCommand::Srvr { .. } => "srvr"@,
            HealthCommand::Mntr { .. } => "mntr"@,
        }
    }

    /// The server it goes to.
    pub open spec fn spec_host(&self) -> Seq<char> {
        match self {
            HealthCommand::Ruok { host } => host@,
            HealthCommand::Stat { host } => host@,
            HealthCommand::Srvr { host } => host@,
            HealthCommand::Mntr { host } => host@,
        }
    }

    /// An equal command.
    pub fn duplicate(&self) -> (r: HealthCommand)
        ensures
            r == *self,
    {
        match self {
            HealthCommand::Ruok { host } => HealthCommand::Ruok { host: host.clone() },
            HealthCommand::Stat { host } => HealthCommand::Stat { host: host.clone() },
            HealthCommand::Srvr { host } => HealthCommand::Srvr { host: host.clone() },
            HealthCommand::Mntr { host } => HealthCommand::Mntr { host: host.clone() },
        }
    }

    /// The four-letter word and the server.
    pub fn word_and_host(&self) -> (r: (String, String))
        ensures
            r.0@ == self.spec_word(),
            r.1@ == self.spec_host(),
    {
        match self {
            HealthCommand::Ruok { host } => ("ruok".to_owned(), host.clone()),
            HealthCommand::Stat { host } => ("stat".to_owned(), host.clone()),
            HealthCommand::Srvr { host } => ("srvr".to_owned(), host.clone()),
            HealthCommand::Mntr { host } => ("mntr".to_owned(), host.clone()),
        }
    }
}


/// The paths of `r` are those of `cmd` resolved against `cwd`, and every
/// other argument is the same.
pub open spec fn resolves(cmd: Commands, r: Commands, cwd: Seq<char>) -> bool {
    match (cmd, r) {
        (Commands::Ls { path, recursive, detailed }, Commands::Ls { path: p, recursive: a, detailed: b }) =>
            p@ == spec_resolve_path(cwd, path@) && a == recursive && b == detailed,
        (Commands::Get { path }, Commands::Get { path: p }) => p@ == spec_resolve_path(cwd, path@),
        (Commands::SetData { path, data, version }, Commands::SetData { path: p, data: d, version: v }) =>
            p@ == spec_resolve_path(cwd, path@) && d == data && v == version,
        (
            Commands::Create { path, data, ephemeral, sequential, recursive },
            Commands::Create { path: p, data: d, ephemeral: e, sequential: s, recursive: rc },
        ) => p@ == spec_resolve_path(cwd, path@) && d == data && e == ephemeral && s == sequential
            && rc == recursive,
        (Commands::Delete { path, recursive }, Commands::Delete { path: p, recursive: rc }) =>
            p@ == spec_resolve_path(cwd, path@) && rc == recursive,
        (Commands::Stat { path }, Commands::Stat { path: p }) => p@ == spec_resolve_path(cwd, path@),
        (Commands::Exists { path, verbose }, Commands::Exists { path: p, verbose: v }) =>
            p@ == spec_resolve_path(cwd, path@) && v == verbose,
        (Commands::Tree { path, depth }, Commands::Tree { path: p, depth: d }) =>
            p@ == spec_resolve_path(cwd, path@) && d == depth,
        (
            Commands::Find { path, pattern, node_type },
            Commands::Find { path: p, pattern: q, node_type: t },
        ) => p@ == spec_resolve_path(cwd, path@) && q == pattern && t == node_type,
        (Commands::Watch { path }, Commands::Watch { path: p }) => p@ == spec_resolve_path(cwd, path@),
        (Commands::Cp { src, dst, recursive }, Commands::Cp { src: s, dst: d, recursive: rc }) =>
            s@ == spec_resolve_path(cwd, src@) && d@ == spec_resolve_path(cwd, dst@) && rc
                == recursive,
        (Commands::Mv { src, dst, dry_run }, Commands::Mv { src: s, dst: d, dry_run: dr }) =>
            s@ == spec_resolve_path(cwd, src@) && d@ == spec_resolve_path(cwd, dst@) && dr
                == dry_run,
        (Commands::GetAcl { path }, Commands::GetAcl { path: p }) => p@ == spec_resolve_path(cwd, path@),
        (Commands::SetAcl { path, acl }, Commands::SetAcl { path: p, acl: a }) =>
            p@ == spec_resolve_path(cwd, path@) && a == acl,
        (Commands::Dump { path }, Commands::Dump { path: p }) => p@ == spec_resolve_path(cwd, path@),
        (Commands::Load { path, file, overwrite }, Commands::Load { path: p, file: f, overwrite: o }) =>
            p@ == spec_resolve_path(cwd, path@) && f == file && o == overwrite,
        (Commands::Health { cmd }, Commands::Health { cmd: c }) => c == cmd,
        (Commands::Diff { path, host1, host2 }, Commands::Diff { path: p, host1: a, host2: b }) =>
            p@ == spec_resolve_path(cwd, path@) && a == host1 && b == host2,
        (Commands::AddAuth { scheme, credential }, Commands::AddAuth { scheme: s, credential: c }) =>
            s == scheme && c == credential,
        (Commands::Completions { shell }, Commands::Completions { shell: s }) => s == shell,
        _ => false,
    }
}

impl Commands {
    /// The command with its node paths resolved against the working
    /// directory, as the shell runs it.
    pub fn resolve_paths(&self, cwd: &str) -> (r: Commands)
        ensures
            resolves(*self, r, cwd@),
    {
        match self {
            Commands::Ls { path, recursive, detailed } => Commands::Ls {
                path: resolve_path(cwd, path.as_str()),
                recursive: *recursive,
                detailed: *detailed,
            },
            Commands::Get { path } => Commands::Get { path: resolve_path(cwd, path.as_str()) },
            Commands::SetData { path, data, version } => Commands::SetData {
                path: resolve_path(cwd, path.as_str()),
                data: data.clone(),
                version: *version,
            },
            Commands::Create { path, data, ephemeral, sequential, recursive } => Commands::Create {
                path: resolve_path(cwd, path.as_str()),
                data: match data {
                    Some(d) => Some(d.clone()),
                    None => None,
                },
                ephemeral: *ephemeral,
                sequential: *sequential,
                recursive: *recursive,
            },
            Commands::Delete { path, recursive } => Commands::Delete {
                path: resolve_path(cwd, path.as_str()),
                recursive: *recursive,
            },
            Commands::Stat { path } => Commands::Stat { path: resolve_path(cwd, path.as_str()) },
            Commands::Exists { path, verbose } => Commands::Exists {
                path: resolve_path(cwd, path.as_str()),
                verbose: *verbose,
            },
            Commands::Tree { path, depth } => Commands::Tree {
                path: resolve_path(cwd, path.as_str()),
                depth: *depth,
            },
            Commands::Find { path, pattern, node_type } => Commands::Find {
                path: resolve_path(cwd, path.as_str()),
                pattern: pattern.clone(),
                node_type: match node_type {
                    Some(t) => Some(t.clone()),
                    None => None,
                },
            },
            Commands::Watch { path } => Commands::Watch { path: resolve_path(cwd, path.as_str()) },
            Commands::Cp { src, dst, recursive } => Commands::Cp {
                src: resolve_path(cwd, src.as_str()),
                dst: resolve_path(cwd, dst.as_str()),
                recursive: *recursive,
            },
            Commands::Mv { src, dst, dry_run } => Commands::Mv {
                src: resolve_path(cwd, src.as_str()),
                dst: resolve_path(cwd, dst.as_str()),
                dry_run: *dry_run,
            },
            Commands::GetAcl { path } => Commands::GetAcl { path: resolve_path(cwd, path.as_str()) },
            Commands::SetAcl { path, acl } => Commands::SetAcl {
                path: resolve_path(cwd, path.as_str()),
                acl: acl.clone(),
            },
            Commands::Dump { path } => Commands::Dump { path: resolve_path(cwd, path.as_str()) },
            Commands::Load { path, file, overwrite } => Commands::Load {
                path: resolve_path(cwd, path.as_str()),
                file: file.clone(),
                overwrite: *overwrite,
            },
            Commands::Health { cmd } => Commands::Health { cmd: cmd.duplicate() },
            Commands::Diff { path, host1, host2 } => Commands::Diff {
                path: resolve_path(cwd, path.as_str()),
                host1: host1.clone(),
                host2: host2.clone(),
            },
            Commands::AddAuth { scheme, credential } => Commands::AddAuth {
                scheme: scheme.clone(),
                credential: credential.clone(),
            },
            Commands::Completions { shell } => Commands::Completions { shell: shell.clone() },
        }
    }
}

} // verus!
