//! What the configuration depends on outside itself: the operating system, the
//! directories of the user, and which files of the bundled runtime exist.
use crate::servers::{blank_server, McpServerConfig, ServerModel};
use vstd::prelude::*;

verus! {

/// The operating system family, as far as the configuration tells them apart.
#[derive(Debug, Clone, Copy, PartialEq, Eq, Structural)]
pub enum Os {
    Linux,
    Windows,
    Other,
}

/// A path, and whether what was looked for was found at it.
#[derive(Debug)]
pub struct Probe {
    pub path: String,
    pub exists: bool,
}

/// The files of the bundled runtime from which qwen-core can be started.
#[derive(Debug)]
pub struct RuntimeFiles {
    /// The prebuilt entry point of qwen-core.
    pub dist: Probe,
    /// The command line of tsx, which runs TypeScript sources.
    pub tsx: Probe,
    /// The TypeScript entry point of qwen-core.
    pub src: Probe,
}

/// One of the files of [`RuntimeFiles`].
#[derive(Debug, Clone, Copy, PartialEq, Eq, Structural)]
pub enum RuntimeFile {
    Dist,
    Tsx,
    Src,
}

/// The host that servers are configured for.
#[derive(Debug)]
pub struct Host {
    pub os: Os,
    /// The home directory of the user.
    pub home: String,
    /// The directory for temporary files.
    pub temp_dir: String,
    /// The files of the bundled runtime, where a runtime directory was found.
    pub runtime: Option<RuntimeFiles>,
}

/// `dirs::home_dir`, as text: the home directory of the user. Nothing is claimed
/// of the result, which the environment decides.
#[verifier::external_body]
fn home_dir() -> (r: Option<String>) {
    match dirs::home_dir() {
        Some(path) => Some(path.to_string_lossy().to_string()),
        None => None,
    }
}

/// The home directory that was found, and `/tmp` where none was.
pub open spec fn home_or_tmp(found: Option<Seq<char>>) -> Seq<char> {
    match found {
        Some(path) => path,
        None => "/tmp"@,
    }
}

/// The home directory that was found, and `/tmp` where none was.
pub fn home_or_default(found: Option<String>) -> (r: String)
    ensures
        r@ == home_or_tmp(found.deep_view()),
{
    match found {
        Some(path) => path,
        None => "/tmp".to_owned(),
    }
}

/// The directory for scratch files: `/tmp`, except on Windows, which has no such
/// path and uses its own directory for temporary files.
pub open spec fn scratch_of(os: Os, temp_dir: Seq<char>) -> Seq<char> {
    if os == Os::Windows {
        temp_dir
    } else {
        "/tmp"@
    }
}

/// The directory of projects below a home directory.
pub open spec fn projects_below(home: Seq<char>) -> Seq<char> {
    home + "/Projects"@
}

impl Host {
    /// The directory of projects below the home directory.
    pub open spec fn projects(&self) -> Seq<char> {
        projects_below(self.home@)
    }

    /// The directory for scratch files.
    pub open spec fn scratch(&self) -> Seq<char> {
        scratch_of(self.os, self.temp_dir@)
    }

    /// This host, with the home directory that the user has at the moment of the
    /// call, or `/tmp` without one. Which directory that is, the environment alone
    /// decides; everything built on a host is exact in its `home`.
    pub fn detect(os: Os, temp_dir: String, runtime: Option<RuntimeFiles>) -> (r: Host)
        ensures
            r.os == os,
            r.temp_dir == temp_dir,
            r.runtime == runtime,
    {
        let home = home_or_default(home_dir());
        Host { os, home, temp_dir, runtime }
    }

    /// The directory of projects below the home directory.
    pub fn projects_dir(&self) -> (r: String)
        ensures
            r@ == self.projects(),
    {
        self.home.clone().concat("/Projects")
    }

    /// The directory for scratch files.
    pub fn scratch_dir(&self) -> (r: String)
        ensures
            r@ == self.scratch(),
    {
        match self.os {
            Os::Windows => self.temp_dir.clone(),
            _ => "/tmp".to_owned(),
        }
    }
}

/// The script of the MCP bridge: the bundled one where it exists, and the one of
/// the development tree otherwise, so that a failure to start it names a real
/// location.
pub fn resolve_bridge_path(bundled: Option<Probe>, dev: String) -> (r: String)
    ensures
        r@ == (match bundled {
            Some(probe) => if probe.exists {
                probe.path@
            } else {
                dev@
            },
            None => dev@,
        }),
{
    match bundled {
        Some(probe) => if probe.exists {
            probe.path
        } else {
            dev
        },
        None => dev,
    }
}

/// The directory of the bundled runtime: the one beside the executable where it
/// holds packages, otherwise the development tree where that does. There is none
/// where the executable cannot be located, whatever the development tree holds.
pub fn mcp_runtime_dir(bundled: Option<Probe>, dev: Probe) -> (r: Option<String>)
    ensures
        r.deep_view() == (match bundled {
            None => None,
            Some(probe) => if probe.exists {
                Some(probe.path@)
            } else if dev.exists {
                Some(dev.path@)
            } else {
                None
            },
        }),
{
    match bundled {
        None => None,
        Some(probe) => if probe.exists {
            Some(probe.path)
        } else if dev.exists {
            Some(dev.path)
        } else {
            None
        },
    }
}

/// Where a runtime file stands below the runtime directory, part by part.
pub open spec fn runtime_file_parts(file: RuntimeFile) -> Seq<Seq<char>> {
    match file {
        RuntimeFile::Dist => seq!["node_modules"@, "qwen-core"@, "dist"@, "index.mjs"@],
        RuntimeFile::Tsx => seq!["node_modules"@, "tsx"@, "dist"@, "cli.mjs"@],
        RuntimeFile::Src => seq!["node_modules"@, "qwen-core"@, "src"@, "index.ts"@],
    }
}

/// The owned texts of four parts.
fn four(a: &str, b: &str, c: &str, d: &str) -> (r: Vec<String>)
    ensures
        r.deep_view() == seq![a@, b@, c@, d@],
{
    let mut r: Vec<String> = Vec::new();
    r.push(a.to_owned());
    r.push(b.to_owned());
    r.push(c.to_owned());
    r.push(d.to_owned());
    assert(r.deep_view() =~= seq![a@, b@, c@, d@]);
    r
}

impl RuntimeFile {
    /// Where the file stands below the runtime directory, part by part.
    pub fn parts(&self) -> (r: Vec<String>)
        ensures
            r.deep_view() == runtime_file_parts(*self),
    {
        match *self {
            RuntimeFile::Dist => four("node_modules", "qwen-core", "dist", "index.mjs"),
            RuntimeFile::Tsx => four("node_modules", "tsx", "dist", "cli.mjs"),
            RuntimeFile::Src => four("node_modules", "qwen-core", "src", "index.ts"),
        }
    }
}

/// The arguments with which `node` can start qwen-core from the runtime files:
/// its prebuilt entry point, or else its TypeScript sources through tsx where
/// both are there, or else none.
pub open spec fn runtime_args(runtime: Option<RuntimeFiles>) -> Seq<Seq<char>> {
    match runtime {
        Some(files) => if files.dist.exists {
            seq![files.dist.path@]
        } else if files.tsx.exists && files.src.exists {
            seq![files.tsx.path@, files.src.path@]
        } else {
            Seq::empty()
        },
        None => Seq::empty(),
    }
}

/// The server entry of qwen-core with a given command line.
pub open spec fn qwen_core_with(command: Seq<char>, args: Seq<Seq<char>>) -> ServerModel {
    ServerModel {
        command,
        args,
        transport_type: Some("stdio"@),
        source: Some("official"@),
        from_: Some("builtin"@),
        ..blank_server()
    }
}

/// The server entry of qwen-core: the portable launcher `npx -y qwen-core`, and
/// on Windows `node` on the runtime files where they allow it.
pub open spec fn qwen_core_server(os: Os, runtime: Option<RuntimeFiles>) -> ServerModel {
    if os == Os::Windows && runtime_args(runtime).len() > 0 {
        qwen_core_with("node"@, runtime_args(runtime))
    } else {
        qwen_core_with("npx"@, seq!["-y"@, "qwen-core"@])
    }
}

/// The arguments with which `node` can start qwen-core from the runtime files.
fn node_args(runtime: &Option<RuntimeFiles>) -> (r: Vec<String>)
    ensures
        r.deep_view() == runtime_args(*runtime),
{
    let mut args: Vec<String> = Vec::new();
    match runtime {
        Some(files) => {
            if files.dist.exists {
                args.push(files.dist.path.clone());
            } else if files.tsx.exists && files.src.exists {
                args.push(files.tsx.path.clone());
                args.push(files.src.path.clone());
            }
        },
        None => {},
    }
    assert(args.deep_view() =~= runtime_args(*runtime));
    args
}

/// The server entry of qwen-core.
///
/// The launcher `npx -y qwen-core` starts a second `npx` without a shell. Windows
/// has no `npx.exe`, so there the entry point is run by `node` directly. Without
/// usable runtime files the portable launcher stays, and the error on connecting
/// explains itself.
pub fn qwen_core_config(os: Os, runtime: &Option<RuntimeFiles>) -> (r: McpServerConfig)
    ensures
        r@ == qwen_core_server(os, *runtime),
{
    let direct = match os {
        Os::Windows => node_args(runtime),
        _ => Vec::new(),
    };
    let mut config = McpServerConfig::default();
    config.transport_type = Some("stdio".to_owned());
    config.source = Some("official".to_owned());
    config.from_ = Some("builtin".to_owned());
    if direct.len() > 0 {
        assert(direct.deep_view().len() > 0);
        config.command = "node".to_owned();
        config.args = direct;
    } else {
        let mut args: Vec<String> = Vec::new();
        args.push("-y".to_owned());
        args.push("qwen-core".to_owned());
        assert(args.deep_view() =~= seq!["-y"@, "qwen-core"@]);
        assert(direct.deep_view().len() == 0);
        config.command = "npx".to_owned();
        config.args = args;
    }
    config
}

/// A home directory that was found is the home directory, whatever it is.
pub proof fn the_home_that_was_found_is_home(path: Seq<char>)
    ensures
        home_or_tmp(Some(path)) == path,
        home_or_tmp(None) == "/tmp"@,
{
}

/// The directories of a host: its projects are below its home, whatever that is, and its
/// scratch files are in `/tmp`, or on Windows in its own directory for temporary files.
pub proof fn directories_follow_from_the_host(host: Host)
    ensures
        host.projects() == host.home@ + "/Projects"@,
        host.os == Os::Windows ==> host.scratch() == host.temp_dir@,
        host.os != Os::Windows ==> host.scratch() == "/tmp"@,
{
}

/// Where the files of the runtime stand: the prebuilt entry point and the sources in the
/// package of qwen-core, the command line of tsx in its own, all below `node_modules`.
pub proof fn runtime_files_stand_in_their_packages(file: RuntimeFile)
    ensures
        runtime_file_parts(file).len() == 4,
        runtime_file_parts(file)[0] == "node_modules"@,
        runtime_file_parts(file)[1] == (if file == RuntimeFile::Tsx {
            "tsx"@
        } else {
            "qwen-core"@
        }),
        runtime_file_parts(file)[2] == (if file == RuntimeFile::Src {
            "src"@
        } else {
            "dist"@
        }),
        file == RuntimeFile::Dist ==> runtime_file_parts(file)[3] == "index.mjs"@,
        file == RuntimeFile::Tsx ==> runtime_file_parts(file)[3] == "cli.mjs"@,
        file == RuntimeFile::Src ==> runtime_file_parts(file)[3] == "index.ts"@,
{
}

/// How qwen-core is started. Anywhere but on Windows by `npx -y qwen-core`. On Windows by
/// `node` on its prebuilt entry point where that exists, or else on its sources through
/// tsx where both exist, and only without either by `npx`. Everything else about the
/// entry is the same everywhere: an official, built-in server over standard input and
/// output that is not disabled.
pub proof fn qwen_core_is_started_by_what_is_there(os: Os, runtime: Option<RuntimeFiles>)
    ensures
        ({
            let server = qwen_core_server(os, runtime);
            let dist = os == Os::Windows && runtime is Some && (runtime->0).dist.exists;
            let tsx = os == Os::Windows && runtime is Some && !(runtime->0).dist.exists && (
            runtime->0).tsx.exists && (runtime->0).src.exists;
            &&& dist ==> server.command == "node"@ && server.args.len() == 1 && server.args[0] == (
            runtime->0).dist.path@
            &&& tsx ==> server.command == "node"@ && server.args.len() == 2 && server.args[0] == (
            runtime->0).tsx.path@ && server.args[1] == (runtime->0).src.path@
            &&& !dist && !tsx ==> server.command == "npx"@ && server.args.len() == 2
                && server.args[0] == "-y"@ && server.args[1] == "qwen-core"@
            &&& server.transport_type == Some("stdio"@)
            &&& server.source == Some("official"@)
            &&& server.from_ == Some("builtin"@)
            &&& server.env is None && server.cwd is None && server.url is None
            &&& server.timeout is None && server.identifier is None && server.from_id is None
            &&& !server.disabled
        }),
{
}

} // verus!
