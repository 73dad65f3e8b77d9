//! The MCP configuration: the default servers, the adjustment of a configuration
//! to the host it runs on, and the update from the settings panel.
use crate::host::{
    projects_below, qwen_core_config, qwen_core_is_started_by_what_is_there, qwen_core_server, Host,
    Os,
};
use crate::json::{exact, members, parsed};
use crate::servers::{blank_server, McpServerConfig, ServerConfigs, ServerModel};
use crate::settings::{
    document_in, has_place_for_servers, is_settings_text, servers_depth, servers_in,
    servers_section,
};
use crate::text::{has_prefix, prefixes_are_put_before, same_text, starts_with};
use serde_json::Value;
use vstd::prelude::*;

verus! {

/// The server entry of the file system server with given arguments.
pub open spec fn filesystem_server(home: Seq<char>, projects: Seq<char>) -> ServerModel {
    ServerModel {
        command: "npx"@,
        args: seq![
            "-y"@,
            "@modelcontextprotocol/server-filesystem"@,
            home,
            "/tmp"@,
            projects,
        ],
        transport_type: Some("stdio"@),
        ..blank_server()
    }
}

/// The server entry of the sequential thinking server.
pub open spec fn sequential_thinking_server() -> ServerModel {
    ServerModel {
        command: "npx"@,
        args: seq!["-y"@, "@modelcontextprotocol/server-sequential-thinking"@],
        transport_type: Some("stdio"@),
        ..blank_server()
    }
}

/// The servers of a host that has no configuration of its own.
pub open spec fn default_servers(host: Host) -> Map<Seq<char>, ServerModel> {
    map![
        "qwen-core"@ => qwen_core_server(host.os, host.runtime),
        "Filesystem"@ => filesystem_server(host.home@, host.projects()),
        "Sequential-Thinking"@ => sequential_thinking_server(),
    ]
}

/// The servers of a host that has no configuration of its own.
pub fn get_default_config(host: &Host) -> (r: ServerConfigs)
    ensures
        r@ == default_servers(*host),
{
    let mut config = ServerConfigs::new();
    config.insert("qwen-core".to_owned(), qwen_core_config(host.os, &host.runtime));

    let mut filesystem = McpServerConfig::default();
    let mut args: Vec<String> = Vec::new();
    args.push("-y".to_owned());
    args.push("@modelcontextprotocol/server-filesystem".to_owned());
    args.push(host.home.clone());
    args.push("/tmp".to_owned());
    args.push(host.projects_dir());
    assert(args.deep_view() =~= filesystem_server(host.home@, host.projects()).args);
    filesystem.command = "npx".to_owned();
    filesystem.args = args;
    filesystem.transport_type = Some("stdio".to_owned());
    config.insert("Filesystem".to_owned(), filesystem);

    let mut thinking = McpServerConfig::default();
    let mut args: Vec<String> = Vec::new();
    args.push("-y".to_owned());
    args.push("@modelcontextprotocol/server-sequential-thinking".to_owned());
    assert(args.deep_view() =~= sequential_thinking_server().args);
    thinking.command = "npx".to_owned();
    thinking.args = args;
    thinking.transport_type = Some("stdio".to_owned());
    config.insert("Sequential-Thinking".to_owned(), thinking);
    assert(config@ =~= default_servers(*host));
    config
}

/// The package of the file system server without a version tag. A tag makes
/// `npx` ask the registry on every start; the bare name uses its local cache.
pub open spec fn untagged(arg: Seq<char>) -> Seq<char> {
    if has_prefix(arg, "@modelcontextprotocol/server-filesystem@"@) {
        "@modelcontextprotocol/server-filesystem"@
    } else {
        arg
    }
}

/// `arg` is the macOS directory of homes, or a path below it.
pub open spec fn is_macos_home(arg: Seq<char>) -> bool {
    arg == "/Users"@ || has_prefix(arg, "/Users/"@)
}

/// A path of another system, replaced by the one that serves for it here.
pub open spec fn localized(arg: Seq<char>, home: Seq<char>, scratch: Seq<char>) -> Seq<char> {
    if is_macos_home(arg) {
        home
    } else if arg == "/tmp"@ {
        scratch
    } else {
        arg
    }
}

/// What becomes of one argument of the file system server.
pub open spec fn rewritten(arg: Seq<char>, home: Seq<char>, scratch: Seq<char>) -> Seq<char> {
    localized(untagged(arg), home, scratch)
}

/// The arguments, with `arg` appended where it is missing.
pub open spec fn with_arg(args: Seq<Seq<char>>, arg: Seq<char>) -> Seq<Seq<char>> {
    if args.contains(arg) {
        args
    } else {
        args.push(arg)
    }
}

/// The arguments of the file system server on a host: each one rewritten, and the
/// directories of home, projects and scratch files appended where they are missing.
pub open spec fn normalized_args(
    args: Seq<Seq<char>>,
    home: Seq<char>,
    projects: Seq<char>,
    scratch: Seq<char>,
) -> Seq<Seq<char>> {
    let own = args.map_values(|arg: Seq<char>| rewritten(arg, home, scratch));
    with_arg(with_arg(with_arg(own, home), projects), scratch)
}

/// The host is one whose file system paths differ from those that the shipped
/// configuration is written with.
pub open spec fn rewrites_paths(os: Os) -> bool {
    os == Os::Linux || os == Os::Windows
}

/// What becomes of the server under a name.
pub open spec fn normalized_server(name: Seq<char>, server: ServerModel, host: Host) -> ServerModel {
    if name == "qwen-core"@ && host.os == Os::Windows {
        qwen_core_server(host.os, host.runtime)
    } else if name == "Filesystem"@ && rewrites_paths(host.os) {
        ServerModel {
            args: normalized_args(server.args, host.home@, host.projects(), host.scratch()),
            ..server
        }
    } else {
        server
    }
}

/// A configuration as it is used on a host: the same servers, those that depend
/// on the host adjusted to it.
pub open spec fn normalized(config: Map<Seq<char>, ServerModel>, host: Host) -> Map<
    Seq<char>,
    ServerModel,
> {
    config.map_entries(|name: Seq<char>, server: ServerModel| normalized_server(name, server, host))
}

/// Whether `arg` is among the arguments.
fn has_arg(args: &Vec<String>, arg: &str) -> (r: bool)
    ensures
        r == args.deep_view().contains(arg@),
{
    let mut i: usize = 0;
    while i < args.len()
        invariant
            i <= args@.len(),
            forall|k: int| 0 <= k < i ==> (#[trigger] args@[k])@ != arg@,
        decreases args@.len() - i,
    {
        if same_text(args[i].as_str(), arg) {
            assert(args.deep_view()[i as int] == arg@);
            return true;
        }
        i = i + 1;
    }
    assert forall|k: int| 0 <= k < args.deep_view().len() implies args.deep_view()[k] != arg@ by {
        assert(args@[k]@ != arg@);
    }
    false
}

/// Appends `arg` where it is missing.
fn ensure_arg(args: &mut Vec<String>, arg: String)
    ensures
        final(args).deep_view() == with_arg(old(args).deep_view(), arg@),
{
    if !has_arg(args, arg.as_str()) {
        args.push(arg);
        assert(args.deep_view() =~= old(args).deep_view().push(arg@));
    }
}

/// What becomes of one argument of the file system server.
fn rewrite_arg(arg: &String, home: &String, scratch: &String) -> (r: String)
    ensures
        r@ == rewritten(arg@, home@, scratch@),
{
    let bare = if starts_with(arg.as_str(), "@modelcontextprotocol/server-filesystem@") {
        "@modelcontextprotocol/server-filesystem".to_owned()
    } else {
        arg.clone()
    };
    if same_text(bare.as_str(), "/Users") || starts_with(bare.as_str(), "/Users/") {
        home.clone()
    } else if same_text(bare.as_str(), "/tmp") {
        scratch.clone()
    } else {
        bare
    }
}

/// The arguments of the file system server on a host.
pub fn normalize_args(args: &Vec<String>, host: &Host) -> (r: Vec<String>)
    ensures
        r.deep_view() == normalized_args(
            args.deep_view(),
            host.home@,
            host.projects(),
            host.scratch(),
        ),
{
    let scratch = host.scratch_dir();
    let ghost rule = |arg: Seq<char>| rewritten(arg, host.home@, host.scratch());
    let mut own: Vec<String> = Vec::new();
    let mut i: usize = 0;
    while i < args.len()
        invariant
            i <= args@.len(),
            scratch@ == host.scratch(),
            rule == (|arg: Seq<char>| rewritten(arg, host.home@, host.scratch())),
            own.deep_view() == args.deep_view().take(i as int).map_values(rule),
        decreases args@.len() - i,
    {
        let ghost before = own.deep_view();
        own.push(rewrite_arg(&args[i], &host.home, &scratch));
        assert(own.deep_view() =~= before.push(rule(args.deep_view()[i as int])));
        i = i + 1;
        assert(own.deep_view() =~= args.deep_view().take(i as int).map_values(rule));
    }
    assert(args.deep_view().take(args@.len() as int) =~= args.deep_view());
    ensure_arg(&mut own, host.home.clone());
    ensure_arg(&mut own, host.projects_dir());
    ensure_arg(&mut own, scratch);
    own
}

/// Adjusts a configuration to the host it is used on.
///
/// On Windows the entry of qwen-core is the one that starts there, also where an
/// older configuration still holds another. On Linux and Windows the file system
/// server gets paths of this host: the shipped ones are of macOS, and with a path
/// that does not exist the server refuses to start.
pub fn normalize_config(config: ServerConfigs, host: &Host) -> (r: ServerConfigs)
    ensures
        r@ == normalized(config@, *host),
{
    proof {
        reveal_strlit("qwen-core");
        reveal_strlit("Filesystem");
        assert("qwen-core"@.len() != "Filesystem"@.len());
    }
    let ghost before = config@;
    let mut config = config;
    let windows = match host.os {
        Os::Windows => true,
        _ => false,
    };
    let rewrites = match host.os {
        Os::Other => false,
        _ => true,
    };
    if windows && config.contains_key("qwen-core") {
        config.insert("qwen-core".to_owned(), qwen_core_config(host.os, &host.runtime));
    }
    if rewrites {
        match config.remove("Filesystem") {
            Some(mut server) => {
                let args = normalize_args(&server.args, host);
                server.args = args;
                config.insert("Filesystem".to_owned(), server);
            },
            None => {},
        }
    }
    assert(config@ =~= normalized(before, *host));
    config
}

/// The configuration to use, from what the settings file holds: the servers of
/// the file adjusted to the host, the default servers where the file has none,
/// and the error where its servers cannot be read.
pub fn load_mcp_config(section: Option<Result<ServerConfigs, String>>, host: &Host) -> (r: Result<
    ServerConfigs,
    String,
>)
    ensures
        match section {
            None => r matches Ok(config) && config@ == default_servers(*host),
            Some(Ok(stored)) => r matches Ok(config) && config@ == normalized(stored@, *host),
            Some(Err(e)) => r == Err::<ServerConfigs, String>(e),
        },
{
    match section {
        None => Ok(get_default_config(host)),
        Some(Ok(config)) => Ok(normalize_config(config, host)),
        Some(Err(e)) => Err(e),
    }
}

/// The configuration was loaded from the text of the settings file, with `decode` to turn
/// the servers that the file holds into a configuration: the default servers where the
/// file holds none, and otherwise what `decode` gives, adjusted to the host.
pub open spec fn is_loaded<F: FnOnce(Value) -> Result<ServerConfigs, String>>(
    loaded: Result<ServerConfigs, String>,
    content: Option<Seq<char>>,
    decode: F,
    host: Host,
) -> bool {
    match servers_in(document_in(content)) {
        None => loaded matches Ok(config) && config@ == default_servers(host),
        Some(servers) => exists|decoded: Result<ServerConfigs, String>| #[trigger]
            decode.ensures((servers,), decoded) && match decoded {
                Ok(stored) => loaded matches Ok(config) && config@ == normalized(stored@, host),
                Err(e) => loaded == Err::<ServerConfigs, String>(e),
            },
    }
}

/// The configuration to use, from the text of the settings file. `decode` turns the
/// servers that the file holds into a configuration, or says why it cannot.
pub fn load_settings<F: FnOnce(Value) -> Result<ServerConfigs, String>>(
    content: Option<&str>,
    decode: F,
    host: &Host,
) -> (r: Result<ServerConfigs, String>)
    requires
        servers_in(document_in(content.deep_view())) matches Some(servers) ==> decode.requires(
            (servers,),
        ),
    ensures
        is_loaded(r, content.deep_view(), decode, *host),
{
    match servers_section(content) {
        None => load_mcp_config(None, host),
        Some(servers) => {
            let decoded = decode(servers);
            assert(decode.ensures((servers,), decoded));
            load_mcp_config(Some(decoded), host)
        },
    }
}

/// The servers of the settings file, and none where they could not be read.
pub open spec fn servers_or_none(file: Result<ServerConfigs, String>) -> Map<
    Seq<char>,
    ServerModel,
> {
    match file {
        Ok(config) => config@,
        Err(_) => Map::empty(),
    }
}

/// The servers, with qwen-core added where it is missing.
pub open spec fn with_qwen_core(servers: Map<Seq<char>, ServerModel>, host: Host) -> Map<
    Seq<char>,
    ServerModel,
> {
    if servers.contains_key("qwen-core"@) {
        servers
    } else {
        servers.insert("qwen-core"@, qwen_core_server(host.os, host.runtime))
    }
}

/// The configuration after an update: the incoming servers, those of the settings
/// file under names that the update does not mention, and qwen-core in any case,
/// all adjusted to the host.
pub open spec fn updated(
    incoming: Map<Seq<char>, ServerModel>,
    file: Map<Seq<char>, ServerModel>,
    host: Host,
) -> Map<Seq<char>, ServerModel> {
    normalized(with_qwen_core(file.union_prefer_right(incoming), host), host)
}

/// The configuration that an update leads to, from the servers that the settings
/// panel sends and the ones that the settings file holds. A file that cannot be
/// read counts as empty.
pub fn mcp_client_update_config(
    incoming: ServerConfigs,
    file: Result<ServerConfigs, String>,
    host: &Host,
) -> (r: ServerConfigs)
    ensures
        r@ == updated(incoming@, servers_or_none(file), *host),
{
    let mut merged = incoming;
    match file {
        Ok(config) => merged.fill_from(config),
        Err(_) => {
            assert(Map::<Seq<char>, ServerModel>::empty().union_prefer_right(merged@) =~= merged@);
        },
    }
    if !merged.contains_key("qwen-core") {
        merged.insert("qwen-core".to_owned(), qwen_core_config(host.os, &host.runtime));
    }
    normalize_config(merged, host)
}

/// The host's own directories are ones that the rewriting leaves alone.
pub open spec fn keeps_own_paths(host: Host) -> bool {
    &&& rewritten(host.home@, host.home@, host.scratch()) == host.home@
    &&& rewritten(host.projects(), host.home@, host.scratch()) == host.projects()
    &&& rewritten(host.scratch(), host.home@, host.scratch()) == host.scratch()
}

/// The bare package name is left alone by the rewriting.
proof fn lemma_package_is_kept(home: Seq<char>, scratch: Seq<char>)
    ensures
        rewritten("@modelcontextprotocol/server-filesystem"@, home, scratch)
            == "@modelcontextprotocol/server-filesystem"@,
{
    reveal_strlit("@modelcontextprotocol/server-filesystem");
    reveal_strlit("@modelcontextprotocol/server-filesystem@");
    reveal_strlit("/Users");
    reveal_strlit("/Users/");
    reveal_strlit("/tmp");
    let package = "@modelcontextprotocol/server-filesystem"@;
    assert(package[0] == '@');
    assert("/Users"@[0] == '/');
    assert("/tmp"@[0] == '/');
    if has_prefix(package, "/Users/"@) {
        assert(package.take("/Users/"@.len() as int)[0] == package[0]);
    }
}

/// Rewriting an argument that was rewritten changes it no more, where the host's
/// own directories are left alone.
proof fn lemma_rewriting_settles(arg: Seq<char>, home: Seq<char>, scratch: Seq<char>)
    requires
        rewritten(home, home, scratch) == home,
        rewritten(scratch, home, scratch) == scratch,
    ensures
        rewritten(rewritten(arg, home, scratch), home, scratch) == rewritten(arg, home, scratch),
{
    lemma_package_is_kept(home, scratch);
}

/// The three directories are among the normalised arguments, behind the rewritten
/// arguments in their order; nothing else is.
proof fn lemma_normalized_args_hold(
    args: Seq<Seq<char>>,
    home: Seq<char>,
    projects: Seq<char>,
    scratch: Seq<char>,
)
    ensures
        normalized_args(args, home, projects, scratch).contains(home),
        normalized_args(args, home, projects, scratch).contains(projects),
        normalized_args(args, home, projects, scratch).contains(scratch),
        normalized_args(args, home, projects, scratch).len() >= args.len(),
        forall|i: int|
            0 <= i < args.len() ==> #[trigger] normalized_args(args, home, projects, scratch)[i]
                == rewritten(args[i], home, scratch),
        forall|i: int|
            args.len() <= i < normalized_args(args, home, projects, scratch).len() ==> {
                let arg = #[trigger] normalized_args(args, home, projects, scratch)[i];
                arg == home || arg == projects || arg == scratch
            },
{
    let own = args.map_values(|arg: Seq<char>| rewritten(arg, home, scratch));
    let a = with_arg(own, home);
    let b = with_arg(a, projects);
    let c = with_arg(b, scratch);
    assert(a.contains(home)) by {
        if !own.contains(home) {
            assert(a.last() == home);
        }
    }
    let i = choose|i: int| 0 <= i < a.len() && a[i] == home;
    assert(b[i] == home && c[i] == home);
    assert(b.contains(projects)) by {
        if !a.contains(projects) {
            assert(b.last() == projects);
        }
    }
    let j = choose|j: int| 0 <= j < b.len() && b[j] == projects;
    assert(c[j] == projects);
    assert(c.contains(scratch)) by {
        if !b.contains(scratch) {
            assert(c.last() == scratch);
        }
    }
}

/// Normalising the arguments a second time changes nothing, exactly where the
/// rewriting leaves the host's own directories alone.
proof fn lemma_normalized_args_settle(args: Seq<Seq<char>>, host: Host)
    ensures
        ({
            let once = normalized_args(args, host.home@, host.projects(), host.scratch());
            let twice = normalized_args(once, host.home@, host.projects(), host.scratch());
            twice == once <==> keeps_own_paths(host)
        }),
{
    let (home, projects, scratch) = (host.home@, host.projects(), host.scratch());
    let once = normalized_args(args, home, projects, scratch);
    let twice = normalized_args(once, home, projects, scratch);
    lemma_normalized_args_hold(args, home, projects, scratch);
    lemma_normalized_args_hold(once, home, projects, scratch);
    if keeps_own_paths(host) {
        let own = once.map_values(|arg: Seq<char>| rewritten(arg, home, scratch));
        assert forall|i: int| 0 <= i < once.len() implies own[i] == once[i] by {
            if i < args.len() {
                assert(once[i] == rewritten(args[i], home, scratch));
                lemma_rewriting_settles(args[i], home, scratch);
            }
        }
        assert(own =~= once);
        assert(twice == once);
    } else {
        let i = choose|i: int| 0 <= i < once.len() && once[i] == home;
        let j = choose|j: int| 0 <= j < once.len() && once[j] == projects;
        let k = choose|k: int| 0 <= k < once.len() && once[k] == scratch;
        assert(twice[i] == rewritten(home, home, scratch));
        assert(twice[j] == rewritten(projects, home, scratch));
        assert(twice[k] == rewritten(scratch, home, scratch));
    }
}

/// Normalising twice is normalising once: no argument is duplicated or moved by
/// the second pass. This holds exactly where there is no file system server to
/// rewrite, or the rewriting leaves the host's own directories alone.
pub proof fn normalization_is_idempotent(config: Map<Seq<char>, ServerModel>, host: Host)
    ensures
        normalized(normalized(config, host), host) == normalized(config, host) <==> (
        config.contains_key("Filesystem"@) && rewrites_paths(host.os) ==> keeps_own_paths(host)),
{
    reveal_strlit("qwen-core");
    reveal_strlit("Filesystem");
    assert("qwen-core"@.len() != "Filesystem"@.len());
    let once = normalized(config, host);
    let twice = normalized(once, host);
    if config.contains_key("Filesystem"@) && rewrites_paths(host.os) {
        lemma_normalized_args_settle(config["Filesystem"@].args, host);
        assert(once["Filesystem"@].args == normalized_args(
            config["Filesystem"@].args,
            host.home@,
            host.projects(),
            host.scratch(),
        ));
        assert(twice["Filesystem"@].args == normalized_args(
            once["Filesystem"@].args,
            host.home@,
            host.projects(),
            host.scratch(),
        ));
        if keeps_own_paths(host) {
            assert(twice["Filesystem"@] == once["Filesystem"@]);
            assert(twice =~= once);
        }
    } else {
        assert(twice =~= once);
    }
}

/// The directory of projects lies below the macOS directory of homes only where
/// the home directory does.
proof fn lemma_projects_are_no_macos_home(home: Seq<char>)
    requires
        !is_macos_home(home),
    ensures
        !is_macos_home(projects_below(home)),
{
    reveal_strlit("/Projects");
    reveal_strlit("/Users");
    reveal_strlit("/Users/");
    let tail = "/Projects"@;
    let projects = projects_below(home);
    let n = home.len() as int;
    assert(projects.len() == n + 9);
    let users = "/Users/"@;
    if has_prefix(projects, users) {
        if users.len() <= n {
            assert(home.take(users.len() as int) =~= projects.take(users.len() as int));
        } else {
            assert(forall|i: int| 0 <= i < 7 ==> projects.take(7)[i] == #[trigger] projects[i]);
            if n == 0 {
                assert(projects[1] == 'P');
            } else if n == 6 {
                assert forall|i: int| 0 <= i < 6 implies home[i] == "/Users"@[i] by {
                    assert(projects[i] == home[i]);
                    assert(projects[i] == users[i]);
                }
                assert(home =~= "/Users"@);
            } else {
                assert(projects[n] == tail[0]);
            }
        }
    }
}

/// The directory of projects reads like a tagged package name only where the home
/// directory does.
proof fn lemma_projects_have_no_tag(home: Seq<char>)
    requires
        !has_prefix(home, "@modelcontextprotocol/server-filesystem@"@),
    ensures
        !has_prefix(projects_below(home), "@modelcontextprotocol/server-filesystem@"@),
{
    reveal_strlit("/Projects");
    reveal_strlit("@modelcontextprotocol/server-filesystem@");
    let tail = "/Projects"@;
    let projects = projects_below(home);
    let n = home.len() as int;
    let tag = "@modelcontextprotocol/server-filesystem@"@;
    if has_prefix(projects, tag) {
        if tag.len() <= n {
            assert(home.take(tag.len() as int) =~= projects.take(tag.len() as int));
        } else {
            assert(tag.last() == '@');
            assert(projects.take(tag.len() as int).last() == projects[tag.len() - 1]);
            assert(projects[tag.len() - 1] == tail[tag.len() - 1 - n]);
        }
    }
}

/// The rewriting leaves the host's own directories alone where its home and its
/// scratch directory are paths of its own kind: not below the macOS directory of
/// homes, not a tagged package name, and the home not `/tmp` unless that is the
/// scratch directory as well.
pub proof fn ordinary_directories_are_kept(host: Host)
    requires
        !is_macos_home(host.home@),
        !is_macos_home(host.scratch()),
        !has_prefix(host.home@, "@modelcontextprotocol/server-filesystem@"@),
        !has_prefix(host.scratch(), "@modelcontextprotocol/server-filesystem@"@),
        host.home@ == "/tmp"@ ==> host.scratch() == "/tmp"@,
    ensures
        keeps_own_paths(host),
{
    reveal_strlit("/Projects");
    reveal_strlit("/tmp");
    let home = host.home@;
    assert(host.projects().last() == 's');
    assert("/tmp"@.last() == 'p');
    lemma_projects_have_no_tag(home);
    lemma_projects_are_no_macos_home(home);
}

/// An argument that names no path of another system survives the normalisation:
/// only the known foreign paths and the tagged package name are rewritten.
pub proof fn normalization_preserves_other_arguments(
    args: Seq<Seq<char>>,
    host: Host,
    arg: Seq<char>,
)
    requires
        args.contains(arg),
        !is_macos_home(arg),
        arg == "/tmp"@ ==> host.scratch() == "/tmp"@,
        !has_prefix(arg, "@modelcontextprotocol/server-filesystem@"@),
    ensures
        normalized_args(args, host.home@, host.projects(), host.scratch()).contains(arg),
{
    let out = normalized_args(args, host.home@, host.projects(), host.scratch());
    lemma_normalized_args_hold(args, host.home@, host.projects(), host.scratch());
    let i = choose|i: int| 0 <= i < args.len() && args[i] == arg;
    assert(out[i] == rewritten(args[i], host.home@, host.scratch()));
    assert(out[i] == arg);
}

/// After the normalisation the directories of home, projects and scratch files
/// are arguments, the arguments that were there stand first, rewritten one by one
/// in their order, and nothing but the three directories is appended.
pub proof fn normalization_provides_the_directories(args: Seq<Seq<char>>, host: Host)
    ensures
        ({
            let out = normalized_args(args, host.home@, host.projects(), host.scratch());
            &&& out.contains(host.home@)
            &&& out.contains(host.projects())
            &&& out.contains(host.scratch())
            &&& out.len() >= args.len()
            &&& forall|i: int|
                0 <= i < args.len() ==> #[trigger] out[i] == rewritten(
                    args[i],
                    host.home@,
                    host.scratch(),
                )
            &&& forall|i: int|
                args.len() <= i < out.len() ==> #[trigger] out[i] == host.home@ || out[i]
                    == host.projects() || out[i] == host.scratch()
        }),
{
    lemma_normalized_args_hold(args, host.home@, host.projects(), host.scratch());
}

/// No path of another system is left after the normalisation: no path of the
/// macOS directory of homes, and no `/tmp` on a host whose scratch directory is
/// another, as long as the host's own directories are no such paths.
pub proof fn normalization_leaves_no_foreign_path(
    args: Seq<Seq<char>>,
    host: Host,
    arg: Seq<char>,
)
    requires
        !is_macos_home(host.home@),
        !is_macos_home(host.scratch()),
        normalized_args(args, host.home@, host.projects(), host.scratch()).contains(arg),
    ensures
        !is_macos_home(arg),
        arg == "/tmp"@ ==> host.scratch() == "/tmp"@ || host.home@ == "/tmp"@,
{
    let out = normalized_args(args, host.home@, host.projects(), host.scratch());
    lemma_normalized_args_hold(args, host.home@, host.projects(), host.scratch());
    lemma_projects_are_no_macos_home(host.home@);
    let i = choose|i: int| 0 <= i < out.len() && out[i] == arg;
    reveal_strlit("/Projects");
    reveal_strlit("/tmp");
    assert(host.projects().last() == 's');
    assert("/tmp"@.last() == 'p');
    if i < args.len() {
        assert(out[i] == rewritten(args[i], host.home@, host.scratch()));
    }
}

/// No version tag is left on the package of the file system server after the
/// normalisation, so `npx` starts it from its local cache.
pub proof fn normalization_leaves_no_version_tag(args: Seq<Seq<char>>, host: Host, arg: Seq<char>)
    requires
        !has_prefix(host.home@, "@modelcontextprotocol/server-filesystem@"@),
        !has_prefix(host.scratch(), "@modelcontextprotocol/server-filesystem@"@),
        normalized_args(args, host.home@, host.projects(), host.scratch()).contains(arg),
    ensures
        !has_prefix(arg, "@modelcontextprotocol/server-filesystem@"@),
{
    reveal_strlit("@modelcontextprotocol/server-filesystem");
    reveal_strlit("@modelcontextprotocol/server-filesystem@");
    let out = normalized_args(args, host.home@, host.projects(), host.scratch());
    lemma_normalized_args_hold(args, host.home@, host.projects(), host.scratch());
    lemma_projects_have_no_tag(host.home@);
    let i = choose|i: int| 0 <= i < out.len() && out[i] == arg;
    if i < args.len() {
        assert(out[i] == rewritten(args[i], host.home@, host.scratch()));
    }
}

/// The normalisation adds and drops no server, and changes only the arguments of
/// the file system server and, on Windows, the entry of qwen-core.
pub proof fn normalization_changes_nothing_else(
    config: Map<Seq<char>, ServerModel>,
    host: Host,
    name: Seq<char>,
)
    ensures
        normalized(config, host).dom() == config.dom(),
        config.contains_key(name) && name != "Filesystem"@ && (name != "qwen-core"@ || host.os
            != Os::Windows) ==> normalized(config, host)[name] == config[name],
        config.contains_key("Filesystem"@) ==> normalized(config, host)["Filesystem"@] == (
        ServerModel {
            args: normalized(config, host)["Filesystem"@].args,
            ..config["Filesystem"@]
        }),
{
    reveal_strlit("qwen-core");
    reveal_strlit("Filesystem");
    assert("qwen-core"@.len() != "Filesystem"@.len());
    assert(normalized(config, host).dom() =~= config.dom());
}

/// After an update qwen-core is there; the servers are those of the update and of
/// the settings file and qwen-core, and no other; and under a name that both know,
/// the update decides.
pub proof fn update_keeps_every_server(
    incoming: Map<Seq<char>, ServerModel>,
    file: Map<Seq<char>, ServerModel>,
    host: Host,
    name: Seq<char>,
)
    ensures
        updated(incoming, file, host).contains_key("qwen-core"@),
        updated(incoming, file, host).contains_key(name) <==> incoming.contains_key(name)
            || file.contains_key(name) || name == "qwen-core"@,
        incoming.contains_key(name) ==> updated(incoming, file, host)[name] == normalized_server(
            name,
            incoming[name],
            host,
        ),
        file.contains_key(name) && !incoming.contains_key(name) ==> updated(
            incoming,
            file,
            host,
        )[name] == normalized_server(name, file[name], host),
{
}

/// A configuration that was saved after an update is loaded as it was saved: the
/// normalisation on loading changes it no more. This holds exactly where it has no
/// file system server to rewrite, or the rewriting leaves the host's own
/// directories alone.
pub proof fn a_saved_update_is_loaded_unchanged(
    incoming: Map<Seq<char>, ServerModel>,
    file: Map<Seq<char>, ServerModel>,
    host: Host,
)
    ensures
        normalized(updated(incoming, file, host), host) == updated(incoming, file, host) <==> ((
        incoming.contains_key("Filesystem"@) || file.contains_key("Filesystem"@)) && rewrites_paths(
            host.os,
        ) ==> keeps_own_paths(host)),
{
    reveal_strlit("qwen-core");
    reveal_strlit("Filesystem");
    assert("qwen-core"@.len() != "Filesystem"@.len());
    normalization_is_idempotent(with_qwen_core(file.union_prefer_right(incoming), host), host);
}

/// A configuration that was saved after an update is loaded from the settings file as
/// it was saved, whatever else the file holds. The servers in the file are ones that
/// JSON text carries unchanged, and that `decode` turns back into the configuration
/// which they were made from; and as above, there is no file system server to rewrite,
/// or the rewriting leaves the host's own directories alone.
pub proof fn a_saved_update_is_loaded_from_the_text<
    F: FnOnce(Value) -> Result<ServerConfigs, String>,
>(
    incoming: Map<Seq<char>, ServerModel>,
    file: Map<Seq<char>, ServerModel>,
    host: Host,
    servers: Value,
    content: Option<Seq<char>>,
    document: Value,
    text: Seq<char>,
    decode: F,
    loaded: Result<ServerConfigs, String>,
)
    requires
        has_place_for_servers(document_in(content)),
        is_settings_text(text, document, document_in(content), servers),
        exact(servers, servers_depth()),
        forall|decoded: Result<ServerConfigs, String>| #[trigger]
            decode.ensures((servers,), decoded) ==> (decoded matches Ok(config) && config@
                == updated(incoming, file, host)),
        is_loaded(loaded, Some(text), decode, host),
        (incoming.contains_key("Filesystem"@) || file.contains_key("Filesystem"@))
            && rewrites_paths(host.os) ==> keeps_own_paths(host),
    ensures
        loaded matches Ok(config) && {
            &&& config@ == updated(incoming, file, host)
            &&& config@.contains_key("qwen-core"@)
            &&& forall|name: Seq<char>|
                incoming.contains_key(name) ==> #[trigger] config@.contains_key(name)
        },
{
    a_saved_update_is_loaded_unchanged(incoming, file, host);
}

/// The default servers of a Linux host are in their final form: the normalisation
/// leaves them as they are, unless the home directory is itself a path that it
/// rewrites.
pub proof fn default_servers_are_normal_on_linux(host: Host)
    requires
        host.os == Os::Linux,
        !is_macos_home(host.home@),
        !has_prefix(host.home@, "@modelcontextprotocol/server-filesystem@"@),
    ensures
        normalized(default_servers(host), host) == default_servers(host),
{
    reveal_strlit("qwen-core");
    reveal_strlit("Filesystem");
    reveal_strlit("Sequential-Thinking");
    assert("qwen-core"@.len() == 9 && "Filesystem"@.len() == 10 && "Sequential-Thinking"@.len()
        == 19);
    reveal_strlit("-y");
    reveal_strlit("/tmp");
    reveal_strlit("/Users");
    reveal_strlit("/Users/");
    reveal_strlit("@modelcontextprotocol/server-filesystem@");
    let (home, projects, scratch) = (host.home@, host.projects(), host.scratch());
    let tag = "@modelcontextprotocol/server-filesystem@"@;
    assert("/tmp"@.len() == 4 && "/Users"@.len() == 6 && "/Users/"@.len() == 7 && "-y"@.len() == 2);
    assert(tag.len() > 4);
    assert("/tmp"@[0] == '/' && "-y"@[0] == '-');
    ordinary_directories_are_kept(host);
    lemma_package_is_kept(home, scratch);
    let args = filesystem_server(home, projects).args;
    let own = args.map_values(|arg: Seq<char>| rewritten(arg, home, scratch));
    assert(own[0] == "-y"@);
    assert(own =~= args);
    assert(args[2] == home && args[3] == scratch && args[4] == projects);
    assert(normalized_args(args, home, projects, scratch) == args);
    let servers = default_servers(host);
    assert(servers["Filesystem"@].args == args);
    assert(normalized(servers, host)["Filesystem"@] == servers["Filesystem"@]);
    assert(normalized(servers, host) =~= servers);
}

/// The default servers of any host, field by field: qwen-core, the file system server and
/// the sequential thinking server, and no other. The latter two are started by `npx -y`
/// and their package, the file system server with the directories of the host behind it;
/// both speak over standard input and output and nothing else is set for them.
pub proof fn the_default_servers_of_a_host(host: Host)
    ensures
        ({
            let servers = default_servers(host);
            let files = servers["Filesystem"@];
            let thinking = servers["Sequential-Thinking"@];
            &&& servers.dom() == set!["qwen-core"@, "Filesystem"@, "Sequential-Thinking"@]
            &&& servers["qwen-core"@] == qwen_core_server(host.os, host.runtime)
            &&& files.command == "npx"@
            &&& files.args.len() == 5
            &&& files.args[0] == "-y"@
            &&& files.args[1] == "@modelcontextprotocol/server-filesystem"@
            &&& files.args[2] == host.home@
            &&& files.args[3] == "/tmp"@
            &&& files.args[4] == host.home@ + "/Projects"@
            &&& thinking.command == "npx"@
            &&& thinking.args.len() == 2
            &&& thinking.args[0] == "-y"@
            &&& thinking.args[1] == "@modelcontextprotocol/server-sequential-thinking"@
            &&& files.transport_type == Some("stdio"@) && thinking.transport_type == Some(
                "stdio"@,
            )
            &&& files.env is None && files.cwd is None && files.url is None
            &&& files.timeout is None && files.source is None && files.identifier is None
            &&& files.from_ is None && files.from_id is None
            &&& thinking.env is None && thinking.cwd is None && thinking.url is None
            &&& thinking.timeout is None && thinking.source is None && thinking.identifier is None
            &&& thinking.from_ is None && thinking.from_id is None
            &&& !files.disabled && !thinking.disabled
        }),
{
    reveal_strlit("qwen-core");
    reveal_strlit("Filesystem");
    reveal_strlit("Sequential-Thinking");
    assert("qwen-core"@.len() == 9 && "Filesystem"@.len() == 10 && "Sequential-Thinking"@.len()
        == 19);
    assert(default_servers(host).dom() =~= set![
        "qwen-core"@,
        "Filesystem"@,
        "Sequential-Thinking"@,
    ]);
}

/// What becomes of the arguments of the file system server on Linux and Windows, one by
/// one, each in its place: `/Users` and whatever begins with `/Users/` becomes the home
/// directory, `/tmp` the directory for scratch files, a tagged package name the bare
/// one. Any other argument stays as it is, so no directory of the user's own is lost.
pub proof fn only_known_arguments_are_rewritten(
    config: Map<Seq<char>, ServerModel>,
    host: Host,
    i: int,
)
    requires
        config.contains_key("Filesystem"@),
        host.os == Os::Linux || host.os == Os::Windows,
        0 <= i < config["Filesystem"@].args.len(),
    ensures
        ({
            let arg = config["Filesystem"@].args[i];
            let args = normalized(config, host)["Filesystem"@].args;
            let users = arg == "/Users"@ || "/Users/"@.is_prefix_of(arg);
            let tagged = "@modelcontextprotocol/server-filesystem@"@.is_prefix_of(arg);
            &&& args == normalized_args(
                config["Filesystem"@].args,
                host.home@,
                host.projects(),
                host.scratch(),
            )
            &&& i < args.len()
            &&& users ==> args[i] == host.home@
            &&& arg == "/tmp"@ && host.os == Os::Linux ==> args[i] == "/tmp"@
            &&& arg == "/tmp"@ && host.os == Os::Windows ==> args[i] == host.temp_dir@
            &&& tagged ==> args[i] == "@modelcontextprotocol/server-filesystem"@
            &&& !users && arg != "/tmp"@ && !tagged ==> args[i] == arg
        }),
{
    reveal_strlit("qwen-core");
    reveal_strlit("Filesystem");
    assert("qwen-core"@.len() != "Filesystem"@.len());
    reveal_strlit("/Users");
    reveal_strlit("/Users/");
    reveal_strlit("/tmp");
    reveal_strlit("@modelcontextprotocol/server-filesystem@");
    let args = config["Filesystem"@].args;
    let arg = args[i];
    let (home, projects, scratch) = (host.home@, host.projects(), host.scratch());
    let tag = "@modelcontextprotocol/server-filesystem@"@;
    lemma_normalized_args_hold(args, home, projects, scratch);
    lemma_package_is_kept(home, scratch);
    prefixes_are_put_before(arg, "/Users/"@);
    prefixes_are_put_before(arg, tag);
    assert(normalized(config, host)["Filesystem"@].args == normalized_args(
        args,
        home,
        projects,
        scratch,
    ));
    assert(normalized_args(args, home, projects, scratch)[i] == rewritten(arg, home, scratch));
    assert(tag[0] == '@' && "/Users"@[0] == '/' && "/Users/"@[0] == '/' && "/tmp"@[0] == '/');
    if tag.is_prefix_of(arg) {
        assert(arg[0] == '@');
    }
    if "/Users/"@.is_prefix_of(arg) {
        assert(arg[0] == '/');
        assert(arg[1] == 'U');
        assert("/tmp"@[1] == 't');
    }
    assert("/Users"@[1] == 'U' && "/tmp"@[1] == 't');
}

/// Behind the arguments that were there come the directories that were missing, and
/// nothing else: the home directory, the projects below it and the directory for scratch
/// files, in this order, each once.
pub proof fn missing_directories_are_appended(
    config: Map<Seq<char>, ServerModel>,
    host: Host,
    i: int,
    j: int,
)
    requires
        config.contains_key("Filesystem"@),
        host.os == Os::Linux || host.os == Os::Windows,
    ensures
        ({
            let n = config["Filesystem"@].args.len();
            let args = normalized(config, host)["Filesystem"@].args;
            let home = host.home@;
            let projects = host.home@ + "/Projects"@;
            let scratch = if host.os == Os::Linux {
                "/tmp"@
            } else {
                host.temp_dir@
            };
            &&& args.contains(home) && args.contains(projects) && args.contains(scratch)
            &&& args.len() >= n
            &&& n <= i < args.len() ==> !args.take(i).contains(args[i])
            &&& n <= i < args.len() ==> args[i] == home || args[i] == projects || args[i] == scratch
            &&& n <= i < args.len() && n <= j < args.len() && args[i] == home && args[j] != home
                ==> i < j
            &&& n <= i < args.len() && n <= j < args.len() && args[i] != scratch && args[j]
                == scratch && scratch != home ==> i < j
        }),
{
    reveal_strlit("qwen-core");
    reveal_strlit("Filesystem");
    assert("qwen-core"@.len() != "Filesystem"@.len());
    let args = config["Filesystem"@].args;
    let (home, projects, scratch) = (host.home@, host.projects(), host.scratch());
    lemma_normalized_args_hold(args, home, projects, scratch);
    assert(normalized(config, host)["Filesystem"@].args == normalized_args(
        args,
        home,
        projects,
        scratch,
    ));
    let own = args.map_values(|arg: Seq<char>| rewritten(arg, home, scratch));
    let a = with_arg(own, home);
    let b = with_arg(a, projects);
    let c = with_arg(b, scratch);
    reveal_strlit("/Projects");
    assert(projects.len() > home.len());
    assert(home != projects);
    assert(a.contains(home)) by {
        if !own.contains(home) {
            assert(a[own.len() as int] == home);
        }
    }
    let at = choose|at: int| 0 <= at < a.len() && a[at] == home;
    assert(a[at] == home);
    assert(b[at] == a[at]);
    assert(b.contains(b[at]));
    assert(b.contains(projects)) by {
        if !a.contains(projects) {
            assert(b[a.len() as int] == projects);
        }
    }
    assert forall|k: int| own.len() <= k < c.len() implies !c.take(k).contains(#[trigger] c[k]) && (
    k < a.len() <==> c[k] == home) && (k >= b.len() ==> c[k] == scratch && scratch != projects)
        && (a.len() <= k < b.len() ==> c[k] == projects) by {
        if k < a.len() {
            assert(c.take(k) =~= own);
            assert(c[k] == home);
        } else if k < b.len() {
            assert(c.take(k) =~= a);
            assert(c[k] == projects);
        } else {
            assert(c.take(k) =~= b);
            assert(c[k] == scratch);
        }
    }
}

/// The normalisation touches the arguments of the file system server on Linux and
/// Windows, and on Windows the entry of qwen-core, which becomes the one that starts
/// there. Every other field and every other server is as it was, and on any other system
/// everything is.
pub proof fn nothing_else_is_normalized(
    config: Map<Seq<char>, ServerModel>,
    host: Host,
    name: Seq<char>,
)
    ensures
        normalized(config, host).dom() == config.dom(),
        config.contains_key(name) && name != "Filesystem"@ && name != "qwen-core"@ ==> normalized(
            config,
            host,
        )[name] == config[name],
        config.contains_key("qwen-core"@) && host.os == Os::Windows ==> normalized(
            config,
            host,
        )["qwen-core"@] == qwen_core_server(host.os, host.runtime),
        config.contains_key("qwen-core"@) && host.os != Os::Windows ==> normalized(
            config,
            host,
        )["qwen-core"@] == config["qwen-core"@],
        config.contains_key("Filesystem"@) && host.os == Os::Other ==> normalized(
            config,
            host,
        )["Filesystem"@] == config["Filesystem"@],
        config.contains_key("Filesystem"@) ==> ({
            let (before, after) = (
                config["Filesystem"@],
                normalized(config, host)["Filesystem"@],
            );
            &&& after.command == before.command && after.env == before.env
            &&& after.cwd == before.cwd && after.transport_type == before.transport_type
            &&& after.url == before.url && after.timeout == before.timeout
            &&& after.source == before.source && after.identifier == before.identifier
            &&& after.from_ == before.from_ && after.from_id == before.from_id
            &&& after.disabled == before.disabled
        }),
{
    reveal_strlit("qwen-core");
    reveal_strlit("Filesystem");
    assert("qwen-core"@.len() != "Filesystem"@.len());
    assert(normalized(config, host).dom() =~= config.dom());
}

/// What an update leads to: the servers that come in, those of the file under other
/// names, and qwen-core. Where neither side has qwen-core, its entry is the default one
/// of the host, which is not disabled. And an update is adjusted to the host just as the
/// same servers are that are loaded from the file.
pub proof fn an_update_merges_and_adds_the_default_qwen_core(
    incoming: Map<Seq<char>, ServerModel>,
    file: Map<Seq<char>, ServerModel>,
    host: Host,
    name: Seq<char>,
)
    ensures
        ({
            let after = updated(incoming, file, host);
            &&& after.dom() == incoming.dom().union(file.dom()).insert("qwen-core"@)
            &&& !incoming.contains_key("qwen-core"@) && !file.contains_key("qwen-core"@)
                ==> after["qwen-core"@] == default_servers(host)["qwen-core"@]
                && !after["qwen-core"@].disabled
            &&& incoming.contains_key(name) ==> after[name] == normalized(incoming, host)[name]
            &&& file.contains_key(name) && !incoming.contains_key(name) ==> after[name]
                == normalized(file, host)[name]
            &&& incoming.contains_key(name) && name != "Filesystem"@ && (name != "qwen-core"@
                || host.os != Os::Windows) ==> after[name] == incoming[name]
            &&& file.contains_key(name) && !incoming.contains_key(name) && name
                != "Filesystem"@ && (name != "qwen-core"@ || host.os != Os::Windows)
                ==> after[name] == file[name]
        }),
{
    reveal_strlit("qwen-core");
    reveal_strlit("Filesystem");
    assert("qwen-core"@.len() != "Filesystem"@.len());
    qwen_core_is_started_by_what_is_there(host.os, host.runtime);
    the_default_servers_of_a_host(host);
    assert(updated(incoming, file, host).dom() =~= incoming.dom().union(file.dom()).insert(
        "qwen-core"@,
    ));
}

/// A file that cannot be read brings no servers into an update, and one that can brings
/// its own.
pub proof fn an_unreadable_file_brings_no_servers(file: Result<ServerConfigs, String>)
    ensures
        file matches Ok(config) ==> servers_or_none(file) == config@,
        file is Err ==> servers_or_none(file).dom() == Set::<Seq<char>>::empty(),
{
    assert(file is Err ==> servers_or_none(file).dom() =~= Set::empty());
}

/// What loading gives. Without a document, or with one that holds no servers, the default
/// servers. With servers that are decoded, those, adjusted to the host; with servers that
/// are not, the error as it is.
pub proof fn loading_gives_the_servers_of_the_file<
    F: FnOnce(Value) -> Result<ServerConfigs, String>,
>(
    loaded: Result<ServerConfigs, String>,
    content: Option<Seq<char>>,
    decode: F,
    host: Host,
    document: Value,
    servers: Value,
)
    requires
        is_loaded(loaded, content, decode, host),
    ensures
        content is None ==> (loaded matches Ok(config) && config@ == default_servers(host)),
        content matches Some(text) ==> (parsed(text) is None ==> (loaded matches Ok(config)
            && config@ == default_servers(host))),
        content matches Some(text) ==> (parsed(text) == Some(document) && !(members(
            document,
        ) is Some && (members(document)->0).contains_key("mcpServers"@)) ==> (loaded matches Ok(
            config,
        ) && config@ == default_servers(host))),
        content matches Some(text) ==> (parsed(text) == Some(document) && members(
            document,
        ) is Some && (members(document)->0).contains_pair("mcpServers"@, servers)
            ==> exists|decoded: Result<ServerConfigs, String>| #[trigger]
            decode.ensures((servers,), decoded) && (decoded matches Ok(stored) ==> (
            loaded matches Ok(config) && config@ == normalized(stored@, host))) && (decoded
            matches Err(e) ==> loaded == Err::<ServerConfigs, String>(e))),
{
}

} // verus!
