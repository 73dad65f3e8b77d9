use qwen_studio::config::{
    get_default_config, load_mcp_config, load_settings, mcp_client_update_config, normalize_args,
    normalize_config,
};
use qwen_studio::host::{
    home_or_default, mcp_runtime_dir, qwen_core_config, resolve_bridge_path, Host, Os, Probe,
    RuntimeFile, RuntimeFiles,
};
use qwen_studio::servers::{McpServerConfig, ServerConfigs};
use qwen_studio::settings::settings_text;
use serde_json::Value;
use std::collections::HashMap;

const WINDOWS_HOME: &str = "C:\\Users\\me";
const WINDOWS_TEMP: &str = "C:\\Users\\me\\AppData\\Local\\Temp\\";

fn host(os: Os, home: &str, temp: &str) -> Host {
    Host {
        os,
        home: home.to_string(),
        temp_dir: temp.to_string(),
        runtime: None,
    }
}

fn windows() -> Host {
    host(Os::Windows, WINDOWS_HOME, WINDOWS_TEMP)
}

fn linux() -> Host {
    host(Os::Linux, "/home/me", "/var/tmp")
}

fn texts(list: &[&str]) -> Vec<String> {
    list.iter().map(|s| s.to_string()).collect()
}

fn server(command: &str, args: &[&str]) -> McpServerConfig {
    McpServerConfig {
        command: command.to_string(),
        args: texts(args),
        transport_type: Some("stdio".to_string()),
        ..Default::default()
    }
}

fn probe(path: &str, exists: bool) -> Probe {
    Probe {
        path: path.to_string(),
        exists,
    }
}

fn runtime(dist: bool, tsx: bool, src: bool) -> Option<RuntimeFiles> {
    Some(RuntimeFiles {
        dist: probe("R\\dist\\index.mjs", dist),
        tsx: probe("R\\tsx\\cli.mjs", tsx),
        src: probe("R\\src\\index.ts", src),
    })
}

fn looks_like_path(arg: &str) -> bool {
    arg.starts_with('/') || arg.starts_with("\\\\") || arg.as_bytes().get(1) == Some(&b':')
}

// The directories of the Windows host that these tests describe.
fn exists_on_windows(path: &str) -> bool {
    path == WINDOWS_HOME
        || path == WINDOWS_TEMP
        || path == format!("{}/Projects", WINDOWS_HOME).as_str()
}

#[test]
fn windows_default_config_has_no_posix_tmp() {
    let host = windows();
    let cfg = normalize_config(get_default_config(&host), &host);
    let fs = cfg
        .get("Filesystem")
        .expect("default config must contain Filesystem");
    for a in &fs.args {
        assert_ne!(a, "/tmp", "posix /tmp leaked into windows config");
        assert!(
            !a.starts_with("/Users"),
            "macOS /Users path leaked into windows config: {}",
            a
        );
        if looks_like_path(a) {
            assert!(
                exists_on_windows(a),
                "Filesystem path arg must exist on windows: {}",
                a
            );
        }
    }
}

#[test]
fn windows_normalize_replaces_mac_and_tmp_paths() {
    let host = windows();
    let mut m = ServerConfigs::new();
    m.insert(
        "Filesystem".to_string(),
        McpServerConfig {
            command: "npx".to_string(),
            args: vec![
                "-y".to_string(),
                "@modelcontextprotocol/server-filesystem".to_string(),
                "/Users".to_string(),
                "/tmp".to_string(),
            ],
            transport_type: Some("stdio".to_string()),
            ..Default::default()
        },
    );

    let out = normalize_config(m, &host);
    let fs = out.get("Filesystem").unwrap();

    for a in &fs.args {
        assert!(!a.starts_with("/Users"), "macOS path not replaced: {}", a);
        assert_ne!(a, "/tmp", "posix /tmp not replaced");
    }

    let home = host.home.clone();
    let temp = host.temp_dir.clone();
    assert!(
        fs.args.iter().any(|a| a == &home),
        "home dir must be present after normalize: {:?}",
        fs.args
    );
    assert!(
        fs.args.iter().any(|a| a == &temp),
        "temp dir must be present after normalize: {:?}",
        fs.args
    );
}

#[test]
fn windows_normalize_is_idempotent() {
    let host = windows();
    let once = normalize_config(get_default_config(&host), &host);
    let twice = normalize_config(once.clone(), &host);
    assert_eq!(
        once.get("Filesystem").unwrap().args,
        twice.get("Filesystem").unwrap().args,
        "normalizing twice must not duplicate or churn paths"
    );
}

#[test]
fn normalize_preserves_existing_valid_paths() {
    let host = Host::detect(Os::Linux, "/tmp".to_string(), None);
    let valid = "/tmp".to_string();
    let mut m = ServerConfigs::new();
    m.insert(
        "Filesystem".to_string(),
        McpServerConfig {
            command: "npx".to_string(),
            args: vec![
                "-y".to_string(),
                "@modelcontextprotocol/server-filesystem".to_string(),
                valid.clone(),
            ],
            transport_type: Some("stdio".to_string()),
            ..Default::default()
        },
    );

    let out = normalize_config(m, &host);
    let fs = out.get("Filesystem").unwrap();
    assert!(
        fs.args.iter().any(|a| a == &valid),
        "valid existing path was dropped: {:?}",
        fs.args
    );
}

#[test]
fn default_config_names_three_servers() {
    let cfg = get_default_config(&linux());
    assert_eq!(cfg.len(), 3);
    let core = cfg.get("qwen-core").unwrap();
    assert_eq!(core.command, "npx");
    assert_eq!(core.args, texts(&["-y", "qwen-core"]));
    assert_eq!(core.source.as_deref(), Some("official"));
    assert_eq!(core.from_.as_deref(), Some("builtin"));
    assert!(!core.disabled);
    let fs = cfg.get("Filesystem").unwrap();
    assert_eq!(
        fs.args,
        texts(&[
            "-y",
            "@modelcontextprotocol/server-filesystem",
            "/home/me",
            "/tmp",
            "/home/me/Projects"
        ])
    );
    assert_eq!(fs.transport_type.as_deref(), Some("stdio"));
    assert_eq!(
        cfg.get("Sequential-Thinking").unwrap().args,
        texts(&["-y", "@modelcontextprotocol/server-sequential-thinking"])
    );
    assert!(cfg.get("Other").is_none());
}

#[test]
fn linux_normalize_gives_exact_arguments() {
    let args = texts(&[
        "-y",
        "@modelcontextprotocol/server-filesystem@latest",
        "/Users/someone/docs",
        "/Users",
        "/Usersland",
        "/srv/data",
    ]);
    assert_eq!(
        normalize_args(&args, &linux()),
        texts(&[
            "-y",
            "@modelcontextprotocol/server-filesystem",
            "/home/me",
            "/home/me",
            "/Usersland",
            "/srv/data",
            "/home/me/Projects",
            "/tmp"
        ])
    );
    assert_eq!(
        normalize_args(&Vec::new(), &linux()),
        texts(&["/home/me", "/home/me/Projects", "/tmp"])
    );
}

#[test]
fn home_below_users_is_not_idempotent() {
    let host = host(Os::Linux, "/Users/me", "/var/tmp");
    let once = normalize_args(&Vec::new(), &host);
    assert_eq!(once, texts(&["/Users/me", "/Users/me/Projects", "/tmp"]));
    assert_eq!(
        normalize_args(&once, &host),
        texts(&["/Users/me", "/Users/me", "/tmp", "/Users/me/Projects"])
    );
}

#[test]
fn other_systems_and_servers_are_left_alone() {
    let args = ["-y", "/Users/me", "/tmp"];
    let mut m = ServerConfigs::new();
    m.insert("Filesystem".to_string(), server("npx", &args));
    m.insert("qwen-core".to_string(), server("old", &[]));
    let out = normalize_config(m, &host(Os::Other, "/Users/me", "/var/tmp"));
    assert_eq!(out.get("Filesystem").unwrap().args, texts(&args));
    assert_eq!(out.get("qwen-core").unwrap().command, "old");

    let mut m = ServerConfigs::new();
    m.insert("Mine".to_string(), server("npx", &args));
    m.insert("qwen-core".to_string(), server("old", &[]));
    let out = normalize_config(m, &linux());
    assert_eq!(out.get("Mine").unwrap().args, texts(&args));
    assert_eq!(out.get("qwen-core").unwrap().command, "old");
    assert_eq!(out.len(), 2);
}

#[test]
fn normalize_keeps_the_other_fields() {
    let mut env = HashMap::new();
    env.insert("KEY".to_string(), "value".to_string());
    let mut m = ServerConfigs::new();
    m.insert(
        "Filesystem".to_string(),
        McpServerConfig {
            env: Some(env.clone()),
            cwd: Some("/srv".to_string()),
            timeout: Some(7),
            disabled: true,
            ..server("mine", &[])
        },
    );
    let out = normalize_config(m, &linux());
    let fs = out.get("Filesystem").unwrap();
    assert_eq!(fs.command, "mine");
    assert_eq!(fs.env, Some(env));
    assert_eq!(fs.cwd.as_deref(), Some("/srv"));
    assert_eq!(fs.timeout, Some(7));
    assert!(fs.disabled);
}

#[test]
fn windows_heals_the_launcher_of_qwen_core() {
    let mut host = windows();
    host.runtime = runtime(true, true, true);
    let mut m = ServerConfigs::new();
    m.insert("qwen-core".to_string(), server("npx", &["-y", "qwen-core"]));
    let out = normalize_config(m, &host);
    let core = out.get("qwen-core").unwrap();
    assert_eq!(core.command, "node");
    assert_eq!(core.args, texts(&["R\\dist\\index.mjs"]));
    let out = normalize_config(ServerConfigs::new(), &host);
    assert_eq!(out.len(), 0);
}

#[test]
fn qwen_core_is_started_from_what_exists() {
    let command = |os: Os, files: Option<RuntimeFiles>| {
        let c = qwen_core_config(os, &files);
        (c.command, c.args)
    };
    let portable = ("npx".to_string(), texts(&["-y", "qwen-core"]));
    assert_eq!(command(Os::Linux, runtime(true, true, true)), portable);
    assert_eq!(command(Os::Other, runtime(true, true, true)), portable);
    assert_eq!(command(Os::Windows, None), portable);
    assert_eq!(command(Os::Windows, runtime(false, false, true)), portable);
    assert_eq!(command(Os::Windows, runtime(false, true, false)), portable);
    assert_eq!(
        command(Os::Windows, runtime(false, true, true)),
        (
            "node".to_string(),
            texts(&["R\\tsx\\cli.mjs", "R\\src\\index.ts"])
        )
    );
    assert_eq!(
        command(Os::Windows, runtime(true, false, false)),
        ("node".to_string(), texts(&["R\\dist\\index.mjs"]))
    );
    let c = qwen_core_config(Os::Windows, &None);
    assert_eq!(c.transport_type.as_deref(), Some("stdio"));
    assert_eq!(c.source.as_deref(), Some("official"));
    assert_eq!(c.from_.as_deref(), Some("builtin"));
    assert_eq!(c.from_id, None);
}

#[test]
fn bridge_script_and_runtime_are_located() {
    let dev = || "/src/mcp-bridge.mjs".to_string();
    assert_eq!(
        resolve_bridge_path(Some(probe("/app/mcp-bridge.mjs", true)), dev()),
        "/app/mcp-bridge.mjs"
    );
    assert_eq!(
        resolve_bridge_path(Some(probe("/app/mcp-bridge.mjs", false)), dev()),
        dev()
    );
    assert_eq!(resolve_bridge_path(None, dev()), dev());

    assert_eq!(
        mcp_runtime_dir(Some(probe("/app", true)), probe("/src", true)),
        Some("/app".to_string())
    );
    assert_eq!(
        mcp_runtime_dir(Some(probe("/app", false)), probe("/src", true)),
        Some("/src".to_string())
    );
    assert_eq!(
        mcp_runtime_dir(Some(probe("/app", false)), probe("/src", false)),
        None
    );
    assert_eq!(mcp_runtime_dir(None, probe("/src", true)), None);
    assert_eq!(
        RuntimeFile::Dist.parts(),
        texts(&["node_modules", "qwen-core", "dist", "index.mjs"])
    );
    assert_eq!(
        RuntimeFile::Tsx.parts(),
        texts(&["node_modules", "tsx", "dist", "cli.mjs"])
    );
    assert_eq!(
        RuntimeFile::Src.parts(),
        texts(&["node_modules", "qwen-core", "src", "index.ts"])
    );
}

#[test]
fn host_is_detected_with_a_home() {
    let expected = match dirs::home_dir() {
        Some(path) => path.to_string_lossy().to_string(),
        None => "/tmp".to_string(),
    };
    let host = Host::detect(Os::Windows, "T".to_string(), runtime(true, false, false));
    assert_eq!(host.home, expected);
    assert_eq!(host.projects_dir(), format!("{}/Projects", expected));
    assert_eq!(host.scratch_dir(), "T");
    assert!(host.runtime.is_some());
    assert_eq!(home_or_default(None), "/tmp");
    assert_eq!(home_or_default(Some("/h".to_string())), "/h");
    assert_eq!(linux().scratch_dir(), "/tmp");
}

#[test]
fn stored_configuration_is_loaded() {
    let host = linux();
    let cfg = load_mcp_config(None, &host).unwrap();
    assert_eq!(cfg.len(), 3);

    let mut stored = ServerConfigs::new();
    stored.insert("Filesystem".to_string(), server("npx", &["/Users"]));
    let cfg = load_mcp_config(Some(Ok(stored)), &host).unwrap();
    assert_eq!(cfg.len(), 1);
    assert_eq!(
        cfg.get("Filesystem").unwrap().args,
        texts(&["/home/me", "/home/me/Projects", "/tmp"])
    );

    let err = load_mcp_config(Some(Err("bad".to_string())), &host);
    assert_eq!(err.unwrap_err(), "bad");
}

#[test]
fn update_merges_and_adds_qwen_core() {
    let host = linux();
    let mut incoming = ServerConfigs::new();
    incoming.insert("A".to_string(), server("new", &["1"]));
    let mut file = ServerConfigs::new();
    file.insert("A".to_string(), server("old", &["2"]));
    file.insert("B".to_string(), server("kept", &["3"]));
    file.insert("Filesystem".to_string(), server("npx", &[]));
    let out = mcp_client_update_config(incoming, Ok(file), &host);
    assert_eq!(out.len(), 4);
    assert_eq!(out.get("A").unwrap().command, "new");
    assert_eq!(out.get("B").unwrap().command, "kept");
    assert_eq!(out.get("qwen-core").unwrap().args, texts(&["-y", "qwen-core"]));
    assert_eq!(out.get("Filesystem").unwrap().args.len(), 3);

    let mut incoming = ServerConfigs::new();
    incoming.insert("qwen-core".to_string(), server("mine", &[]));
    let out = mcp_client_update_config(incoming, Err("unreadable".to_string()), &host);
    assert_eq!(out.len(), 1);
    assert_eq!(out.get("qwen-core").unwrap().command, "mine");
}

#[test]
fn server_collection_behaves_like_a_map() {
    let mut m = ServerConfigs::new();
    assert_eq!(m.len(), 0);
    assert!(m.insert("a".to_string(), server("1", &[])).is_none());
    assert!(m.insert("b".to_string(), server("2", &[])).is_none());
    let old = m.insert("a".to_string(), server("3", &[])).unwrap();
    assert_eq!(old.command, "1");
    assert_eq!(m.len(), 2);
    assert!(m.contains_key("a") && !m.contains_key("c"));
    assert!(m.remove("c").is_none());
    assert_eq!(m.remove("b").unwrap().command, "2");
    assert!(m.get("b").is_none());
    let entries = m.into_entries();
    assert_eq!(entries.len(), 1);
    assert_eq!(entries[0].0, "a");
    assert_eq!(entries[0].1.command, "3");
}

#[test]
fn default_server_is_blank() {
    let c = McpServerConfig::default();
    assert_eq!(c.command, "");
    assert!(c.args.is_empty() && c.env.is_none() && c.url.is_none() && !c.disabled);
}

#[test]
fn default_config_is_normal_on_linux() {
    let host = linux();
    let plain = get_default_config(&host);
    let out = normalize_config(get_default_config(&host), &host);
    for name in ["qwen-core", "Filesystem", "Sequential-Thinking"] {
        let (a, b) = (plain.get(name).unwrap(), out.get(name).unwrap());
        assert_eq!((&a.command, &a.args), (&b.command, &b.args));
    }
}

#[test]
fn saved_update_is_loaded_unchanged() {
    for host in [linux(), windows()] {
        let mut incoming = ServerConfigs::new();
        incoming.insert(
            "Filesystem".to_string(),
            server("npx", &["-y", "/Users/x", "/tmp"]),
        );
        let saved = mcp_client_update_config(incoming, Ok(ServerConfigs::new()), &host);
        let args = saved.get("Filesystem").unwrap().args.clone();
        let loaded = load_mcp_config(Some(Ok(saved)), &host).unwrap();
        assert_eq!(loaded.get("Filesystem").unwrap().args, args);
        assert_eq!(loaded.len(), 2);
    }
}

/// The servers as JSON: under each name the command and the arguments.
fn encode(servers: &[(String, McpServerConfig)]) -> Value {
    let mut all = serde_json::Map::new();
    for (name, server) in servers {
        let mut fields = serde_json::Map::new();
        fields.insert("command".to_string(), Value::from(server.command.clone()));
        fields.insert("args".to_string(), Value::from(server.args.clone()));
        all.insert(name.clone(), Value::from(fields));
    }
    Value::from(all)
}

fn decode(servers: Value) -> Result<ServerConfigs, String> {
    let mut configs = ServerConfigs::new();
    for (name, fields) in servers.as_object().ok_or("no servers")? {
        let args = fields.get("args").and_then(|v| v.as_array()).ok_or("no args")?;
        let args: Vec<&str> = args.iter().filter_map(|v| v.as_str()).collect();
        let command = fields.get("command").and_then(|v| v.as_str()).ok_or("no command")?;
        configs.insert(name.clone(), server(command, &args));
    }
    Ok(configs)
}

#[test]
fn settings_are_loaded_from_their_text() {
    let host = linux();
    for content in [None, Some("no json"), Some("{}"), Some("[]")] {
        let loaded = load_settings(content, decode, &host).unwrap();
        assert_eq!(loaded.len(), 3);
        assert!(loaded.contains_key("Sequential-Thinking"));
    }
    let error = load_settings(Some("{\"mcpServers\":7}"), decode, &host);
    assert_eq!(error.map(|c| c.len()), Err("no servers".to_string()));
    let text = "{\"mcpServers\":{\"Filesystem\":{\"command\":\"npx\",\"args\":[\"/Users\"]}}}";
    let loaded = load_settings(Some(text), decode, &host).unwrap();
    assert_eq!(
        loaded.get("Filesystem").unwrap().args,
        texts(&["/home/me", "/home/me/Projects", "/tmp"])
    );
}

#[test]
fn saved_update_is_loaded_from_the_text() {
    for host in [linux(), windows()] {
        let mut incoming = ServerConfigs::new();
        incoming.insert(
            "Filesystem".to_string(),
            server("npx", &["-y", "/Users/x", "/tmp"]),
        );
        let content = "{\"zoom\":1.5,\"mcpServers\":{\"own\":{\"command\":\"c\",\"args\":[]}}}";
        let file = load_settings(Some(content), decode, &host);
        let saved = mcp_client_update_config(incoming, file, &host);
        let entries = saved.clone().into_entries();
        assert_eq!(entries.len(), 3);
        let text = settings_text(Some(content), encode(&entries));
        let loaded = load_settings(Some(&text), decode, &host).unwrap();
        assert_eq!(loaded.len(), 3);
        for (name, config) in &entries {
            let found = loaded.get(name).unwrap();
            assert_eq!((&found.command, &found.args), (&config.command, &config.args));
        }
    }
}

#[test]
fn copies_of_configurations_are_equal() {
    let mut env = HashMap::new();
    env.insert("K".to_string(), "v".to_string());
    let mut m = ServerConfigs::new();
    m.insert("a".to_string(), server("1", &["x", "y"]));
    m.insert(
        "b".to_string(),
        McpServerConfig {
            env: Some(env.clone()),
            timeout: Some(7),
            disabled: true,
            ..server("2", &[])
        },
    );
    let copy = m.clone();
    assert_eq!(copy.len(), 2);
    assert_eq!(copy.get("a").unwrap().args, texts(&["x", "y"]));
    let b = copy.get("b").unwrap();
    assert_eq!((&b.env, b.timeout, b.disabled), (&Some(env), Some(7), true));
    assert_eq!(b.transport_type.as_deref(), Some("stdio"));
}

#[test]
fn version_tags_are_dropped() {
    let out = normalize_args(
        &texts(&["@modelcontextprotocol/server-filesystem@1.2.3"]),
        &windows(),
    );
    assert_eq!(out[0], "@modelcontextprotocol/server-filesystem");
    let other = texts(&["@modelcontextprotocol/server-filesystem-x@latest"]);
    assert_eq!(normalize_args(&other, &windows())[0], other[0]);
}
