use vstabs::project::Project;
use vstabs::servers::{
    command_for, derive_remote_port, local_command, local_user_data_dir, pick_code_server,
    select_transport,
    shell_quote, spawn_outcome, ssh_command, wait_step, wsl_command, SpawnError, Transport,
    WaitAction, READY_TIMEOUT_MS,
};

fn project(id: &str, env: &str, distro: Option<&str>, host: Option<&str>) -> Project {
    Project {
        id: id.to_string(),
        name: id.to_string(),
        icon: String::new(),
        env: env.to_string(),
        wsl_distro: distro.map(|s| s.to_string()),
        ssh_host: host.map(|s| s.to_string()),
    }
}

#[test]
fn remote_port_values() {
    assert_eq!(derive_remote_port(""), 8090);
    assert_eq!(derive_remote_port("a"), 8187);
    assert_eq!(derive_remote_port("sample-cloud"), 8612);
    assert_eq!(derive_remote_port("sample-remote"), 8331);
    assert_eq!(derive_remote_port("tab-é"), 8120);
}

#[test]
fn remote_port_is_stable_and_in_range() {
    for id in ["x", "sample-wsl", "a much longer tab identifier with spaces", "ünïcødé"] {
        let p = derive_remote_port(id);
        assert_eq!(p, derive_remote_port(id));
        assert!((8090..=9089).contains(&p));
    }
}

#[test]
fn shell_quote_values() {
    assert_eq!(shell_quote("abc"), "'abc'");
    assert_eq!(shell_quote(""), "''");
    assert_eq!(shell_quote("it's"), "'it'\\''s'");
    assert_eq!(shell_quote("~/a b/$HOME"), "'~/a b/$HOME'");
}

#[test]
fn select_transport_local_and_wsl() {
    let local = project("p", "local", None, None);
    assert!(matches!(select_transport(&local, true), Ok(Transport::Local)));
    let wsl = project("p", "wsl", Some("Ubuntu"), None);
    match select_transport(&wsl, true) {
        Ok(Transport::Wsl { distro }) => assert_eq!(distro, "Ubuntu"),
        other => panic!("unexpected {:?}", other),
    }
    assert!(matches!(select_transport(&wsl, false), Ok(Transport::Local)));
    let no_distro = project("p", "wsl", None, None);
    let e = select_transport(&no_distro, true).unwrap_err();
    assert!(matches!(e, SpawnError::MissingDistro));
    assert_eq!(e.to_string(), "missing wsl_distro for wsl project");
    assert!(matches!(select_transport(&no_distro, false), Ok(Transport::Local)));
}

#[test]
fn select_transport_ssh() {
    let ssh = project("sample-cloud", "ssh", None, Some("my-cloud-host"));
    match select_transport(&ssh, false) {
        Ok(Transport::Ssh { host, remote_port }) => {
            assert_eq!(host, "my-cloud-host");
            assert_eq!(remote_port, 8612);
        }
        other => panic!("unexpected {:?}", other),
    }
    let no_host = project("p", "ssh", None, None);
    let e = select_transport(&no_host, true).unwrap_err();
    assert!(matches!(e, SpawnError::MissingSshHost));
    assert_eq!(e.to_string(), "missing ssh_host for ssh project");
}

#[test]
fn select_transport_unknown_env() {
    let p = project("p", "docker", None, None);
    let e = select_transport(&p, true).unwrap_err();
    assert!(matches!(e, SpawnError::UnsupportedEnv(ref env) if env == "docker"));
    assert_eq!(e.to_string(), "unsupported env: docker");
}

#[test]
fn io_error_message_has_its_prefix() {
    let e = SpawnError::Io(std::io::Error::new(std::io::ErrorKind::Other, "boom"));
    assert_eq!(e.to_string(), "io error: boom");
}

#[test]
fn local_command_line() {
    let c = local_command("/usr/bin/code-server", 43123, "/cfg/vstabs/backends/t");
    assert_eq!(c.program, "/usr/bin/code-server");
    assert_eq!(
        c.args,
        vec![
            "--bind-addr",
            "127.0.0.1:43123",
            "--auth",
            "none",
            "--user-data-dir",
            "/cfg/vstabs/backends/t"
        ]
    );
    assert_eq!(c.env_remove, vec!["VSCODE_IPC_HOOK_CLI", "VSCODE_IPC_HOOK", "VSCODE_PID", "VSCODE_CWD"]);
    assert!(!c.stdin_piped);
}

#[test]
fn wsl_command_line() {
    let c = wsl_command("Ubuntu", 8, "tab");
    assert_eq!(c.program, "wsl");
    assert_eq!(c.args.len(), 5);
    assert_eq!(&c.args[..4], &["-d", "Ubuntu", "bash", "-c"]);
    assert_eq!(
        c.args[4],
        "mkdir -p ~/'.local/share/vstabs/backends/tab' && env -u VSCODE_IPC_HOOK_CLI -u VSCODE_IPC_HOOK -u VSCODE_PID -u VSCODE_CWD ~/.local/bin/code-server --bind-addr 127.0.0.1:8 --auth none --user-data-dir ~/'.local/share/vstabs/backends/tab'"
    );
    assert!(c.env_remove.is_empty());
    assert!(!c.stdin_piped);
}

#[test]
fn ssh_command_line() {
    let c = ssh_command("my-cloud-host", 50000, 8612, "sample-cloud");
    assert_eq!(c.program, "ssh");
    assert_eq!(
        &c.args[..10],
        &[
            "-L",
            "127.0.0.1:50000:127.0.0.1:8612",
            "-tt",
            "-o",
            "ServerAliveInterval=30",
            "-o",
            "ServerAliveCountMax=3",
            "-o",
            "StrictHostKeyChecking=accept-new",
            "my-cloud-host"
        ]
    );
    assert_eq!(
        c.args[10],
        "exec env -u VSCODE_IPC_HOOK_CLI -u VSCODE_IPC_HOOK -u VSCODE_PID -u VSCODE_CWD bash -c 'mkdir -p ~/'\\''.local/share/vstabs/backends/sample-cloud'\\''; trap \"kill -TERM 0\" SIGTERM SIGHUP SIGINT; ~/.local/bin/code-server --bind-addr 127.0.0.1:8612 --auth none --user-data-dir ~/'\\''.local/share/vstabs/backends/sample-cloud'\\'' & CSPID=$!; wait $CSPID'"
    );
    assert_eq!(c.args.len(), 11);
    assert!(c.stdin_piped);
}

#[test]
fn command_for_follows_the_transport() {
    let c = command_for(&Transport::Local, "t", 1, "cs", "udd");
    assert_eq!(c.program, "cs");
    let c = command_for(&Transport::Wsl { distro: "Debian".to_string() }, "t", 1, "cs", "udd");
    assert_eq!(c.program, "wsl");
    assert_eq!(c.args[1], "Debian");
    let c = command_for(&Transport::Ssh { host: "h".to_string(), remote_port: 9000 }, "t", 2, "cs", "udd");
    assert_eq!(c.program, "ssh");
    assert_eq!(c.args[1], "127.0.0.1:2:127.0.0.1:9000");
}

#[test]
fn user_data_dir_with_and_without_config_dir() {
    assert_eq!(local_user_data_dir(None, "tab-1"), "./vstabs-backends/tab-1");
    let p = local_user_data_dir(Some("/home/u/.config"), "tab-1");
    let expected: std::path::PathBuf = ["/home/u/.config", "vstabs", "backends", "tab-1"].iter().collect();
    assert_eq!(p, expected.to_string_lossy());
}

#[test]
fn wait_steps() {
    assert_eq!(wait_step(0, READY_TIMEOUT_MS, None), WaitAction::Probe);
    assert_eq!(wait_step(19_999, READY_TIMEOUT_MS, None), WaitAction::Probe);
    assert_eq!(wait_step(20_000, READY_TIMEOUT_MS, None), WaitAction::Finish(false));
    assert_eq!(wait_step(5, READY_TIMEOUT_MS, Some(true)), WaitAction::Finish(true));
    assert_eq!(wait_step(5, READY_TIMEOUT_MS, Some(false)), WaitAction::Pause);
    assert_eq!(wait_step(25_000, READY_TIMEOUT_MS, Some(true)), WaitAction::Finish(true));
}

#[test]
fn spawn_outcomes() {
    let ok = spawn_outcome("p".to_string(), 4242, true).unwrap();
    assert_eq!(ok.project_id, "p");
    assert_eq!(ok.port, 4242);
    assert!(ok.running);
    let err = spawn_outcome("p".to_string(), 4242, false).unwrap_err();
    assert_eq!(err, "backend port 4242 did not become reachable within 20s");
}

#[test]
fn user_data_dir_ends_with_the_tab_id() {
    for id in ["a", "sample-cloud", "tab with space"] {
        let p = local_user_data_dir(Some("/cfg"), id);
        assert!(p.starts_with("/cfg"));
        assert!(p.ends_with(id));
        assert!(p.contains("vstabs"));
        assert!(p.contains("backends"));
    }
    assert_eq!(local_user_data_dir(Some("/cfg/"), "t"), "/cfg/vstabs/backends/t");
}

#[test]
fn code_server_program_choice() {
    assert_eq!(pick_code_server(Some("/usr/local/bin/code-server\n"), Some("/h/.local/bin/code-server")), "/usr/local/bin/code-server");
    assert_eq!(pick_code_server(Some("  \n"), Some("/h/.local/bin/code-server")), "/h/.local/bin/code-server");
    assert_eq!(pick_code_server(None, Some("/h/.local/bin/code-server")), "/h/.local/bin/code-server");
    assert_eq!(pick_code_server(None, None), "code-server");
    assert_eq!(pick_code_server(Some(""), None), "code-server");
}

#[test]
fn user_data_word_keeps_the_tilde_unquoted() {
    let c = wsl_command("Ubuntu", 8, "a'b c");
    assert!(c.args[4].starts_with("mkdir -p ~/'.local/share/vstabs/backends/a'\\''b c' && "));
    assert!(c.args[4].ends_with(" --user-data-dir ~/'.local/share/vstabs/backends/a'\\''b c'"));
}
