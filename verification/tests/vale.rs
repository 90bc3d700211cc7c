use semver::Version;
use serde_json::Value;
use vale_ls::disk::{Disk, Node, Place};
use vale_ls::error::Error;
use vale_ls::vale::{
    decode, Host, InstallPlan, InstallStep, Invocation, ValeConfig, ValeError, ValeManager, LATEST,
};
use vale_ls::version::newer_version;

fn host(arch: &str) -> Host {
    Host {
        arch: arch.to_string(),
        vale_on_path: Some("/usr/bin/vale".to_string()),
        current_exe: Some("/opt/ls/vale-ls".to_string()),
    }
}

fn manager() -> ValeManager {
    ValeManager::new(&host("Linux_64-bit"))
}

fn place(path: &str, node: Node) -> Place {
    Place {
        path: path.to_string(),
        node,
    }
}

fn disk(places: Vec<Place>) -> Disk {
    Disk::new(places).unwrap()
}

fn message<T>(r: Result<T, Error>) -> String {
    match r {
        Err(Error::Msg(text)) => text,
        Err(_) => panic!("another error"),
        Ok(_) => panic!("no error"),
    }
}

fn paths(value: &Value) -> Vec<String> {
    match value.as_array() {
        Some(list) => list
            .iter()
            .map(|v| v.as_str().unwrap().to_string())
            .collect(),
        None => Vec::new(),
    }
}

fn config(text: &str) -> ValeConfig {
    let value: Value = serde_json::from_str(text).unwrap();
    ValeConfig {
        paths: paths(&value["Paths"]),
        styles_path: value["StylesPath"].as_str().map(|s| s.to_string()),
        vocab: value.get("Vocab").map(paths),
    }
}

fn call(r: Result<Invocation, Error>) -> (String, Vec<String>, Option<String>) {
    match r {
        Ok(call) => (call.exe, call.args, call.cwd),
        Err(_) => panic!("no call"),
    }
}

#[test]
fn version() {
    let out = newer_version("3.9.1".to_string(), None);
    let out = match out {
        Ok(out) => out,
        Err(_) => panic!("an error"),
    };
    assert!(out.is_some());

    let v1 = Version::parse(&out.unwrap()).unwrap();
    assert!(v1 >= Version::parse("2.0.0").unwrap());

    let v2 = Version::parse(&ValeManager::fetch_version("v3.9.1")).unwrap();
    assert!(v2 >= Version::parse("2.0.0").unwrap());
}

#[test]
fn custom_exe_is_never_substituted() {
    let disk = disk(vec![
        place("/tmp/x", Node::Directory(Vec::new())),
        place("/tmp/x/vale", Node::File),
        place("/opt/ls/vale_bin/vale", Node::File),
        place("/usr/bin/vale", Node::File),
    ]);
    let exe = "/tmp/x/vale".to_string();

    let mgr = manager().pinned_to(Some(exe.clone()));
    assert!(mgr.is_installed(&disk));
    assert!(matches!(mgr.exe_path(&disk, false), Ok(path) if path == exe));

    // A pinned binary that isn't there is an error, not a fall back to
    // the managed or `PATH` copy.
    let missing = "/tmp/x/nope".to_string();
    let mgr = manager().pinned_to(Some(missing.clone()));

    assert!(!mgr.is_installed(&disk));
    assert!(mgr.exe_path(&disk, false).is_err());
    assert!(message(mgr.exe_path(&disk, false)).contains(&missing));

    // ...and we don't download one it was told not to use.
    match mgr.install_or_update() {
        InstallStep::Skip(text) => assert!(text.contains("skipping install")),
        InstallStep::AskLatest => panic!("asks for a version"),
    }
}

#[test]
fn cwd_falls_back_to_ours() {
    let disk = disk(vec![place("/tmp/x", Node::Directory(Vec::new()))]);

    assert_eq!(
        ValeManager::resolve_cwd(&disk, "/tmp/x"),
        Some("/tmp/x".to_string())
    );

    // A client that doesn't send `rootUri` leaves us without a root.
    assert_eq!(ValeManager::resolve_cwd(&disk, ""), None);
    assert_eq!(ValeManager::resolve_cwd(&disk, "does-not-exist"), None);
}

#[test]
fn config_paths() {
    let cfg = config(r#"{"RootINI": "/p/.vale.ini", "Paths": ["/global", "/p/styles"]}"#);

    assert_eq!(
        cfg.styles_paths(),
        vec!["/global".to_string(), "/p/styles".to_string()]
    );
}

#[test]
fn config_legacy_styles_path() {
    let cfg = config(r#"{"StylesPath": "/p/styles"}"#);
    assert_eq!(cfg.styles_paths(), vec!["/p/styles".to_string()]);
}

#[test]
fn config_without_styles() {
    let cfg = config("{}");
    assert!(cfg.styles_paths().is_empty());
}

#[test]
fn config_prefers_paths_and_lists_vocabularies() {
    let cfg = config(r#"{"Paths": ["/a"], "StylesPath": "/b", "Vocab": ["X", "Y"]}"#);
    assert_eq!(cfg.styles_paths(), vec!["/a".to_string()]);
    assert_eq!(cfg.vocabs(), vec!["X".to_string(), "Y".to_string()]);
    assert!(config("{}").vocabs().is_empty());
}

#[test]
fn programs_are_looked_for_in_order() {
    let mgr = manager();
    assert_eq!(mgr.managed_bin, "/opt/ls/vale_bin");
    assert_eq!(mgr.managed_exe, "/opt/ls/vale_bin/vale");
    assert_eq!(mgr.fallback_exe, "/usr/bin/vale");
    assert_eq!(mgr.args, vec!["--output=JSON".to_string()]);
    assert_eq!(mgr.arch, "Linux_64-bit");
    assert_eq!(mgr.custom_exe, None);

    let both = disk(vec![
        place("/opt/ls/vale_bin/vale", Node::File),
        place("/usr/bin/vale", Node::File),
    ]);
    assert!(matches!(mgr.exe_path(&both, false), Ok(p) if p == "/opt/ls/vale_bin/vale"));

    let fallback = disk(vec![place("/usr/bin/vale", Node::File)]);
    assert!(mgr.is_installed(&fallback));
    assert!(matches!(mgr.exe_path(&fallback, false), Ok(p) if p == "/usr/bin/vale"));
    assert_eq!(
        message(mgr.exe_path(&fallback, true)),
        "Vale is not installed."
    );
    assert!(!mgr.is_installed(&disk(Vec::new())));
}

#[test]
fn windows_has_another_program_and_archive() {
    let mgr = ValeManager::with_custom_exe(Some("C/vale.exe".to_string()), &host("WINDOWS_64-bit"));
    assert_eq!(mgr.managed_exe, "/opt/ls/vale_bin/vale.exe");
    assert_eq!(mgr.custom_exe, Some("C/vale.exe".to_string()));
    let d = mgr.install("3.0.1");
    assert!(d.zipped);
    assert_eq!(
        d.url,
        "https://github.com/vale-cli/vale/releases/download/v3.0.1/vale_3.0.1_WINDOWS_64-bit.zip"
    );
}

#[test]
fn a_host_that_tells_nothing_still_has_a_manager() {
    let mgr = ValeManager::new(&Host {
        arch: "macOS_arm64".to_string(),
        vale_on_path: None,
        current_exe: None,
    });
    assert_eq!(mgr.managed_bin, "vale_bin");
    assert_eq!(mgr.managed_exe, "vale_bin/vale");
    assert_eq!(mgr.fallback_exe, "");
}

#[test]
fn calls_name_configuration_filter_and_file() {
    let disk = disk(vec![
        place("/usr/bin/vale", Node::File),
        place("/w", Node::Directory(Vec::new())),
    ]);
    let mgr = manager();

    let (exe, args, cwd) = call(mgr.run(&disk, "/w/a.md", "/w/.vale.ini", "x"));
    assert_eq!(exe, "/usr/bin/vale");
    assert_eq!(
        args,
        vec!["--output=JSON", "--config=/w/.vale.ini", "--filter=x", "/w/a.md"]
    );
    assert_eq!(cwd, Some("/w".to_string()));

    let (_, args, cwd) = call(mgr.run_buffer(&disk, "/gone/a.md", "", ""));
    assert_eq!(args, vec!["--output=JSON", "--path=/gone/a.md"]);
    assert_eq!(cwd, None);

    let (_, args, cwd) = call(mgr.sync(&disk, "", "/w"));
    assert_eq!(args, vec!["sync"]);
    assert_eq!(cwd, Some("/w".to_string()));

    let (_, args, cwd) = call(mgr.config(&disk, "c", ""));
    assert_eq!(args, vec!["--config=c", "ls-config"]);
    assert_eq!(cwd, None);

    let (_, args, cwd) = call(mgr.metrics(&disk, "/w/a.md", ""));
    assert_eq!(args, vec!["ls-metrics", "/w/a.md"]);
    assert_eq!(cwd, Some("/w".to_string()));

    let (_, args, _) = call(mgr.fix(&disk, "/tmp/alert"));
    assert_eq!(args, vec!["fix", "/tmp/alert"]);

    let (_, args, _) = call(mgr.compile(&disk, "c", "/w", "/w/R.yml"));
    assert_eq!(args, vec!["--config=c", "compile", "/w/R.yml"]);

    let (_, args, cwd) = call(mgr.ask_version(&disk, false));
    assert_eq!(args, vec!["-v"]);
    assert_eq!(cwd, None);
    assert_eq!(
        message(mgr.ask_version(&disk, true)),
        "Vale is not installed."
    );
}

#[test]
fn version_is_read_from_what_the_linter_says() {
    assert_eq!(ValeManager::version("\u{3000} vale version 3.9.1\r\n"), "3.9.1");
}

#[test]
fn output_is_alerts_or_a_complaint() {
    assert!(
        matches!(ValeManager::parse_output(b"{}".to_vec(), b"x".to_vec()), Ok(t) if t == "{}")
    );
    assert_eq!(
        message(ValeManager::parse_output(Vec::new(), b"oops".to_vec())),
        "oops"
    );
    assert!(matches!(
        ValeManager::parse_output(vec![0xff], Vec::new()),
        Err(Error::Utf8)
    ));
    assert!(matches!(
        ValeManager::parse_output(b"{}".to_vec(), vec![0xc3]),
        Err(Error::Utf8)
    ));
    assert!(matches!(decode(vec![0xc3, 0xa9]), Ok(t) if t == "\u{e9}"));
}

#[test]
fn errors_of_the_linter_are_one_line() {
    let error = ValeError {
        path: "/w/.vale.ini".to_string(),
        text: "bad".to_string(),
        line: 4294967295,
        span: 10,
    };
    assert_eq!(error.message(), "/w/.vale.ini:4294967295:10: bad");
}

#[test]
fn only_another_version_is_installed() {
    let mgr = manager();
    match mgr.install_plan("3.9.1".to_string(), Some("3.9.0".to_string())) {
        Ok(InstallPlan::Install(d)) => {
            assert_eq!(d.url, "https://github.com/vale-cli/vale/releases/download/v3.9.1/vale_3.9.1_Linux_64-bit.tar.gz");
            assert!(!d.zipped);
            assert_eq!(d.dir, "/opt/ls/vale_bin");
            assert_eq!(d.message, "Vale v3.9.1 installed.");
        }
        _ => panic!("not installed"),
    }
    match mgr.install_plan("3.9.1".to_string(), Some("3.9.1".to_string())) {
        Ok(InstallPlan::UpToDate(text)) => assert_eq!(text, "Vale is up to date."),
        _ => panic!("not up to date"),
    }
    match mgr.install_plan("3.9.1".to_string(), Some("3.9.1-rc.1+b".to_string())) {
        Ok(InstallPlan::Install(_)) => {}
        _ => panic!("a pre-release is another version"),
    }
    assert!(matches!(
        mgr.install_plan("3.9.1".to_string(), Some("three".to_string())),
        Err(Error::Version(_))
    ));
    assert!(matches!(
        mgr.install_plan("nightly".to_string(), Some("3.9.1".to_string())),
        Err(Error::Version(_))
    ));
    assert!(matches!(
        mgr.install_plan("nightly".to_string(), None),
        Ok(InstallPlan::Install(_))
    ));
    assert!(matches!(mgr.install_or_update(), InstallStep::AskLatest));
    assert_eq!(
        LATEST,
        "https://api.github.com/repos/vale-cli/vale/releases/latest"
    );
}

#[test]
fn a_copy_of_a_manager_is_the_same() {
    let mgr = manager().pinned_to(Some("/x".to_string()));
    let copy = mgr.clone();
    assert_eq!(copy.managed_exe, mgr.managed_exe);
    assert_eq!(copy.custom_exe, mgr.custom_exe);
    assert_eq!(copy.args, mgr.args);
}
