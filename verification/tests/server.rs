use std::path::{Path, PathBuf};

use tower_lsp::lsp_types::Url;
use vale_ls::disk::{DirItem, Disk, Node, Place};
use vale_ls::json::{Json, Member};
use vale_ls::lsp::{Channel, Level, Notice, Position, Range};
use vale_ls::notices::{
    error_notice, install_notices, lint_notices, sync_notice, upload_notice, Upload,
};
use vale_ls::server::{
    all_alerts, first_alert, Backend, ChangeStep, CompileCall, CompileStep, CompletionStep, Links,
    ServerCommand,
};
use vale_ls::uri::Uri;
use vale_ls::vale::{Host, ValeAction, ValeAlert, ValeConfig, ValeError, ValeFix, ValeManager};

fn folder(path: &str) -> Uri {
    uri(Url::from_directory_path(path).unwrap().as_str())
}

fn uri(text: &str) -> Uri {
    Uri::read(text).unwrap()
}

/// Directory URLs round-trip with a trailing separator, which `Path`
/// ignores but `String` doesn't.
fn as_paths(roots: Vec<String>) -> Vec<PathBuf> {
    roots.iter().map(PathBuf::from).collect()
}

fn object(members: Vec<(&str, Json)>) -> Json {
    Json::Object(
        members
            .into_iter()
            .map(|(key, value)| Member {
                key: key.to_string(),
                value,
            })
            .collect(),
    )
}

fn text(s: &str) -> Json {
    Json::Text(s.to_string())
}

fn backend() -> Backend {
    Backend::new(ValeManager::new(&Host {
        arch: "Linux_64-bit".to_string(),
        vale_on_path: Some("/usr/bin/vale".to_string()),
        current_exe: None,
    }))
}

fn place(path: &str, node: Node) -> Place {
    Place {
        path: path.to_string(),
        node,
    }
}

fn directory(path: &str, names: &[&str]) -> Place {
    let items = names
        .iter()
        .map(|name| DirItem::Path(format!("{}/{}", path, name)))
        .collect();
    place(path, Node::Directory(items))
}

fn installed() -> Disk {
    Disk::new(vec![
        place("/usr/bin/vale", Node::File),
        directory("/work", &[]),
        directory("/styles", &["S"]),
        directory("/styles/S", &["R.yml"]),
        place("/styles/S/R.yml", Node::File),
    ])
    .unwrap()
}

fn styles_config() -> ValeConfig {
    ValeConfig {
        paths: vec!["/styles".to_string()],
        styles_path: None,
        vocab: None,
    }
}

fn is(n: &Notice, channel: Channel, level: Level, text: &str) -> bool {
    n.channel == channel && n.level == level && n.text == text
}

fn range(a: u32, b: u32, c: u32, d: u32) -> Range {
    Range {
        start: Position {
            line: a,
            character: b,
        },
        end: Position {
            line: c,
            character: d,
        },
    }
}

fn alert(name: Option<&str>) -> ValeAlert {
    ValeAlert {
        action: ValeAction {
            name: name.map(|s| s.to_string()),
            params: None,
        },
        check: "S.R".to_string(),
        matched: "very".to_string(),
        description: String::new(),
        link: String::new(),
        line: 1,
        span: (1, 4),
        severity: "error".to_string(),
        message: String::new(),
    }
}

#[test]
fn roots_prefer_workspace_folders() {
    let root = Some(folder("/one"));
    let folders = vec![folder("/two"), folder("/three")];

    assert_eq!(
        as_paths(Backend::workspace_roots(
            &folders,
            &root,
            Some("/cwd".to_string())
        )),
        vec![Path::new("/two"), Path::new("/three")]
    );
}

#[test]
fn roots_fall_back_to_root_uri() {
    let root = Some(folder("/one"));

    assert_eq!(
        as_paths(Backend::workspace_roots(
            &vec![],
            &root,
            Some("/cwd".to_string())
        )),
        vec![Path::new("/one")]
    );
}

#[test]
fn roots_fall_back_to_our_cwd() {
    let cwd = "/somewhere/else".to_string();
    let roots = Backend::workspace_roots(&vec![], &None, Some(cwd.clone()));

    // A client that sends neither still has to leave us somewhere to run.
    assert_eq!(roots, vec![cwd]);
}

#[test]
fn roots_that_are_no_files_are_passed_over() {
    let web = vec![uri("https://example.com/a"), folder("/two")];
    assert_eq!(
        as_paths(Backend::workspace_roots(&web, &None, None)),
        vec![Path::new("/two")]
    );
    let web = vec![uri("https://example.com/a")];
    let root = Some(uri("https://example.com/b"));
    assert_eq!(
        Backend::workspace_roots(&web, &root, Some("/c".to_string())),
        vec!["/c".to_string()]
    );
    assert!(Backend::workspace_roots(&web, &root, None).is_empty());
}

#[test]
fn innermost_root_wins() {
    let roots = vec!["/work".to_string(), "/work/docs".to_string()];

    assert_eq!(
        Backend::best_root(&roots, "/work/docs/guide.md"),
        Some("/work/docs".to_string())
    );
    assert_eq!(
        Backend::best_root(&roots, "/work/README.md"),
        Some("/work".to_string())
    );
    assert_eq!(Backend::best_root(&roots, "/elsewhere/a.md"), None);
    // `/workshop` isn't inside `/work`.
    assert_eq!(Backend::best_root(&roots, "/workshop/a.md"), None);
}

#[test]
fn depth_counts_before_length() {
    let roots = vec!["/work/docs".to_string(), "/work/././././.".to_string()];
    assert_eq!(
        Backend::best_root(&roots, "/work/docs/guide.md"),
        Some("/work/docs".to_string())
    );
    let same = vec!["/work/".to_string(), "/work".to_string()];
    assert_eq!(
        Backend::best_root(&same, "/work/a"),
        Some("/work/".to_string())
    );
}

#[test]
fn settings_may_be_scoped() {
    let scoped = object(vec![(
        "vale",
        object(vec![("configPath", text("/a/.vale.ini"))]),
    )]);
    assert_eq!(
        Backend::settings_object(scoped),
        Some(object(vec![("configPath", text("/a/.vale.ini"))]))
    );

    let flat = object(vec![("configPath", text("/a/.vale.ini"))]);
    assert_eq!(Backend::settings_object(flat.clone()), Some(flat));

    assert_eq!(Backend::settings_object(text("nonsense")), None);
}

#[test]
fn settings_are_read_back() {
    let mut b = backend();
    assert_eq!(b.get_setting("configPath"), None);
    assert_eq!(b.get_string("configPath"), "");
    assert!(!b.should_install() && !b.should_sync());

    b.parse_params(Some(object(vec![
        ("configPath", text("/a/.vale.ini")),
        ("filter", text(".Level > 1")),
        ("installVale", Json::Bool(true)),
        ("syncOnStartup", text("true")),
        ("n", Json::Number("1e3".to_string())),
        ("list", Json::Array(vec![Json::Null, text("x")])),
    ])));
    assert_eq!(b.config_path(), "/a/.vale.ini");
    assert_eq!(b.config_filter(), ".Level > 1");
    assert!(b.should_install());
    assert!(!b.should_sync());
    assert_eq!(b.get_setting("n"), Some(Json::Number("1e3".to_string())));
    assert_eq!(b.get_string("n"), "");
    assert_eq!(
        b.get_setting("list"),
        Some(Json::Array(vec![Json::Null, text("x")]))
    );

    b.parse_params(Some(text("nonsense")));
    b.parse_params(None);
    b.parse_params(Some(object(vec![
        ("configPath", text("/b")),
        ("configPath", text("/c")),
    ])));
    assert_eq!(b.config_path(), "/c");
    assert_eq!(b.config_filter(), ".Level > 1");
}

#[test]
fn configuration_changes_are_scoped_or_not() {
    let mut b = backend();
    let said = b.did_change_configuration(object(vec![(
        "vale",
        object(vec![("configPath", text("/a"))]),
    )]));
    assert!(is(&said, Channel::Log, Level::Info, "configuration changed!"));
    assert_eq!(b.config_path(), "/a");
    b.did_change_configuration(object(vec![("configPath", text("/b")), ("vale", text("x"))]));
    assert_eq!(b.config_path(), "/b");
    assert_eq!(b.get_string("vale"), "x");
    b.did_change_configuration(Json::Null);
    assert_eq!(b.config_path(), "/b");
}

#[test]
fn roots_are_read_back() {
    let mut b = backend();
    assert!(b.roots().is_empty());
    assert_eq!(b.root_path(), "");
    b.set_roots(vec!["/a".to_string(), "/b".to_string()]);
    assert_eq!(b.roots(), vec!["/a".to_string(), "/b".to_string()]);
    assert_eq!(b.root_path(), "/a");
    b.parse_params(Some(object(vec![(
        "roots",
        Json::Array(vec![text("/x"), Json::Bool(true), text("/y")]),
    )])));
    assert_eq!(b.roots(), vec!["/x".to_string(), "/y".to_string()]);
}

#[test]
fn linter_runs_in_the_innermost_root() {
    let mut b = backend();
    b.set_roots(vec!["/work".to_string(), "/work/docs".to_string()]);
    assert_eq!(b.root_for(&uri("file:///work/docs/a.md")), "/work/docs");
    assert_eq!(b.root_for(&uri("file:///elsewhere/a.md")), "/work");
    assert_eq!(b.root_for(&uri("untitled:a.md")), "/work");
    assert_eq!(b.root_for_path("/work/docs/a.md"), "/work/docs");
    b.parse_params(Some(object(vec![("root", text("/asked"))])));
    assert_eq!(b.root_for(&uri("file:///work/docs/a.md")), "/asked");
    assert_eq!(b.root_path(), "/asked");
}

#[test]
fn folders_come_and_go() {
    let mut b = backend();
    b.set_roots(vec!["/one/".to_string(), "/two".to_string()]);
    let said = b.did_change_workspace_folders(
        &vec![folder("/one"), uri("https://example.com/two")],
        &vec![folder("/three"), folder("/three"), uri("untitled:x")],
    );
    assert!(is(&said, Channel::Log, Level::Info, "workspace folders changed!"));
    assert_eq!(
        as_paths(b.roots()),
        vec![Path::new("/two"), Path::new("/three")]
    );
}

#[test]
fn client_may_name_the_program() {
    let mut b = backend();
    assert_eq!(b.vale().custom_exe, None);
    b.parse_params(Some(object(vec![("valeBinaryPath", text("/my/vale"))])));
    assert_eq!(b.vale().custom_exe, Some("/my/vale".to_string()));
    assert_eq!(b.vale().fallback_exe, "/usr/bin/vale");
}

#[test]
fn server_says_what_it_offers() {
    let mut b = backend();
    let (offer, install) = b.initialize(
        &vec![folder("/w")],
        &None,
        None,
        Some(object(vec![
            ("installVale", Json::Bool(true)),
            ("syncOnStartup", Json::Bool(true)),
        ])),
    );
    assert!(install);
    assert_eq!(as_paths(b.roots()), vec![Path::new("/w")]);
    assert_eq!(
        offer.commands,
        vec!["cli.sync".to_string(), "cli.compile".to_string()]
    );
    assert!(offer.open_close && offer.full_text_on_change && offer.text_on_save);
    assert!(offer.hover && offer.links && offer.completions && offer.quick_fixes);
    assert!(!offer.resolves_links && !offer.resolves_completions);
    assert!(offer.code_lenses && offer.resolves_code_lenses);
    assert!(offer.workspace_folders && offer.folder_changes);
    let (sync, said) = b.initialized();
    assert!(sync);
    assert!(is(&said, Channel::Log, Level::Info, "initialized!"));
}

#[test]
fn documents_are_told_apart() {
    let disk = installed();
    let config = styles_config();
    let ini = uri("file:///work/.vale.ini");
    assert!(!Backend::needs_config(&ini));
    assert_eq!(Backend::get_ext(&ini, None, &disk), "ini");

    let rule = uri("file:///styles/S/R.yml");
    assert!(Backend::needs_config(&rule));
    assert_eq!(Backend::get_ext(&rule, Some(&config), &disk), "yml");
    assert_eq!(Backend::get_ext(&rule, None, &disk), "");

    let other = uri("file:///work/ci.yml");
    assert!(Backend::needs_config(&other));
    assert_eq!(Backend::get_ext(&other, Some(&config), &disk), "");
    assert!(!Backend::needs_config(&uri("file:///work/a.md")));
    assert_eq!(
        Backend::get_ext(&uri("file:///work/a.md"), Some(&config), &disk),
        ""
    );
}

#[test]
fn configuration_is_asked_for_where_the_document_lies() {
    let mut b = backend();
    b.set_roots(vec!["/work".to_string()]);
    let call = match b.config_call(&installed(), &uri("file:///work/a.yml")) {
        Ok(call) => call,
        Err(_) => panic!("no call"),
    };
    assert_eq!(call.exe, "/usr/bin/vale");
    assert_eq!(call.args, vec!["ls-config".to_string()]);
    assert_eq!(call.cwd, Some("/work".to_string()));
    let call = match b.do_sync(&installed()) {
        Ok(call) => call,
        Err(_) => panic!("no call"),
    };
    assert_eq!(call.args, vec!["sync".to_string()]);
}

#[test]
fn only_configurations_and_rules_are_kept() {
    let mut b = backend();
    let doc = uri("file:///styles/S/R.yml");
    b.update(&doc, "", "lost");
    assert!(b.document(&doc).is_none());
    b.update(&doc, "yml", "first");
    b.update(&doc, "yml", "a\nb");
    assert_eq!(b.document(&doc).unwrap().to_string(), "a\nb");
    assert!(b.has_line(&doc, 1));
    assert!(!b.has_line(&doc, 2));
    assert!(!b.has_line(&uri("file:///x"), 0));
}

#[test]
fn changes_are_linted_or_explained() {
    let disk = installed();
    let mut b = backend();
    b.parse_params(Some(object(vec![("filter", text("f"))])));
    match b.on_change(&disk, &uri("file:///work/a.md"), "", "x") {
        ChangeStep::Lint(Ok(call)) => {
            assert_eq!(
                call.args,
                vec![
                    "--output=JSON".to_string(),
                    "--filter=f".to_string(),
                    "/work/a.md".to_string()
                ]
            );
            assert_eq!(call.cwd, Some("/work".to_string()));
        }
        _ => panic!("not linted"),
    }
    match b.on_change(&disk, &uri("untitled:a.md"), "", "x") {
        ChangeStep::Tell(said) => assert!(is(
            &said,
            Channel::Log,
            Level::Info,
            "No file path found. Is the file saved?"
        )),
        _ => panic!("linted"),
    }
    let none = Disk::new(Vec::new()).unwrap();
    let ini = uri("file:///work/.vale.ini");
    match b.on_change(&none, &ini, "ini", "x") {
        ChangeStep::Tell(said) => assert!(is(
            &said,
            Channel::Log,
            Level::Warning,
            "Vale CLI not installed!"
        )),
        _ => panic!("linted"),
    }
    assert_eq!(b.document(&ini).unwrap().to_string(), "x");
    b.parse_params(Some(object(vec![("valeBinaryPath", text("/my/vale"))])));
    match b.on_change(&disk, &ini, "ini", "x") {
        ChangeStep::Tell(said) => assert!(is(
            &said,
            Channel::Log,
            Level::Warning,
            "Configured Vale binary not found: /my/vale"
        )),
        _ => panic!("linted"),
    }
}

#[test]
fn rules_link_to_their_source() {
    let mut b = backend();
    let doc = uri("file:///styles/S/R.yml");
    let link = "https://example.com/a";
    assert!(!b.wants_rule(&doc, "yml"));
    assert!(matches!(
        b.document_link(&doc, "yml", Some(link)),
        Links::Nothing
    ));

    b.update(
        &doc,
        "yml",
        "extends: x\r\nmessage: \u{e9}\n\u{e9}: https://example.com/a # https://example.com/a\n",
    );
    assert!(b.wants_rule(&doc, "yml"));
    assert!(!b.wants_rule(&doc, "ini"));
    match b.document_link(&doc, "yml", Some(link)) {
        Links::Found(links) => {
            assert_eq!(links.len(), 1);
            assert_eq!(links[0].range, range(2, 4, 2, 25));
            assert_eq!(links[0].target, "https://example.com/a");
        }
        _ => panic!("not found"),
    }
    match b.document_link(&doc, "yml", Some("HTTPS://Example.com")) {
        Links::Found(links) => assert!(links.is_empty()),
        _ => panic!("not read"),
    }
    match b.document_link(&doc, "yml", Some("no address")) {
        Links::Invalid(said) => {
            assert!(is(&said, Channel::Show, Level::Error, "link has Invalid URL"))
        }
        _ => panic!("read"),
    }
    assert!(matches!(b.document_link(&doc, "yml", None), Links::Nothing));
    assert!(matches!(
        b.document_link(&doc, "ini", Some(link)),
        Links::Nothing
    ));
}

#[test]
fn hovers_tell_what_is_known() {
    let mut b = backend();
    let doc = uri("file:///styles/S/R.yml");
    let span = Some(range(0, 0, 0, 3));
    let key = || Some("key".to_string());
    let rule = || Some("rule".to_string());
    assert_eq!(b.hover(&doc, "yml", span, key(), rule()), None);
    b.update(&doc, "yml", "x");
    let hover = b.hover(&doc, "yml", span, key(), rule()).unwrap();
    assert_eq!(hover.value, "rule");
    assert_eq!(hover.range, range(0, 0, 0, 3));
    assert_eq!(b.hover(&doc, "ini", span, key(), rule()).unwrap().value, "key");
    assert_eq!(b.hover(&doc, "ini", span, None, rule()), None);
    assert_eq!(b.hover(&doc, "yml", span, key(), None), None);
    assert_eq!(b.hover(&doc, "yml", None, key(), rule()), None);
    assert_eq!(b.hover(&doc, "", span, key(), rule()), None);
    let unsaved = uri("untitled:x");
    b.update(&unsaved, "yml", "x");
    assert_eq!(b.hover(&unsaved, "yml", span, key(), rule()), None);
}

#[test]
fn completions_take_a_line_and_styles() {
    let mut b = backend();
    let config = styles_config();
    let ini = uri("file:///work/.vale.ini");
    assert!(matches!(
        b.completion(&ini, "ini", 7, Some(&config)),
        CompletionStep::Nothing
    ));
    b.update(&ini, "ini", "a = b\nStylesPath = ");
    match b.completion(&ini, "ini", 1, Some(&config)) {
        CompletionStep::Ini(line, styles) => {
            assert_eq!(line, "StylesPath = ");
            assert_eq!(styles, vec!["/styles".to_string()]);
        }
        _ => panic!("nothing"),
    }
    assert!(matches!(
        b.completion(&ini, "ini", 1, None),
        CompletionStep::Nothing
    ));
    let rule = uri("file:///styles/S/R.yml");
    b.update(&rule, "yml", "ext");
    match b.completion(&rule, "yml", 0, Some(&config)) {
        CompletionStep::Rule(line, path) => {
            assert_eq!(line, "ext");
            assert_eq!(path, "/styles/S/R.yml");
        }
        _ => panic!("nothing"),
    }
    assert!(matches!(
        b.completion(&rule, "", 0, Some(&config)),
        CompletionStep::Nothing
    ));
}

#[test]
fn fixes_replace_what_an_alert_is_about() {
    let fixed = ValeFix {
        suggestions: vec!["a".to_string(), "b".to_string()],
        error: String::new(),
    };
    let here = range(0, 2, 0, 6);
    assert!(Backend::code_action(&alert(None), &fixed, here).is_none());
    let fixes = Backend::code_action(&alert(Some("replace")), &fixed, here).unwrap();
    assert_eq!(fixes.len(), 2);
    assert_eq!(fixes[1].action, "replace");
    assert_eq!(fixes[1].matched, "very");
    assert_eq!(fixes[1].new_text, "b");
    assert_eq!(fixes[1].range, here);
    let fixes = Backend::code_action(&alert(Some("remove")), &fixed, here).unwrap();
    assert_eq!(fixes[0].range, range(0, 2, 0, 7));
}

#[test]
fn first_alert_is_the_one_asked_about() {
    assert_eq!(first_alert(vec![]), None);
    assert_eq!(first_alert(vec![None, Some("b".to_string())]), None);
    assert_eq!(
        first_alert(vec![Some("a".to_string()), Some("b".to_string())]),
        Some("a".to_string())
    );
}

#[test]
fn alerts_of_all_files_are_told() {
    let list = all_alerts(vec![
        vec![alert(Some("a")), alert(Some("b"))],
        vec![],
        vec![alert(Some("c"))],
    ]);
    let names: Vec<String> = list.into_iter().map(|a| a.action.name.unwrap()).collect();
    assert_eq!(names, vec!["a".to_string(), "b".to_string(), "c".to_string()]);
    assert!(all_alerts(vec![]).is_empty());
}

#[test]
fn commands_are_told_apart() {
    assert_eq!(Backend::execute_command("cli.sync"), ServerCommand::Sync);
    assert_eq!(
        Backend::execute_command("cli.compile"),
        ServerCommand::Compile
    );
    assert_eq!(
        Backend::execute_command("cli.Sync"),
        ServerCommand::Unknown
    );
}

#[test]
fn only_rules_are_compiled() {
    let disk = installed();
    let mut b = backend();
    b.set_roots(vec!["/work".to_string()]);
    match Backend::do_compile(&vec![]) {
        CompileStep::Refuse(said) => assert!(is(
            &said,
            Channel::Show,
            Level::Error,
            "No URI provided. Please try again."
        )),
        _ => panic!("not refused"),
    }
    match Backend::do_compile(&vec![text("file:///work/R.yml"), Json::Null]) {
        CompileStep::Read(address) => assert_eq!(address, "file:///work/R.yml"),
        _ => panic!("refused"),
    }
    match b.compile_rule(&disk, "/work/R.yml") {
        CompileCall::Run(Ok(call)) => {
            assert_eq!(
                call.args,
                vec!["compile".to_string(), "/work/R.yml".to_string()]
            );
            assert_eq!(call.cwd, Some("/work".to_string()));
        }
        _ => panic!("not compiled"),
    }
    match b.compile_rule(&disk, "/work/R.yaml") {
        CompileCall::Refuse(said) => assert!(is(
            &said,
            Channel::Show,
            Level::Error,
            "Only YAML files are supported; skipping compilation."
        )),
        _ => panic!("not refused"),
    }
}

#[test]
fn notices_say_what_happened() {
    assert!(is(
        &error_notice("x"),
        Channel::Log,
        Level::Error,
        "Error: x"
    ));
    assert!(is(
        &sync_notice(Ok(())),
        Channel::Show,
        Level::Info,
        "Successfully synced Vale config."
    ));
    assert!(is(
        &sync_notice(Err("x".to_string())),
        Channel::Show,
        Level::Error,
        "Failed to sync CLI: x"
    ));
    let said = install_notices(Ok("done".to_string()));
    assert_eq!(said.len(), 1);
    assert!(is(&said[0], Channel::Log, Level::Info, "done"));
    let said = install_notices(Err("no".to_string()));
    assert_eq!(said.len(), 2);
    assert!(is(&said[0], Channel::Show, Level::Info, "no"));
    assert!(is(&said[1], Channel::Log, Level::Error, "no"));
    let (logged, shown) = lint_notices("Msg", Err("why".to_string()));
    assert!(is(&logged, Channel::Log, Level::Error, "Parsing error: Msg"));
    assert!(is(&shown, Channel::Show, Level::Error, "why"));
    let error = ValeError {
        path: "p".to_string(),
        text: "t".to_string(),
        line: 1,
        span: 2,
    };
    let (_, shown) = lint_notices("Msg", Ok(error));
    assert!(is(&shown, Channel::Show, Level::Error, "p:1:2: t"));
    assert!(is(
        &upload_notice(Upload::Opened),
        Channel::Show,
        Level::Info,
        "Successfully compiled rule. Opening Regex101."
    ));
    assert!(is(
        &upload_notice(Upload::NotOpened("x".to_string())),
        Channel::Show,
        Level::Error,
        "Failed to open Regex101: x"
    ));
    assert!(is(
        &upload_notice(Upload::Failed("x".to_string())),
        Channel::Show,
        Level::Error,
        "Failed to compile rule: x"
    ));
}

#[test]
fn lines_in_pieces_are_passed_over() {
    let mut b = backend();
    let config = styles_config();
    let doc = uri("file:///styles/S/R.yml");
    let link = "https://example.com/a";
    let long = format!("{}{}", "x".repeat(100000), link);
    b.update(&doc, "yml", &format!("{}\n{}\nlast", long, link));
    match b.document_link(&doc, "yml", Some(link)) {
        Links::Found(links) => {
            assert_eq!(links.len(), 1);
            assert_eq!(links[0].range, range(1, 0, 1, 21));
        }
        _ => panic!("not found"),
    }
    match b.completion(&doc, "yml", 0, Some(&config)) {
        CompletionStep::Rule(line, _) => assert_eq!(line, ""),
        _ => panic!("nothing"),
    }
    match b.completion(&doc, "yml", 2, Some(&config)) {
        CompletionStep::Rule(line, _) => assert_eq!(line, "last"),
        _ => panic!("nothing"),
    }
}
