use vale_ls::disk::{DirItem, Disk, Node, Place};
use vale_ls::error::Error;
use vale_ls::styles::{EntryType, StylesPath};

const STYLES: &str = ".github/styles";

fn dir(places: &mut Vec<Place>, path: &str, names: &[&str]) {
    let items = names
        .iter()
        .map(|name| DirItem::Path(format!("{}/{}", path, name)))
        .collect();
    places.push(Place {
        path: path.to_string(),
        node: Node::Directory(items),
    });
}

fn file(places: &mut Vec<Place>, path: &str) {
    places.push(Place {
        path: path.to_string(),
        node: Node::File,
    });
}

/// Two styles with eight rules between them, and one vocabulary.
fn repository() -> Disk {
    let mut places = Vec::new();
    dir(
        &mut places,
        STYLES,
        &[".vale-config", "Test", "config", "demo", "README.md"],
    );
    dir(&mut places, ".github/styles/.vale-config", &["0-demo.ini"]);
    file(&mut places, ".github/styles/README.md");
    dir(&mut places, ".github/styles/Test", &["Rule.yml"]);
    dir(
        &mut places,
        ".github/styles/demo",
        &[
            "Raw.yml", "Cap.yml", "CheckPOS.yml", "Ending.yml", "Filters.yml", "Meetup.yml",
            "Reading.yml", "meta.json",
        ],
    );
    dir(&mut places, ".github/styles/config", &["vocabularies"]);
    dir(&mut places, ".github/styles/config/vocabularies", &["Base"]);
    dir(
        &mut places,
        ".github/styles/config/vocabularies/Base",
        &["accept.txt"],
    );
    Disk::new(places).unwrap()
}

#[test]
fn index() {
    let disk = repository();
    let p = StylesPath::new(vec![STYLES.to_string()]);

    assert_eq!(p.count(&disk, EntryType::Style).unwrap(), 2);
    assert_eq!(p.count(&disk, EntryType::Rule).unwrap(), 8);
    assert_eq!(p.count(&disk, EntryType::Vocab).unwrap(), 1);

    let style = p
        .get_styles(&disk)
        .unwrap()
        .into_iter()
        .find(|s| s.name == "Test")
        .unwrap();

    assert_eq!(style.name, "Test");
    assert_eq!(style.size, 1);
}

#[test]
fn index_skips_missing_paths() {
    let disk = repository();
    let p = StylesPath::new(vec!["does-not-exist".to_string(), STYLES.to_string()]);

    assert_eq!(p.count(&disk, EntryType::Style).unwrap(), 2);
    assert_eq!(p.count(&disk, EntryType::Rule).unwrap(), 8);
    assert_eq!(p.count(&disk, EntryType::Vocab).unwrap(), 1);
}

#[test]
fn modern_vocab_layout() {
    let mut places = Vec::new();
    dir(&mut places, "/t", &["config", "MyStyle"]);
    dir(&mut places, "/t/config", &["vocabularies"]);
    dir(&mut places, "/t/config/vocabularies", &["Proj"]);
    dir(&mut places, "/t/config/vocabularies/Proj", &[]);
    dir(&mut places, "/t/MyStyle", &["Rule.yml"]);
    file(&mut places, "/t/MyStyle/Rule.yml");

    let disk = Disk::new(places).unwrap();
    let p = StylesPath::new(vec!["/t".to_string()]);

    // `config` holds vocabularies, dictionaries, etc. -- not styles.
    assert_eq!(p.count(&disk, EntryType::Style).unwrap(), 1);
    assert_eq!(p.count(&disk, EntryType::Rule).unwrap(), 1);

    let vocab = p.get_vocab(&disk).unwrap();
    assert_eq!(vocab.len(), 1);
    assert_eq!(vocab[0].name, "Proj");
}

#[test]
fn add_to_vocab_writes_sorted_terms() {
    let mut places = Vec::new();
    dir(&mut places, "/t/config/vocabularies/Proj", &["accept.txt"]);

    let disk = Disk::new(places).unwrap();
    let p = StylesPath::new(vec!["/t".to_string()]);
    let first = p.add_to_accept(&disk, "Proj", "alpha", "beta\n");
    assert_eq!(first.dir, "/t/config/vocabularies/Proj");
    assert_eq!(first.file, "/t/config/vocabularies/Proj/accept.txt");
    let second = p.add_to_accept(&disk, "Proj", "Gamma", &first.content.unwrap());

    // Sorted case-insensitively, and Vale wants a trailing newline.
    let content = second.content.unwrap();
    assert_eq!(content, "alpha\nbeta\nGamma\n");

    // Adding a term twice is a no-op, not a duplicate line.
    assert_eq!(
        p.add_to_accept(&disk, "Proj", "alpha", &content).content,
        None
    );

    // A vocabulary that has no file yet still works.
    let reject = p.add_to_reject(&disk, "Proj", "nope", "");
    assert_eq!(reject.file, "/t/config/vocabularies/Proj/reject.txt");
    assert_eq!(reject.content.unwrap(), "nope\n");
}

#[test]
fn add_to_vocab_honors_the_legacy_layout() {
    let mut places = Vec::new();
    dir(&mut places, "/t/Vocab/Proj", &[]);

    let disk = Disk::new(places).unwrap();
    let p = StylesPath::new(vec!["/t".to_string()]);
    let update = p.add_to_accept(&disk, "Proj", "alpha", "");

    assert_eq!(update.dir, "/t/Vocab/Proj");
    assert_eq!(update.file, "/t/Vocab/Proj/accept.txt");
    assert_eq!(update.content.unwrap(), "alpha\n");
}

#[test]
fn duplicates_are_reported_once() {
    let disk = repository();
    let p = StylesPath::new(vec![STYLES.to_string(), STYLES.to_string()]);

    // "Vale" is built in, so it's always included.
    assert_eq!(p.get_styles(&disk).unwrap().len(), 3);
    assert_eq!(p.get_vocab(&disk).unwrap().len(), 1);
    assert_eq!(p.count(&disk, EntryType::Style).unwrap(), 4);
}

#[test]
fn built_in_style_comes_first() {
    let p = StylesPath::new(Vec::new());
    let styles = p.get_styles(&Disk::new(Vec::new()).unwrap()).unwrap();

    assert_eq!(styles.len(), 1);
    assert_eq!(styles[0].name, "Vale");
    assert_eq!(styles[0].size, 4);
    assert_eq!(styles[0].path, "");
    assert_eq!(styles[0].kind, EntryType::Style);
}

#[test]
fn most_specific_entry_is_kept() {
    let mut places = Vec::new();
    dir(&mut places, "/global", &["Shared", "Only"]);
    dir(&mut places, "/global/Shared", &["A.yml", "B.yml"]);
    dir(&mut places, "/global/Only", &[]);
    dir(&mut places, "/project", &["Shared"]);
    dir(&mut places, "/project/Shared", &["A.yml"]);

    let disk = Disk::new(places).unwrap();
    let p = StylesPath::new(vec!["/global".to_string(), "/project".to_string()]);
    let found: Vec<(String, usize)> = p
        .get(&disk, EntryType::Style)
        .unwrap()
        .into_iter()
        .map(|e| (e.path, e.size))
        .collect();

    assert_eq!(
        found,
        vec![
            ("/project/Shared".to_string(), 1),
            ("/global/Only".to_string(), 0)
        ]
    );
}

#[test]
fn legacy_vocab_directory_is_indexed() {
    let mut places = Vec::new();
    dir(&mut places, "/t", &["Vocab"]);
    dir(&mut places, "/t/Vocab", &["Old", "notes.txt"]);
    dir(&mut places, "/t/Vocab/Old", &[]);
    file(&mut places, "/t/Vocab/notes.txt");

    let disk = Disk::new(places).unwrap();
    let vocab = StylesPath::new(vec!["/t".to_string()])
        .get_vocab(&disk)
        .unwrap();
    assert_eq!(vocab.len(), 1);
    assert_eq!(vocab[0].path, "/t/Vocab/Old");
    assert_eq!(vocab[0].kind, EntryType::Vocab);
}

#[test]
fn unreadable_directories_are_errors() {
    let mut places = Vec::new();
    places.push(Place {
        path: "/locked".to_string(),
        node: Node::Unreadable("permission denied".to_string()),
    });
    let disk = Disk::new(places).unwrap();
    let p = StylesPath::new(vec!["/locked".to_string()]);
    assert!(p.readable(&disk));
    assert!(matches!(
        p.count(&disk, EntryType::Rule),
        Err(Error::Io(why)) if why == "permission denied"
    ));

    let mut places = Vec::new();
    places.push(Place {
        path: "/t".to_string(),
        node: Node::Directory(vec![DirItem::Failed("gone".to_string())]),
    });
    let disk = Disk::new(places).unwrap();
    let p = StylesPath::new(vec!["/t".to_string()]);
    assert!(matches!(p.has(&disk, "/t/x"), Err(Error::Io(why)) if why == "gone"));
}

#[test]
fn styles_without_a_size_are_told() {
    let mut places = Vec::new();
    dir(&mut places, "/t", &["Style"]);
    places.push(Place {
        path: "/t/Style".to_string(),
        node: Node::Unreadable("permission denied".to_string()),
    });
    let disk = Disk::new(places).unwrap();
    assert!(!StylesPath::new(vec!["/t".to_string()]).readable(&disk));
}

#[test]
fn rules_are_found_by_path() {
    let disk = repository();
    let p = StylesPath::new(vec![STYLES.to_string()]);

    assert!(p.has(&disk, ".github/styles/Test/Rule.yml").unwrap());
    assert!(p.has(&disk, ".github/styles/Test").unwrap());
    assert!(!p.has(&disk, ".github/styles/demo/meta.json").unwrap());
    assert!(!p.has(&disk, "Test/Rule.yml").unwrap());
}

#[test]
fn project_directory_is_the_last() {
    let mut p = StylesPath::new(vec!["/global".to_string(), "/project".to_string()]);
    assert_eq!(p.path(), "/project");
    p.set_path("/other".to_string());
    assert_eq!(p.path(), "/other");
    assert_eq!(StylesPath::new(Vec::new()).path(), "");
}

#[test]
fn kinds_have_labels() {
    assert_eq!(EntryType::Style.label(), "Style");
    assert_eq!(EntryType::Vocab.label(), "Vocab");
    assert_eq!(EntryType::Rule.label(), "Rule");
}

#[test]
fn reported_paths_are_found() {
    let disk = repository();
    let p = StylesPath::new(vec![STYLES.to_string()]);
    for entry in p.get_vocab(&disk).unwrap() {
        assert!(p.has(&disk, &entry.path).unwrap());
    }
    let styles = p.get_styles(&disk).unwrap();
    assert_eq!(styles[0].path, "");
    assert_eq!(styles.len(), 3);
    for entry in &styles[1..] {
        assert!(p.has(&disk, &entry.path).unwrap());
    }
    assert!(!p.has(&disk, "").unwrap());
    let none = StylesPath::new(vec![]);
    assert!(!none.has(&disk, &styles[1].path).unwrap());
}

#[test]
fn no_directory_lists_an_empty_path() {
    let unsound = vec![Place {
        path: "/t".to_string(),
        node: Node::Directory(vec![
            DirItem::Failed("denied".to_string()),
            DirItem::Path(String::new()),
        ]),
    }];
    assert!(Disk::new(unsound).is_none());
}
