use vale_ls::document::{find_link, lines_of};
use vale_ls::json::{find_member, Json, Member};
use vale_ls::lsp::{Position, Range};
use vale_ls::path::{
    components_of, is_same_path, path_extension, path_file_name, path_join, path_parent,
    path_starts_with, to_native, to_portable,
};
use vale_ls::regex101::{session_page, upload_body, Regex101Session, UPLOADS};
use vale_ls::text::{contains_text, strip_prefix, trim};
use vale_ls::uri::Uri;
use vale_ls::vocab::{add_term, split_lines};
use vale_ls::workspace::change_roots;

fn list(items: &[&str]) -> Vec<String> {
    items.iter().map(|s| s.to_string()).collect()
}

#[test]
fn paths_have_components() {
    assert_eq!(components_of("/a//b/./c/"), list(&["/", "a", "b", "c"]));
    assert_eq!(components_of("./a/../b"), list(&[".", "a", "..", "b"]));
    assert!(components_of("").is_empty());
    assert!(is_same_path("/a/b/", "/a/./b"));
    assert!(!is_same_path("/a/b", "a/b"));
    assert!(path_starts_with("/a/b/c", "/a/b/"));
    assert!(!path_starts_with("/a/bc", "/a/b"));
}

#[test]
fn paths_agree_with_the_standard_library() {
    let samples = [
        "", "/", ".", "..", "a", "./a", "/a", "/a/", "/a//b", "/a/./b/.", "a/..", "../a", "/.",
        "//a", "a/b.c", "a/.c", "a/b.c.d/", "x.", "/x/.y.z", "./.", ".a", "a//", "/a/./",
    ];
    for s in samples {
        let p = std::path::Path::new(s);
        assert_eq!(
            path_parent(s),
            p.parent().map(|q| q.to_string_lossy().to_string()),
            "{}",
            s
        );
        assert_eq!(
            path_file_name(s),
            p.file_name().map(|q| q.to_string_lossy().to_string()),
            "{}",
            s
        );
        assert_eq!(
            path_extension(s),
            p.extension().map(|q| q.to_string_lossy().to_string()),
            "{}",
            s
        );
        for t in samples {
            let q = std::path::Path::new(t);
            assert_eq!(path_starts_with(s, t), p.starts_with(q), "{} {}", s, t);
            assert_eq!(is_same_path(s, t), p == q, "{} {}", s, t);
            assert_eq!(
                path_join(s, t),
                p.join(q).to_string_lossy().to_string(),
                "{} {}",
                s,
                t
            );
        }
    }
}

#[test]
fn joining_adds_a_component_and_parent_drops_it() {
    let joined = path_join("/a/b", "c");
    assert_eq!(joined, "/a/b/c");
    assert_eq!(components_of(&joined), list(&["/", "a", "b", "c"]));
    assert_eq!(path_parent(&joined), Some("/a/b".to_string()));
}

#[test]
fn texts_are_searched_and_trimmed() {
    assert!(contains_text("abcabd", "abd"));
    assert!(!contains_text("ab", "abc"));
    assert!(contains_text("", ""));
    assert_eq!(strip_prefix("v1.2", "v"), Some("1.2".to_string()));
    assert_eq!(strip_prefix("1.2", "v"), None);
    assert_eq!(trim("\u{a0}\t x y\u{2029}"), "x y");
}

#[test]
fn lines_end_with_a_line_feed() {
    assert_eq!(split_lines("a\r\nb\n\nc"), list(&["a", "b", "", "c"]));
    assert_eq!(split_lines("a\n"), list(&["a"]));
    assert!(split_lines("").is_empty());
}

#[test]
fn terms_are_ordered_without_regard_to_case() {
    assert_eq!(
        add_term("\u{c9}clair\nzebra\n", "Apple"),
        Some("Apple\nzebra\n\u{c9}clair\n".to_string())
    );
    assert_eq!(add_term("a\nB\n", "B"), None);
    let twice = add_term("b\nB\n", "a").unwrap();
    assert_eq!(twice, "a\nb\nB\n");
    assert_eq!(add_term(&twice, "a"), None);
}

#[test]
fn addresses_are_read() {
    let uri = Uri::read("file:///a%20b/../c.yml").unwrap();
    assert_eq!(uri.text, "file:///c.yml");
    assert_eq!(uri.path, "/c.yml");
    assert_eq!(uri.file_path, Some("/c.yml".to_string()));

    let uri = Uri::read("file:///a b/%C3%A9.md").unwrap();
    assert_eq!(uri.text, "file:///a%20b/%C3%A9.md");
    assert_eq!(uri.path, "/a%20b/%C3%A9.md");
    assert_eq!(uri.file_path, Some("/a b/\u{e9}.md".to_string()));

    let uri = Uri::read("HTTPS://Example.com").unwrap();
    assert_eq!(uri.text, "https://example.com/");
    assert_eq!(uri.path, "/");
    assert_eq!(uri.file_path, None);

    assert!(Uri::read("not an address").is_none());
}

#[test]
fn documents_have_lines() {
    let rope = ropey::Rope::from_str("a\r\nb\rc\u{b}d\u{2028}e\u{85}");
    let lines = lines_of(&rope);
    let lines: Vec<String> = lines.into_iter().map(|l| l.unwrap()).collect();
    assert_eq!(
        lines,
        list(&["a\r\n", "b\r", "c\u{b}", "d\u{2028}", "e\u{85}", ""])
    );
    assert_eq!(lines.concat(), rope.to_string());
}

#[test]
fn long_lines_are_in_pieces() {
    let rope = ropey::Rope::from_str(&"x".repeat(100000));
    assert_eq!(lines_of(&rope), vec![None]);
}

#[test]
fn links_are_counted_in_bytes() {
    let lines = vec![
        None,
        Some("nothing".to_string()),
        Some("\u{1f600} ab ab".to_string()),
        Some("ab".to_string()),
    ];
    let at = |line, character| Position { line, character };
    assert_eq!(
        find_link(&lines, "ab"),
        Some(Range {
            start: at(2, 5),
            end: at(2, 7)
        })
    );
    assert_eq!(find_link(&lines, "abc"), None);
    assert_eq!(
        find_link(&lines, ""),
        Some(Range {
            start: at(1, 0),
            end: at(1, 0)
        })
    );
}

#[test]
fn last_member_of_a_name_counts() {
    let member = |key: &str, value: Json| Member {
        key: key.to_string(),
        value,
    };
    let members = vec![
        member("a", Json::Null),
        member("b", Json::Bool(true)),
        member("a", Json::Bool(false)),
    ];
    assert_eq!(find_member(&members, "a"), Some(&Json::Bool(false)));
    assert_eq!(find_member(&members, "c"), None);
}

#[test]
fn patterns_are_uploaded_with_empty_parts() {
    assert_eq!(UPLOADS, "https://regex101.com/api/regex");
    let body = match upload_body("(?i)x") {
        Json::Object(members) => members,
        _ => panic!("no object"),
    };
    let keys: Vec<&str> = body.iter().map(|m| m.key.as_str()).collect();
    assert_eq!(
        keys,
        vec![
            "regex",
            "flags",
            "testString",
            "flavor",
            "delimiter",
            "substitution",
            "listSubstitution",
            "unitTests"
        ]
    );
    let text = |s: &str| Json::Text(s.to_string());
    assert_eq!(body[0].value, text("(?i)x"));
    assert_eq!(body[1].value, text("gm"));
    assert_eq!(body[2].value, text("Enter your test content here."));
    assert_eq!(body[3].value, text("pcre2"));
    assert_eq!(body[4].value, text("/"));
    assert_eq!(body[5].value, text(""));
    assert_eq!(body[6].value, text(""));
    assert_eq!(body[7].value, Json::Array(vec![]));

    let session = Regex101Session {
        version_delete_code: String::new(),
        regex_delete_code: String::new(),
        permalink_fragment: "aB3".to_string(),
        version: 1,
        is_library_entry: false,
    };
    assert_eq!(session_page(&session), "https://regex101.com/r/aB3");
}

#[test]
fn folders_are_taken_out_by_path_and_listed_once() {
    assert_eq!(
        change_roots(
            &list(&["/a", "/b/", "/c"]),
            &list(&["/b", "/x"]),
            &list(&["/c", "/d", "/d", "/b"])
        ),
        list(&["/a", "/c", "/d", "/b"])
    );
}

#[test]
fn drives_are_first_components() {
    assert_eq!(to_portable("c:\\Users\\a/b.md", true), "C:/Users/a/b.md");
    assert_eq!(to_portable("c:\\Users\\a/b.md", false), "c:\\Users\\a/b.md");
    assert_eq!(to_portable("\\\\host\\share", true), "//host/share");
    assert_eq!(to_portable("ab", true), "ab");
    let file = to_portable("c:\\a.md", true);
    assert!(is_same_path(&file, &to_portable("C:/a.md", true)));
    assert_eq!(to_portable(&file, true), file);
    let root = path_parent(&file).unwrap();
    assert_eq!(to_native(&root, true), "C:/");
    assert!(is_same_path(&to_native(&root, true), &root));
    assert_eq!(to_native("C:", false), "C:");
    assert_eq!(to_native("C:/a", true), "C:/a");
}

#[test]
fn short_documents_show_every_line() {
    let line = format!("{}\r\n", "\u{e9}".repeat(24));
    let text = line.repeat(18);
    assert_eq!(text.len(), 900);
    let lines = lines_of(&ropey::Rope::from_str(&text));
    assert_eq!(lines.len(), 19);
    assert!(lines.iter().all(|shown| shown.is_some()));
    let whole = "x".repeat(900);
    assert_eq!(lines_of(&ropey::Rope::from_str(&whole)), vec![Some(whole)]);
}
