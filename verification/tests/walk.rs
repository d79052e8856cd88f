use sonar_core::types::ContentType;
use sonar_core::walk::{
    detect_content_type, detect_language, enters_all, enters_directory, extension,
    language_for_index, pick_files, reached_entries, walk_directory, wants_content, FileEntry,
    MetEntry, MAX_FILE_BYTES,
};

fn entry(path: &str, content: &str) -> MetEntry {
    let mut directories: Vec<String> = vec!["project".to_string()];
    directories.extend(path.split('/').map(|name| name.to_string()));
    directories.pop();
    MetEntry {
        directories,
        entry: FileEntry {
            path: format!("/project/{path}"),
            relative_path: path.to_string(),
            size: Some(content.len() as u64),
            content: Some(content.to_string()),
        },
    }
}

fn names(entries: Vec<MetEntry>) -> Vec<String> {
    walk_directory(entries)
        .iter()
        .map(|f| f.relative_path.clone())
        .collect()
}

#[test]
fn test_detect_language() {
    assert_eq!(detect_language("foo.py"), Some("python".to_string()));
    assert_eq!(detect_language("bar.rs"), Some("rust".to_string()));
    assert_eq!(detect_language("baz.ts"), Some("typescript".to_string()));
    assert_eq!(detect_language("no_ext"), None);
}

#[test]
fn test_detect_content_type() {
    assert_eq!(detect_content_type("README.md"), ContentType::Docs);
    assert_eq!(detect_content_type("config.toml"), ContentType::Config);
    assert_eq!(detect_content_type("main.rs"), ContentType::Code);
}

#[test]
fn test_walk_directory_on_self() {
    let files = walk_directory(vec![
        entry("Cargo.toml", "[package]\nname = \"sonar-core\"\n"),
        entry("src/index.rs", "pub struct SonarIndex {}\n"),
        entry("src/walk.rs", "pub fn walk_directory() {}\n"),
    ]);
    assert!(
        !files.is_empty(),
        "should find at least the crate's own .rs files"
    );
    assert!(
        files.iter().any(|f| f.relative_path.ends_with(".rs")),
        "should contain .rs files"
    );
}

#[test]
fn every_extension_has_its_language() {
    let table = [
        ("python", vec!["py"]),
        ("rust", vec!["rs"]),
        ("javascript", vec!["js", "jsx", "mjs", "cjs"]),
        ("typescript", vec!["ts", "mts", "cts"]),
        ("tsx", vec!["tsx"]),
        ("go", vec!["go"]),
        ("java", vec!["java"]),
        ("ruby", vec!["rb"]),
        ("php", vec!["php"]),
        ("c", vec!["c", "h"]),
        ("cpp", vec!["cpp", "cc", "cxx", "hpp", "hxx"]),
        ("csharp", vec!["cs"]),
        ("swift", vec!["swift"]),
        ("kotlin", vec!["kt", "kts"]),
        ("scala", vec!["scala"]),
        ("dart", vec!["dart"]),
        ("lua", vec!["lua"]),
        ("bash", vec!["sh", "bash", "zsh"]),
        ("r", vec!["r", "R"]),
        ("sql", vec!["sql"]),
        ("elixir", vec!["ex", "exs"]),
        ("erlang", vec!["erl", "hrl"]),
        ("haskell", vec!["hs"]),
        ("ocaml", vec!["ml", "mli"]),
    ];
    for (language, extensions) in table.iter() {
        for e in extensions {
            assert_eq!(
                detect_language(&format!("dir/file.{e}")),
                Some(language.to_string())
            );
        }
    }
    for e in ["RS", "md", "toml", "exe", "rs "] {
        assert_eq!(detect_language(&format!("file.{e}")), None);
    }
}

#[test]
fn every_extension_has_its_content_type() {
    for e in ["md", "mdx", "rst", "txt", "adoc"] {
        assert_eq!(detect_content_type(&format!("a.{e}")), ContentType::Docs);
    }
    for e in [
        "toml", "yaml", "yml", "json", "xml", "ini", "cfg", "conf", "env", "properties",
    ] {
        assert_eq!(detect_content_type(&format!("a.{e}")), ContentType::Config);
    }
    for path in ["a.exe", "Makefile", ".env", "", "a.MD"] {
        assert_eq!(detect_content_type(path), ContentType::Code);
    }
}

#[test]
fn extension_of_unusual_paths() {
    assert_eq!(extension("a/b.tar.gz"), Some("gz".to_string()));
    assert_eq!(extension("a.d/b"), None);
    assert_eq!(extension(".bashrc"), None);
    assert_eq!(extension(".config.rs"), Some("rs".to_string()));
    assert_eq!(extension("trailing."), Some("".to_string()));
    assert_eq!(extension("dir.rs/"), Some("rs".to_string()));
    assert_eq!(extension("dir.rs//."), Some("rs".to_string()));
    assert_eq!(extension("a.rs/.."), None);
    assert_eq!(extension("..rs"), Some("rs".to_string()));
    assert_eq!(extension("/"), None);
    assert_eq!(extension("ü/é.ß"), Some("ß".to_string()));
}

#[test]
fn hidden_and_ignored_directories_are_not_entered() {
    for name in [
        ".git", ".hg", ".svn", "node_modules", "__pycache__", ".tox", "target", "build", "dist",
        ".cache", ".eggs", "venv", ".venv", ".mypy_cache", ".pytest_cache", ".ruff_cache",
        ".sonar", ".hidden", "..",
    ] {
        assert!(!enters_directory(name), "{name}");
    }
    for name in ["src", ".", "", "targets", "Build", "my.dir"] {
        assert!(enters_directory(name), "{name}");
    }
}

#[test]
fn documents_count_as_markdown_and_configuration_is_left_out() {
    assert_eq!(language_for_index("a.txt"), Some("markdown".to_string()));
    assert_eq!(language_for_index("a.json"), None);
    assert_eq!(language_for_index("a.go"), Some("go".to_string()));
    let files = walk_directory(vec![
        entry("notes.txt", "text"),
        entry("settings.json", "{}"),
        entry("unknown.bin", "x"),
    ]);
    assert_eq!(files.len(), 1);
    assert_eq!(files[0].relative_path, "notes.txt");
    assert_eq!(files[0].content, "text");
    assert_eq!(files[0].language, Some("markdown".to_string()));
    assert_eq!(files[0].content_type, ContentType::Docs);
}

#[test]
fn large_files_are_left_out() {
    assert!(wants_content("a.rs", Some(MAX_FILE_BYTES)));
    assert!(!wants_content("a.rs", Some(1_000_001)));
    assert!(wants_content("a.rs", None));
    assert!(!wants_content("a.toml", Some(1)));
    let mut large = entry("a.rs", "fn a() {}");
    large.entry.size = Some(1_000_001);
    let mut limit = entry("b.rs", "fn b() {}");
    limit.entry.size = Some(1_000_000);
    assert_eq!(names(vec![large, limit]), vec!["b.rs".to_string()]);
}

#[test]
fn blank_and_unreadable_files_are_left_out() {
    let mut unreadable = entry("c.rs", "");
    unreadable.entry.content = None;
    let picked = names(vec![
        entry("a.rs", " \t\r\n\u{a0}\u{2003}\u{3000}"),
        entry("b.rs", ""),
        unreadable,
        entry("d.rs", "\u{200b}"),
        entry("e.rs", "  x  "),
    ]);
    assert_eq!(picked, vec!["d.rs".to_string(), "e.rs".to_string()]);
}

#[test]
fn files_are_picked_one_by_one_in_order() {
    let first = || vec![entry("z.rs", "z"), entry("x.toml", "x")];
    let second = || vec![entry("a.md", "a"), entry("m.py", "m")];
    let mut both = first();
    both.extend(second());
    let mut expected = names(first());
    expected.extend(names(second()));
    assert_eq!(names(both), expected);
    assert_eq!(expected, vec!["z.rs".to_string(), "a.md".to_string(), "m.py".to_string()]);
}

#[test]
fn files_in_directories_that_are_not_entered_are_not_picked() {
    let picked = names(vec![
        entry("a.rs", "fn a() {}"),
        entry(".git/b.rs", "fn b() {}"),
        entry("src/c.rs", "fn c() {}"),
        entry("src/target/debug/d.rs", "fn d() {}"),
        entry("src/deep/.cache/x/e.rs", "fn e() {}"),
        entry("src/.hidden.rs", "fn f() {}"),
    ]);
    assert_eq!(
        picked,
        vec![
            "a.rs".to_string(),
            "src/c.rs".to_string(),
            "src/.hidden.rs".to_string()
        ]
    );
    let reached = reached_entries(vec![
        entry("z.toml", "x"),
        entry("dist/y.rs", "y"),
        entry("x.rs", "x"),
    ]);
    let paths: Vec<&str> = reached.iter().map(|e| e.relative_path.as_str()).collect();
    assert_eq!(paths, vec!["z.toml", "x.rs"]);
    assert_eq!(pick_files(reached).len(), 1);
    assert!(enters_all(&vec![]));
    assert!(enters_all(&vec![".".to_string(), "src".to_string()]));
    assert!(!enters_all(&vec!["src".to_string(), "venv".to_string()]));
}

#[test]
fn below_a_root_that_is_not_entered_nothing_is_picked() {
    for root in ["target", ".config", ".."] {
        let mut file = entry("src/a.rs", "fn a() {}");
        file.directories[0] = root.to_string();
        assert!(walk_directory(vec![file]).is_empty(), "{root}");
    }
    let mut file = entry("src/a.rs", "fn a() {}");
    file.directories[0] = ".".to_string();
    assert_eq!(walk_directory(vec![file]).len(), 1);
}
