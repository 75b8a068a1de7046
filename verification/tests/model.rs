//! Tests of the content model: sorting, capture, rendering, migration,
//! languages, and the error messages.

use mkdev::content::{make_contents, sort_contents, EntryKind, File, RecipeItem, WalkEntry};
use mkdev::lang::Language;
use mkdev::mkdev_error::Error;
use mkdev::recipe::Recipe;
use mkdev::tree::{repr_tree, split_components};
use mkdev::version::{ContentV1, DirectoryV1, FileV1, RecipeV1, RecipeVersions};

fn file(name: &str, content: &str) -> RecipeItem {
    RecipeItem::File(File { name: name.to_string(), content: content.to_string() })
}

fn dir(name: &str) -> RecipeItem {
    RecipeItem::Directory(name.to_string())
}

fn names(items: &[RecipeItem]) -> Vec<String> {
    items.iter().map(|it| it.name()).collect()
}

#[test]
fn sort_puts_directories_before_files() {
    let items = vec![file("b.txt", "x"), dir("z"), file("a.txt", "y"), dir("a")];
    let sorted = sort_contents(items);
    assert_eq!(names(&sorted), vec!["a", "z", "a.txt", "b.txt"]);
}

#[test]
fn sort_is_idempotent() {
    let items = vec![file("b", "1"), dir("d"), file("a", "2"), dir("c"), file("a", "3")];
    let once = sort_contents(items);
    let twice = sort_contents(once.clone());
    assert_eq!(once, twice);
}

#[test]
fn sort_keeps_every_entry() {
    let items = vec![file("same", "1"), file("same", "2"), dir("same")];
    let sorted = sort_contents(items.clone());
    assert_eq!(sorted.len(), items.len());
    for it in &items {
        assert!(sorted.contains(it));
    }
}

#[test]
fn capture_relativises_and_sorts() {
    let entries = vec![
        WalkEntry { path: "/proj".to_string(), kind: EntryKind::Dir, content: String::new() },
        WalkEntry {
            path: "/proj/src/main.rs".to_string(),
            kind: EntryKind::File,
            content: "fn main() {}".to_string(),
        },
        WalkEntry { path: "/proj/src".to_string(), kind: EntryKind::Dir, content: String::new() },
        WalkEntry {
            path: "/proj/link".to_string(),
            kind: EntryKind::Symlink,
            content: String::new(),
        },
        WalkEntry {
            path: "/proj/README.md".to_string(),
            kind: EntryKind::File,
            content: "hi".to_string(),
        },
    ];
    let items = make_contents(entries, "/proj").unwrap();
    assert_eq!(names(&items), vec!["src", "README.md", "src/main.rs"]);
    match &items[2] {
        RecipeItem::File(f) => assert_eq!(f.content, "fn main() {}"),
        _ => panic!("expected a file"),
    }
}

#[test]
fn capture_rejects_paths_outside_the_root() {
    let entries = vec![WalkEntry {
        path: "/elsewhere/file".to_string(),
        kind: EntryKind::File,
        content: String::new(),
    }];
    let err = make_contents(entries, "/proj").unwrap_err();
    match err {
        Error::Io(_, path) => assert_eq!(path, "/elsewhere/file"),
        _ => panic!("expected an I/O-class error"),
    }
}

#[test]
fn capture_and_render_agree_on_paths() {
    let entries = vec![
        WalkEntry {
            path: "/d/a.txt".to_string(),
            kind: EntryKind::File,
            content: String::new(),
        },
        WalkEntry { path: "/d/sub".to_string(), kind: EntryKind::Dir, content: String::new() },
        WalkEntry {
            path: "/d/sub/b.txt".to_string(),
            kind: EntryKind::File,
            content: String::new(),
        },
    ];
    let items = make_contents(entries, "/d").unwrap();
    let mut got = names(&items);
    got.sort();
    let mut expected = vec!["a.txt".to_string(), "sub".to_string(), "sub/b.txt".to_string()];
    expected.sort();
    assert_eq!(got, expected);
}

#[test]
fn split_components_drops_separators() {
    let comps = split_components("src/deep/mod.rs");
    assert_eq!(comps, vec!["src", "deep", "mod.rs"]);
    let comps = split_components("/leading//double/");
    assert_eq!(comps, vec!["leading", "double"]);
    let empty = split_components("");
    assert!(empty.is_empty());
}

#[test]
fn tree_rendering_reconstructs_nesting() {
    let items = vec![
        dir("src"),
        file("README.md", ""),
        file("src/main.rs", ""),
        dir("empty"),
    ];
    let rendered = repr_tree(&items);
    let expected = "\
├── empty\n\
├── src\n\
│   └── main.rs\n\
└── README.md\n";
    assert_eq!(rendered, expected);
}

#[test]
fn tree_rendering_caps_the_last_sibling() {
    let items = vec![file("only.txt", "")];
    assert_eq!(repr_tree(&items), "└── only.txt\n");
}

#[test]
fn plain_display_lists_sorted_paths() {
    let rec = Recipe {
        name: "demo".to_string(),
        description: String::new(),
        languages: vec![],
        contents: vec![file("b", ""), dir("a"), file("a/c", "")],
    };
    assert_eq!(rec.display_contents_plain(), "a\na/c\nb");
}

#[test]
fn tree_display_starts_with_the_name() {
    let rec = Recipe {
        name: "demo".to_string(),
        description: String::new(),
        languages: vec![],
        contents: vec![dir("src")],
    };
    assert_eq!(rec.display_contents(), "demo\n└── src\n");
}

#[test]
fn migration_flattens_nested_directories() {
    let v1 = RecipeV1 {
        name: "old".to_string(),
        description: "desc".to_string(),
        languages: vec!["Rust".to_string()],
        contents: vec![
            ContentV1::Directory(DirectoryV1 {
                name: "src".to_string(),
                files: vec![
                    ContentV1::File(FileV1 {
                        name: "main.rs".to_string(),
                        content: "fn main() {}".to_string(),
                    }),
                    ContentV1::Directory(DirectoryV1 {
                        name: "nested".to_string(),
                        files: vec![ContentV1::File(FileV1 {
                            name: "deep.rs".to_string(),
                            content: "deep".to_string(),
                        })],
                    }),
                ],
            }),
            ContentV1::File(FileV1 { name: "README.md".to_string(), content: "hi".to_string() }),
        ],
    };
    let rec = Recipe::from_versions(RecipeVersions::V1(v1));
    assert_eq!(rec.name, "old");
    assert_eq!(rec.description, "desc");
    assert_eq!(
        names(&rec.contents),
        vec!["src", "src/nested", "README.md", "src/main.rs", "src/nested/deep.rs"]
    );
    match &rec.contents[4] {
        RecipeItem::File(f) => assert_eq!(f.content, "deep"),
        _ => panic!("expected the deep file"),
    }
}

#[test]
fn migration_takes_the_current_shape_as_it_is() {
    let rec = Recipe {
        name: "new".to_string(),
        description: String::new(),
        languages: vec![],
        contents: vec![file("x", "y")],
    };
    let out = Recipe::from_versions(RecipeVersions::V2(rec));
    assert_eq!(out.name, "new");
    assert_eq!(names(&out.contents), vec!["x"]);
}

#[test]
fn migration_parses_coloured_language_strings() {
    let v1 = RecipeV1 {
        name: "old".to_string(),
        description: String::new(),
        languages: vec![
            "\u{1b}[38;2;255;105;180mPink\u{1b}[0m".to_string(),
            "Plain".to_string(),
        ],
        contents: vec![],
    };
    let rec = Recipe::from_versions(RecipeVersions::V1(v1));
    assert_eq!(rec.languages.len(), 2);
    assert_eq!(rec.languages[0].name, "Pink");
    assert_eq!(rec.languages[0].colour, Some((255, 105, 180)));
    assert_eq!(rec.languages[1].name, "Plain");
    assert_eq!(rec.languages[1].colour, None);
}

#[test]
fn stored_language_with_bad_escape_stays_verbatim() {
    let l = Language::from_stored("\u{1b}[38;2;999;0;0mTooRed\u{1b}[0m");
    assert_eq!(l.name, "\u{1b}[38;2;999;0;0mTooRed\u{1b}[0m");
    assert_eq!(l.colour, None);
}

#[test]
fn detected_language_parses_hex_colour() {
    let l = Language::from_detected("CSS".to_string(), Some("#663399".to_string()));
    assert_eq!(l.name, "CSS");
    assert_eq!(l.colour, Some((0x66, 0x33, 0x99)));
    let bad = Language::from_detected("Odd".to_string(), Some("#xyz".to_string()));
    assert_eq!(bad.colour, None);
    let none = Language::from_detected("None".to_string(), None);
    assert_eq!(none.colour, None);
}

#[test]
fn error_messages_carry_their_context() {
    assert_eq!(
        Error::NoneSpecified("recipes".to_string()).message(),
        "No recipes specified."
    );
    assert_eq!(
        Error::Invalid("recipe".to_string(), Some(vec!["a".to_string(), "b".to_string()]))
            .message(),
        "invalid recipe:\na\nb"
    );
    assert_eq!(Error::Invalid("recipe".to_string(), None).message(), "invalid recipe.");
    assert_eq!(
        Error::Io("ctx".to_string(), "cause".to_string()).message(),
        "ctx: cause"
    );
    assert_eq!(
        Error::DestructionWarning("demo".to_string()).message(),
        "'demo' already exists. Use -s to overwrite."
    );
}

#[test]
fn recipe_file_name_appends_the_extension() {
    let rec = Recipe {
        name: "demo".to_string(),
        description: String::new(),
        languages: vec![],
        contents: vec![],
    };
    assert_eq!(rec.file_name(), "demo.toml");
}
