//! Tests of the substitution and build engines, the command decisions, and
//! the whole evocation pipeline.

use mkdev::cli::{Cli, Delete, Evoke, Imprint, List};
use mkdev::config::Config;
use mkdev::content::{File, RecipeItem};
use mkdev::delete::delete_recipe;
use mkdev::evoke::{build_recipes, decide_overwrite, BuildStep};
use mkdev::hooks::hooks;
use mkdev::imprint::{imprint_recipe, Detected, ImprintPlan};
use mkdev::list::{list_recipe, ListPlan};
use mkdev::mkdev_error::Error;
use mkdev::output_type::OutputType;
use mkdev::recipe::Recipe;
use mkdev::subs::Replacer;

fn test_config() -> Config {
    Config {
        recipe_dir: None,
        subs: vec![
            ("dir".to_string(), "mk::dir".to_string()),
            ("name".to_string(), "mk::name".to_string()),
            ("user".to_string(), "echo bob".to_string()),
            ("fails".to_string(), "exit 3".to_string()),
        ],
    }
}

fn recipe(name: &str, contents: Vec<RecipeItem>) -> Recipe {
    Recipe { name: name.to_string(), description: String::new(), languages: vec![], contents }
}

#[test]
fn sub_resolves_the_dir_builtin() {
    let re = Replacer::new(&test_config());
    assert_eq!(re.sub("{{dir}}", "name", "/tmp/x"), "/tmp/x");
}

#[test]
fn sub_resolves_the_name_builtin() {
    let re = Replacer::new(&test_config());
    assert_eq!(re.sub("{{name}}", "proj", "/d"), "proj");
}

#[test]
fn sub_leaves_plain_text_untouched() {
    let re = Replacer::new(&test_config());
    assert_eq!(re.sub("no-placeholder-here", "n", "d"), "no-placeholder-here");
}

#[test]
fn sub_leaves_unconfigured_tokens_verbatim() {
    let re = Replacer::new(&test_config());
    assert_eq!(re.sub("{{nope}}", "n", "d"), "{{nope}}");
}

#[test]
fn sub_runs_a_command_and_strips_one_newline() {
    let re = Replacer::new(&test_config());
    assert_eq!(re.sub("hello {{user}}", "n", "d"), "hello bob");
}

#[test]
fn sub_keeps_output_of_failing_commands() {
    // A command that exits non-zero is not a failure: its captured output
    // (here: nothing) replaces the token.
    let re = Replacer::new(&test_config());
    assert_eq!(re.sub("[{{fails}}]", "n", "d"), "[]");
}

#[test]
fn sub_replaces_every_occurrence() {
    let re = Replacer::new(&test_config());
    assert_eq!(re.sub("{{name}}-{{name}}", "a", "d"), "a-a");
}

#[test]
fn sub_defaults_match_the_builtin_table() {
    let re = Replacer::new(&Config::get(None));
    assert_eq!(re.sub("{{dir}}/{{name}}", "app", "/root"), "/root/app");
}

#[test]
fn overwrite_conflict_is_reported_without_permission() {
    let err = decide_overwrite(true, false, "out/a.txt").unwrap_err();
    match err {
        Error::DestructionWarning(p) => assert_eq!(p, "out/a.txt"),
        _ => panic!("expected the overwrite conflict"),
    }
}

#[test]
fn overwrite_is_allowed_with_permission_or_no_collision() {
    assert!(decide_overwrite(true, true, "p").is_ok());
    assert!(decide_overwrite(false, false, "p").is_ok());
}

fn evoke_args(recipes: Vec<&str>, name: Option<&str>, dir: Option<&str>) -> Evoke {
    Evoke {
        recipes: recipes.into_iter().map(|s| s.to_string()).collect(),
        dir_name: dir.map(|s| s.to_string()),
        name: name.map(|s| s.to_string()),
        verbose: false,
        suppress_warnings: false,
    }
}

#[test]
fn building_nothing_is_an_error() {
    let args = evoke_args(vec![], None, Some("out"));
    let err = build_recipes(&args, &vec![], "/cwd", &test_config()).unwrap_err();
    match err {
        Error::NoneSpecified(w) => assert_eq!(w, "recipes"),
        _ => panic!("expected the none-specified error"),
    }
}

#[test]
fn building_unknown_recipes_names_them() {
    let store = vec![recipe("known", vec![])];
    let args = evoke_args(vec!["known", "ghost", "phantom"], None, Some("out"));
    let err = build_recipes(&args, &store, "/cwd", &test_config()).unwrap_err();
    match err {
        Error::Invalid(w, Some(names)) => {
            assert_eq!(w, "recipe(s)");
            assert_eq!(names, vec!["ghost", "phantom"]);
        },
        _ => panic!("expected the invalid-recipes error"),
    }
}

#[test]
fn end_to_end_demo_recipe_builds_the_planned_tree() {
    let demo = recipe(
        "demo",
        vec![
            RecipeItem::Directory("src".to_string()),
            RecipeItem::File(File {
                name: "src/{{name}}.txt".to_string(),
                content: "hello {{user}}".to_string(),
            }),
        ],
    );
    let args = evoke_args(vec!["demo"], Some("app"), Some("out"));
    let steps = build_recipes(&args, &vec![demo], "/cwd", &test_config()).unwrap();
    assert_eq!(
        steps,
        vec![
            BuildStep::MkDir { path: "out".to_string() },
            BuildStep::MkDir { path: "out/src".to_string() },
            BuildStep::PutFile {
                path: "out/src/app.txt".to_string(),
                content: "hello bob".to_string(),
            },
        ]
    );
}

#[test]
fn building_twice_gives_identical_steps() {
    let demo = recipe(
        "demo",
        vec![
            RecipeItem::Directory("{{name}}".to_string()),
            RecipeItem::File(File {
                name: "{{name}}/a.txt".to_string(),
                content: "in {{dir}}".to_string(),
            }),
        ],
    );
    let args = evoke_args(vec!["demo"], Some("p"), Some("out"));
    let first = build_recipes(&args, &vec![demo.clone()], "/cwd", &test_config()).unwrap();
    let second = build_recipes(&args, &vec![demo], "/cwd", &test_config()).unwrap();
    assert_eq!(first, second);
}

#[test]
fn evocation_name_defaults_when_absent() {
    let demo = recipe(
        "demo",
        vec![RecipeItem::Directory("{{name}}".to_string())],
    );
    let args = evoke_args(vec!["demo"], None, Some("out"));
    let steps = build_recipes(&args, &vec![demo], "/cwd", &test_config()).unwrap();
    assert_eq!(steps[1], BuildStep::MkDir { path: "out/NAME".to_string() });
}

#[test]
fn destination_defaults_to_the_working_directory() {
    let demo = recipe("demo", vec![]);
    let args = evoke_args(vec!["demo"], None, None);
    let steps = build_recipes(&args, &vec![demo], "/cwd", &test_config()).unwrap();
    assert_eq!(steps, vec![BuildStep::MkDir { path: "/cwd".to_string() }]);
}

#[test]
fn deleting_a_known_recipe_names_its_file() {
    let store = vec![recipe("demo", vec![])];
    let args = Delete { recipe: "demo".to_string() };
    assert_eq!(delete_recipe(&args, &store).unwrap(), "demo.toml");
}

#[test]
fn deleting_an_unknown_recipe_is_invalid() {
    let args = Delete { recipe: "ghost".to_string() };
    let err = delete_recipe(&args, &vec![]).unwrap_err();
    match err {
        Error::Invalid(w, Some(names)) => {
            assert_eq!(w, "recipe");
            assert_eq!(names, vec!["ghost"]);
        },
        _ => panic!("expected the invalid-recipe error"),
    }
}

#[test]
fn listing_one_recipe_finds_its_position() {
    let store = vec![recipe("a", vec![]), recipe("b", vec![])];
    let args = List { recipe: Some("b".to_string()), output_type: Some(OutputType::Plain) };
    match list_recipe(&args, &store).unwrap() {
        ListPlan::One { output_type, index } => {
            assert_eq!(output_type, OutputType::Plain);
            assert_eq!(index, 1);
        },
        _ => panic!("expected a single-recipe plan"),
    }
}

#[test]
fn listing_everything_defaults_the_style() {
    let args = List { recipe: None, output_type: None };
    match list_recipe(&args, &vec![]).unwrap() {
        ListPlan::All { output_type } => assert_eq!(output_type, OutputType::Default),
        _ => panic!("expected the whole-store plan"),
    }
}

#[test]
fn listing_everything_as_toml_warns() {
    let args = List { recipe: None, output_type: Some(OutputType::Toml) };
    assert_eq!(list_recipe(&args, &vec![]).unwrap(), ListPlan::WarnTomlAll);
}

#[test]
fn listing_an_unknown_recipe_is_invalid() {
    let args = List { recipe: Some("ghost".to_string()), output_type: None };
    assert!(list_recipe(&args, &vec![]).is_err());
}

fn imprint_args(to_nix: Option<&str>, suppress: bool) -> Imprint {
    Imprint {
        recipe: "demo".to_string(),
        description: None,
        suppress_warnings: suppress,
        to_nix: to_nix.map(|s| s.to_string()),
        exclude: vec![],
    }
}

#[test]
fn imprint_assembles_and_ranks_languages() {
    let entries = vec![mkdev::content::WalkEntry {
        path: "/p/main.rs".to_string(),
        kind: mkdev::content::EntryKind::File,
        content: "x".to_string(),
    }];
    let detected = vec![
        Detected { name: "Shell".to_string(), colour: None, count: 1 },
        Detected { name: "Rust".to_string(), colour: Some("#dea584".to_string()), count: 9 },
    ];
    let rec = Recipe::imprint("demo".to_string(), None, entries, "/p", detected).unwrap();
    assert_eq!(rec.name, "demo");
    assert_eq!(rec.description, "");
    assert_eq!(rec.languages[0].name, "Rust");
    assert_eq!(rec.languages[0].colour, Some((0xde, 0xa5, 0x84)));
    assert_eq!(rec.languages[1].name, "Shell");
    assert_eq!(rec.contents.len(), 1);
}

#[test]
fn imprinting_over_an_existing_recipe_warns() {
    let store = vec![recipe("demo", vec![])];
    let new = recipe("demo", vec![]);
    let err = imprint_recipe(&imprint_args(None, false), &new, &store).unwrap_err();
    match err {
        Error::DestructionWarning(w) => assert_eq!(w, "demo"),
        _ => panic!("expected the overwrite warning"),
    }
}

#[test]
fn imprinting_with_permission_saves() {
    let store = vec![recipe("demo", vec![])];
    let new = recipe("demo", vec![]);
    match imprint_recipe(&imprint_args(None, true), &new, &store).unwrap() {
        ImprintPlan::Save { file } => assert_eq!(file, "demo.toml"),
        _ => panic!("expected a save plan"),
    }
}

#[test]
fn imprinting_to_nix_skips_the_store() {
    let new = recipe("demo", vec![]);
    match imprint_recipe(&imprint_args(Some("out.nix"), false), &new, &vec![]).unwrap() {
        ImprintPlan::WriteNix { path } => assert_eq!(path, "out.nix"),
        _ => panic!("expected a nix plan"),
    }
}

#[test]
fn hooks_resolve_the_config_flags() {
    let args = Cli {
        command: None,
        config: Some("/etc/custom.toml".to_string()),
        gen_config: true,
        print_config: false,
        man_page: false,
    };
    let plan = hooks(&args);
    assert!(plan.print_default_config);
    assert!(!plan.print_config);
    assert!(plan.exit_early);
    assert!(!plan.warn_suppressed);
    assert_eq!(plan.config_override, Some("/etc/custom.toml".to_string()));
}

#[test]
fn hooks_without_flags_continue() {
    let args = Cli {
        command: None,
        config: None,
        gen_config: false,
        print_config: false,
        man_page: false,
    };
    let plan = hooks(&args);
    assert!(!plan.exit_early);
    assert!(!plan.write_man_pages);
    assert_eq!(plan.config_override, None);
}
