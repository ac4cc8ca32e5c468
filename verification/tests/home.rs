//! The home directory: its paths, its files and this machine's name.

use recuros::home::{ensure_lines, join_path, CtxHome, FileRead, HomeError};
use recuros::slug::{machine_slug, slug};

fn strings(items: &[&str]) -> Vec<String> {
    items.iter().map(|s| s.to_string()).collect()
}

#[test]
fn slugs() {
    assert_eq!(machine_slug("DESKTOP-AB12.local"), "desktop-ab12-local");
    assert_eq!(machine_slug("  Shrey's MacBook  "), "shrey-s-macbook");
    assert_eq!(machine_slug("???"), "machine");
    assert_eq!(machine_slug("Cloud"), "cloud-host");
}

#[test]
fn slugs_lower_characters_beyond_ascii() {
    // The Kelvin sign lowers to an ASCII letter, an A with a ring does not.
    assert_eq!(machine_slug("\u{212A}2"), "k2");
    assert_eq!(machine_slug("\u{212B}b"), "b");
    // A capital I with a dot lowers to two characters.
    assert_eq!(machine_slug("\u{130}x"), "i-x");
}

#[test]
fn machine_slugs_are_safe_and_stable() {
    for name in ["--a__b--", "A.B.C", "cloud", "CLOUD!", "x y  z", "", "-"] {
        let once = machine_slug(name);
        assert!(!once.is_empty());
        assert_ne!(once, "cloud");
        assert!(once.chars().all(|c| c.is_ascii_alphanumeric() || c == '-'));
        assert!(!once.starts_with('-') && !once.ends_with('-') && !once.contains("--"));
        assert_eq!(machine_slug(&once), once);
    }
}

#[test]
fn idea_slugs_keep_underscores() {
    assert_eq!(slug("demo idea"), "demo-idea");
    assert_eq!(slug("Better Idea"), "better-idea");
    assert_eq!(slug("snake_case / Path"), "snake_case-path");
    assert_eq!(slug("_x_"), "_x_");
    assert_eq!(slug("  "), "project");
    assert_eq!(slug(&slug("A  b_C!")), slug("A  b_C!"));
}

#[test]
fn ensure_is_idempotent_and_machine_id_is_stable() {
    let home = CtxHome::at("/tmp/x/ctx".to_string());
    let first = home.ensure(false, FileRead::Missing, false, false).unwrap();
    assert!(first.created);
    assert!(first.init_git);
    assert_eq!(first.gitignore.unwrap(), ".cache/\n.machine\n.node/\n");
    assert_eq!(
        first.gitattributes.unwrap(),
        "* text=auto eol=lf\nlog/**/*.jsonl merge=union\n"
    );
    let second = home
        .ensure(true, FileRead::Text("custom\n.cache/".to_string()), true, true)
        .unwrap();
    assert!(!second.created);
    assert!(!second.init_git);
    assert_eq!(second.gitattributes, None);
    let text = second.gitignore.unwrap();
    assert_eq!(
        text, "custom\n.cache/\n.machine\n.node/\n",
        "user lines kept, missing required lines appended"
    );
    let third = home.ensure(true, FileRead::Text(text), true, true).unwrap();
    assert_eq!(third.gitignore, None);

    let (id, written) = home.machine_id(FileRead::Missing).unwrap();
    let (again, nothing) = home.machine_id(FileRead::Text(written.unwrap())).unwrap();
    assert_eq!(again, id);
    assert_eq!(nothing, None);
}

#[test]
fn a_machine_keeps_its_name_when_the_host_is_renamed() {
    let home = CtxHome::at("h".to_string());
    let (id, written) = home
        .machine_id_for(FileRead::Text(" \n".to_string()), "Old.Host")
        .unwrap();
    assert_eq!(id, "old-host");
    assert_eq!(written.as_deref(), Some("old-host\n"));
    let (id, written) = home
        .machine_id_for(FileRead::Text("old-host\n".to_string()), "New.Host")
        .unwrap();
    assert_eq!(id, "old-host");
    assert_eq!(written, None);
}

#[test]
fn unreadable_files_are_reported_with_their_path() {
    let home = CtxHome::at("/h".to_string());
    let failed = home
        .machine_id_for(FileRead::Failed("denied".to_string()), "host")
        .unwrap_err();
    assert_eq!(failed.message(), "/h/.machine: denied");
    let failed = home
        .ensure(true, FileRead::Failed("denied".to_string()), true, true)
        .unwrap_err();
    assert_eq!(failed.message(), "/h/.gitignore: denied");
    assert_eq!(
        HomeError::NoHome.message(),
        "cannot determine home directory; set CTX_HOME"
    );
}

#[test]
fn required_lines_are_found_with_space_around_them_and_carriage_returns() {
    let required = strings(&["a", "b"]);
    assert_eq!(ensure_lines("  a  \r\nb\r\n", &required), None);
    assert_eq!(ensure_lines("a\r", &required).unwrap(), "a\r\nb\n");
    assert_eq!(ensure_lines("", &required).unwrap(), "a\nb\n");
    assert_eq!(ensure_lines("ab\n", &required).unwrap(), "ab\na\nb\n");
    assert_eq!(ensure_lines("", &strings(&[])), None);
}

#[test]
fn the_home_is_where_ctx_home_says_or_in_the_home_directory() {
    let at = |named: Option<&str>, dir: Option<&str>| {
        CtxHome::locate(named.map(str::to_string), dir.map(str::to_string))
            .map(|home| home.root().to_string())
    };
    assert_eq!(at(Some("/store"), Some("/home/u")).unwrap(), "/store");
    assert_eq!(at(Some(""), Some("/home/u")).unwrap(), "/home/u/ctx");
    assert_eq!(at(None, Some("/home/u/")).unwrap(), "/home/u/ctx");
    assert!(matches!(at(None, None), Err(HomeError::NoHome)));
}

#[test]
fn paths_lie_under_the_root() {
    let home = CtxHome::at("/home/u/ctx".to_string());
    assert_eq!(home.log_dir(), "/home/u/ctx/log");
    assert_eq!(home.refs_dir(), "/home/u/ctx/refs");
    assert_eq!(home.cache_dir(), "/home/u/ctx/.cache");
    assert_eq!(home.db_path(), "/home/u/ctx/.cache/ctx.db");
    assert_eq!(home.file(".git"), "/home/u/ctx/.git");
    assert_eq!(
        home.layout(),
        strings(&[
            "/home/u/ctx/log",
            "/home/u/ctx/refs",
            "/home/u/ctx/.cache",
            "/home/u/ctx/packs"
        ])
    );
    assert_eq!(join_path("", "x"), "x");
    assert_eq!(join_path("/", "x"), "/x");
}

#[test]
fn names_keep_their_characters() {
    for name in ["a", "a-b-1", "machine", "cloud-host", "x9-y"] {
        assert_eq!(machine_slug(name), name);
        assert_eq!(slug(name), name);
    }
    assert_eq!(slug("cloud"), "cloud");
    assert_eq!(slug("a_b-_"), "a_b-_");
    let name = slug("  My_First Idea! (2)");
    assert_eq!(name, "my_first-idea-2");
    assert_eq!(name.replace('-', ""), "my_firstidea2");
}

#[test]
fn no_character_lowers_to_an_ascii_capital() {
    let mut text = String::new();
    for c in '\0'..=char::MAX {
        assert!(c.to_lowercase().all(|low| !low.is_ascii_uppercase()), "{:?}", c);
        if !c.is_ascii() && c.to_lowercase().any(|low| low.is_ascii_alphanumeric()) {
            text.push(c);
        }
    }
    for name in [slug(&text), machine_slug(&text)] {
        assert!(!name.chars().any(|c| c.is_ascii_uppercase()));
        assert_eq!(slug(&name), name);
        assert_eq!(machine_slug(&name), name);
    }
    assert_eq!(slug("\u{212A}elvin \u{130}"), "kelvin-i");
}
