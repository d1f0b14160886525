use carapace_shortcutter::alias_table::AliasTable;
use carapace_shortcutter::args::{
    ActionType, AliasCommand, AliasSubCommand, CarapaceArgs, CreateAlias, CreateMoniker,
    ExecuteMoniker, MonikerCommand, MonikerSubCommand, RemoveAlias, RemoveMoniker,
};
use carapace_shortcutter::commands::{parse_args, CommandError, Outcome};
use carapace_shortcutter::entry::Entry;
use carapace_shortcutter::key_order::{compare_keys, KeyOrder};
use carapace_shortcutter::monikers::{clean_monikers, contains_moniker, remove_moniker};
use carapace_shortcutter::path_ext::{extension, file_stem, is_lua_file};
use carapace_shortcutter::settings::{Settings, Slot};
use carapace_shortcutter::setup::{
    moniker_file_name, moniker_status, prompt_after_detection, prompt_after_line, rc_needs_source_line, rc_source_line,
    shell_path_text, trim_white_space, white_space, PromptStep,
};
use carapace_shortcutter::shell_rc::{find_shell_rc, zsh_rc_priority, ShellRcError};
use carapace_shortcutter::shell_string::{path_to_relative, shell_escape_chars};
use carapace_shortcutter::shortcuts::{moniker_file_is_orphan, plan_sync, render_shortcuts, SyncError};
use carapace_shortcutter::text::{chars_of, contains_str};

fn text(s: &str) -> Entry {
    Entry::Text(s.to_string())
}

fn fresh_settings() -> Settings {
    let mut s = Settings::empty();
    s.setup("~/.bashrc".to_string());
    s
}

fn alias_args(sub: AliasSubCommand) -> CarapaceArgs {
    CarapaceArgs { command: ActionType::Alias(AliasCommand { subcommand: sub }) }
}

fn moniker_args(sub: MonikerSubCommand) -> CarapaceArgs {
    CarapaceArgs { command: ActionType::Moniker(MonikerCommand { subcommand: sub }) }
}

fn add(alias: &str, cmd: &str) -> CarapaceArgs {
    alias_args(AliasSubCommand::Add(CreateAlias { alias: alias.to_string(), old_command: cmd.to_string() }))
}

fn alias_pairs(settings: &Settings) -> Vec<(String, String)> {
    match &settings.aliases {
        Slot::Present(t) => t
            .entries()
            .iter()
            .map(|(k, v)| match v {
                Entry::Text(s) => (k.clone(), format!("T:{s}")),
                Entry::Other(s) => (k.clone(), format!("O:{s}")),
            })
            .collect(),
        _ => panic!("aliases not present"),
    }
}

fn moniker_names(settings: &Settings) -> Vec<String> {
    match &settings.monikers {
        Slot::Present(v) => v
            .iter()
            .map(|e| match e {
                Entry::Text(s) => s.clone(),
                Entry::Other(s) => format!("O:{s}"),
            })
            .collect(),
        _ => panic!("monikers not present"),
    }
}

#[test]
fn escape_special_characters() {
    assert_eq!(shell_escape_chars("ls --color=auto"), "ls\\ --color=auto");
    assert_eq!(shell_escape_chars("a$b`c\"d"), "a\\$b\\`c\\\"d");
    assert_eq!(shell_escape_chars("<>|;&()*?[]!{}~#\\"), "\\<\\>\\|\\;\\&\\(\\)\\*\\?\\[\\]\\!\\{\\}\\~\\#\\\\");
    assert_eq!(shell_escape_chars("it's"), r"it\'s");
    assert_eq!(shell_escape_chars("a\tb"), "a\\\tb");
    assert_eq!(shell_escape_chars("a\nb"), "a\nb");
}

#[test]
fn escape_plain_text_unchanged() {
    assert_eq!(shell_escape_chars("/home/user/.local/share/csc/shortcuts"), "/home/user/.local/share/csc/shortcuts");
    assert_eq!(shell_escape_chars(""), "");
    assert_eq!(shell_escape_chars("é-ü_ok"), "é-ü_ok");
}

#[test]
fn relative_path_replaces_home() {
    assert_eq!(path_to_relative("/home/u/.bashrc", "/home/u"), "~/.bashrc");
    assert_eq!(path_to_relative("/home/u", "/home/u"), "~");
    assert_eq!(path_to_relative("/home/u/", "/home/u"), "~/");
    assert_eq!(path_to_relative("/etc/profile", "/home/u"), "/etc/profile");
    assert_eq!(path_to_relative("/home/u/home/u", "/home/u"), "~/home/u");
}

#[test]
fn relative_path_only_for_a_leading_home_component() {
    assert_eq!(path_to_relative("/home/ab/notes", "/home/a"), "/home/ab/notes");
    assert_eq!(path_to_relative("/x/home/a/y", "/home/a"), "/x/home/a/y");
    assert_eq!(path_to_relative("/home", "/home/a"), "/home");
}

#[test]
fn relative_path_agrees_with_prefix_rule() {
    let home = "/home/user";
    let cases = ["/home/user", "/home/user/a/b", "/home/users/a", "/tmp/home/user/x", "", "/home/user/é"];
    for s in cases {
        let expected = if s == home {
            "~".to_string()
        } else if s.starts_with(&format!("{home}/")) {
            format!("~{}", &s[home.len()..])
        } else {
            s.to_string()
        };
        assert_eq!(path_to_relative(s, home), expected);
    }
}

#[test]
fn contains_text() {
    assert!(contains_str("/usr/bin/zsh", "/zsh"));
    assert!(!contains_str("/usr/bin/zsh", "/bash"));
    assert!(contains_str("abc", ""));
    assert!(!contains_str("", "a"));
    assert_eq!(chars_of("héllo"), vec!['h', 'é', 'l', 'l', 'o']);
}

#[test]
fn shell_rc_for_known_shells() {
    assert_eq!(find_shell_rc("/bin/bash", [false, false, false]), Ok(".bashrc".to_string()));
    assert_eq!(find_shell_rc("/usr/bin/fish", [false, false, false]), Ok(".config/fish/config.fish".to_string()));
    assert_eq!(find_shell_rc("/usr/bin/zsh", [false, true, true]), Ok(".config/.zshrc".to_string()));
    assert_eq!(find_shell_rc("/usr/bin/zsh", [true, true, true]), Ok(".zshrc".to_string()));
    assert_eq!(find_shell_rc("/usr/bin/zsh", [false, false, true]), Ok(".config/zsh/.zshrc".to_string()));
}

#[test]
fn shell_rc_unsupported() {
    assert_eq!(find_shell_rc("/usr/bin/zsh", [false, false, false]), Err(ShellRcError::Unsupported));
    assert_eq!(find_shell_rc("/bin/tcsh", [true, true, true]), Err(ShellRcError::Unsupported));
    assert_eq!(find_shell_rc("bash", [false, false, false]), Err(ShellRcError::Unsupported));
    assert_eq!(zsh_rc_priority(), vec![".zshrc".to_string(), ".config/.zshrc".to_string(), ".config/zsh/.zshrc".to_string()]);
}

#[test]
fn key_order_is_code_point_order() {
    let c = |a: &str, b: &str| compare_keys(&chars_of(a), &chars_of(b));
    assert_eq!(c("a", "b"), KeyOrder::Less);
    assert_eq!(c("b", "a"), KeyOrder::Greater);
    assert_eq!(c("ab", "ab"), KeyOrder::Equal);
    assert_eq!(c("ab", "abc"), KeyOrder::Less);
    assert_eq!(c("Z", "a"), KeyOrder::Less);
    assert_eq!(c("", "a"), KeyOrder::Less);
}

#[test]
fn alias_table_keeps_key_order() {
    let mut t = AliasTable::new();
    assert!(t.is_empty());
    assert!(t.insert("ls".to_string(), text("ls --color=auto")).is_none());
    assert!(t.insert("gs".to_string(), text("git status")).is_none());
    assert!(t.insert("zz".to_string(), Entry::Other("42".to_string())).is_none());
    assert!(t.insert("a".to_string(), text("echo a")).is_none());
    let keys: Vec<String> = t.entries().iter().map(|(k, _)| k.clone()).collect();
    assert_eq!(keys, vec!["a", "gs", "ls", "zz"]);
    // ordered as a BTreeMap would order them
    let mut b = std::collections::BTreeMap::new();
    for k in ["ls", "gs", "zz", "a"] {
        b.insert(k.to_string(), ());
    }
    assert_eq!(keys, b.keys().cloned().collect::<Vec<_>>());
}

#[test]
fn alias_table_insert_replaces_and_remove_returns() {
    let mut t = AliasTable::new();
    t.insert("ls".to_string(), text("ls -a"));
    match t.insert("ls".to_string(), text("ls -l")) {
        Some(Entry::Text(s)) => assert_eq!(s, "ls -a"),
        other => panic!("unexpected {other:?}"),
    }
    assert_eq!(t.entries().len(), 1);
    match t.remove(&"ls".to_string()) {
        Some(Entry::Text(s)) => assert_eq!(s, "ls -l"),
        other => panic!("unexpected {other:?}"),
    }
    assert!(t.remove(&"ls".to_string()).is_none());
    assert!(t.is_empty());
}

#[test]
fn alias_table_retain_text() {
    let mut t = AliasTable::new();
    t.insert("b".to_string(), Entry::Other("true".to_string()));
    t.insert("a".to_string(), text("x"));
    t.insert("c".to_string(), text("y"));
    t.retain_text();
    let keys: Vec<String> = t.entries().iter().map(|(k, _)| k.clone()).collect();
    assert_eq!(keys, vec!["a", "c"]);
}

#[test]
fn setup_fills_missing_keys_only() {
    let mut s = Settings::empty();
    assert!(s.needs_setup());
    s.setup("~/.zshrc".to_string());
    assert!(!s.needs_setup());
    assert!(matches!(&s.rc_file, Some(Entry::Text(r)) if r == "~/.zshrc"));
    assert!(matches!(&s.aliases, Slot::Present(t) if t.is_empty()));
    assert!(matches!(&s.monikers, Slot::Present(v) if v.is_empty()));

    let mut s = Settings { rc_file: None, aliases: Slot::Mismatched("[]".to_string()), monikers: Slot::Absent };
    assert!(!s.needs_setup());
    s.setup("x".to_string());
    assert!(matches!(&s.aliases, Slot::Mismatched(j) if j == "[]"));
    assert!(matches!(&s.monikers, Slot::Present(_)));
}

#[test]
fn alias_add_and_replace() {
    let mut s = fresh_settings();
    match parse_args(add("ls", "ls --color=auto"), &mut s) {
        Ok(Outcome::AliasAdded { alias, old_command, replaced: None }) => {
            assert_eq!(alias, "ls");
            assert_eq!(old_command, "ls --color=auto");
        },
        other => panic!("unexpected {other:?}"),
    }
    match parse_args(add("ls", "ls -la"), &mut s) {
        Ok(Outcome::AliasAdded { replaced: Some(Entry::Text(old)), .. }) => assert_eq!(old, "ls --color=auto"),
        other => panic!("unexpected {other:?}"),
    }
    assert_eq!(alias_pairs(&s), vec![("ls".to_string(), "T:ls -la".to_string())]);
}

#[test]
fn alias_commands_drop_non_string_values() {
    let mut s = fresh_settings();
    if let Slot::Present(t) = &mut s.aliases {
        t.insert("n".to_string(), Entry::Other("5".to_string()));
        t.insert("k".to_string(), text("keep"));
    }
    parse_args(add("a", "b"), &mut s).unwrap();
    assert_eq!(
        alias_pairs(&s),
        vec![("a".to_string(), "T:b".to_string()), ("k".to_string(), "T:keep".to_string())]
    );
}

#[test]
fn alias_delete() {
    let mut s = fresh_settings();
    parse_args(add("gs", "git status"), &mut s).unwrap();
    match parse_args(alias_args(AliasSubCommand::Del(RemoveAlias { alias: "gs".to_string() })), &mut s) {
        Ok(Outcome::AliasDeleted { alias, command: Entry::Text(c) }) => {
            assert_eq!(alias, "gs");
            assert_eq!(c, "git status");
        },
        other => panic!("unexpected {other:?}"),
    }
    match parse_args(alias_args(AliasSubCommand::Del(RemoveAlias { alias: "gs".to_string() })), &mut s) {
        Ok(Outcome::AliasNotFound { alias }) => assert_eq!(alias, "gs"),
        other => panic!("unexpected {other:?}"),
    }
    assert!(alias_pairs(&s).is_empty());
}

#[test]
fn alias_list_in_key_order() {
    let mut s = fresh_settings();
    parse_args(add("z", "1"), &mut s).unwrap();
    parse_args(add("m", "2"), &mut s).unwrap();
    parse_args(add("a", "3"), &mut s).unwrap();
    match parse_args(alias_args(AliasSubCommand::List), &mut s) {
        Ok(Outcome::AliasList { aliases }) => assert_eq!(
            aliases,
            vec![
                ("a".to_string(), "3".to_string()),
                ("m".to_string(), "2".to_string()),
                ("z".to_string(), "1".to_string())
            ]
        ),
        other => panic!("unexpected {other:?}"),
    }
    let mut empty = fresh_settings();
    match parse_args(alias_args(AliasSubCommand::List), &mut empty) {
        Ok(Outcome::AliasList { aliases }) => assert!(aliases.is_empty()),
        other => panic!("unexpected {other:?}"),
    }
}

#[test]
fn alias_errors_for_missing_or_wrong_key() {
    let mut s = Settings::empty();
    assert!(matches!(parse_args(add("a", "b"), &mut s), Err(CommandError::AliasesKeyMissing)));
    let mut s = Settings { rc_file: None, aliases: Slot::Mismatched("3".to_string()), monikers: Slot::Absent };
    assert!(matches!(parse_args(add("a", "b"), &mut s), Err(CommandError::AliasesNotObject)));
}

#[test]
fn moniker_errors_for_missing_or_wrong_key() {
    let mut s = Settings::empty();
    assert!(matches!(parse_args(moniker_args(MonikerSubCommand::List), &mut s), Err(CommandError::MonikersKeyMissing)));
    let mut s = Settings { rc_file: None, aliases: Slot::Absent, monikers: Slot::Mismatched("{}".to_string()) };
    assert!(matches!(parse_args(moniker_args(MonikerSubCommand::List), &mut s), Err(CommandError::MonikersNotArray)));
}

#[test]
fn moniker_create_requires_lua() {
    let mut s = fresh_settings();
    let req = CreateMoniker { moniker: "fancy".to_string(), moniker_path: "scripts/fancy.py".to_string() };
    assert!(matches!(parse_args(moniker_args(MonikerSubCommand::Create(req)), &mut s), Err(CommandError::NotLuaFile)));
    let req = CreateMoniker { moniker: "fancy".to_string(), moniker_path: "scripts/fancy.lua".to_string() };
    match parse_args(moniker_args(MonikerSubCommand::Create(req)), &mut s) {
        Ok(Outcome::MonikerCreated { moniker, moniker_path, already_present: false }) => {
            assert_eq!(moniker, "fancy");
            assert_eq!(moniker_path, "scripts/fancy.lua");
        },
        other => panic!("unexpected {other:?}"),
    }
    assert_eq!(moniker_names(&s), vec!["fancy"]);
}

#[test]
fn moniker_create_twice_appends_again() {
    let mut s = fresh_settings();
    for _ in 0..2 {
        let req = CreateMoniker { moniker: "m".to_string(), moniker_path: "m.lua".to_string() };
        parse_args(moniker_args(MonikerSubCommand::Create(req)), &mut s).unwrap();
    }
    assert_eq!(moniker_names(&s), vec!["m", "m"]);
    // the next moniker command drops the repetition
    match parse_args(moniker_args(MonikerSubCommand::List), &mut s) {
        Ok(Outcome::MonikerList { monikers }) => assert_eq!(monikers, vec!["m"]),
        other => panic!("unexpected {other:?}"),
    }
}

#[test]
fn moniker_remove() {
    let mut s = fresh_settings();
    let req = CreateMoniker { moniker: "x".to_string(), moniker_path: "/tmp/x.lua".to_string() };
    parse_args(moniker_args(MonikerSubCommand::Create(req)), &mut s).unwrap();
    match parse_args(moniker_args(MonikerSubCommand::Remove(RemoveMoniker { moniker: "x".to_string() })), &mut s) {
        Ok(Outcome::MonikerRemoved { moniker }) => assert_eq!(moniker, "x"),
        other => panic!("unexpected {other:?}"),
    }
    assert!(moniker_names(&s).is_empty());
    match parse_args(moniker_args(MonikerSubCommand::Remove(RemoveMoniker { moniker: "x".to_string() })), &mut s) {
        Ok(Outcome::MonikerNotFound { moniker }) => assert_eq!(moniker, "x"),
        other => panic!("unexpected {other:?}"),
    }
}

#[test]
fn moniker_execute_and_setup_are_refused_here() {
    let mut s = fresh_settings();
    let exec = ExecuteMoniker { moniker: "m".to_string(), args: vec![] };
    assert!(matches!(
        parse_args(moniker_args(MonikerSubCommand::Execute(exec)), &mut s),
        Err(CommandError::ExecuteAfterParsing)
    ));
    assert!(matches!(
        parse_args(CarapaceArgs { command: ActionType::Setup }, &mut s),
        Err(CommandError::SetupAfterSetup)
    ));
}

#[test]
fn moniker_list_cleans() {
    let mut v = vec![text("a"), Entry::Other("1".to_string()), text("b"), text("a"), text("c"), text("b")];
    clean_monikers(&mut v);
    let names: Vec<String> = v.iter().map(|e| match e { Entry::Text(s) => s.clone(), Entry::Other(s) => s.clone() }).collect();
    assert_eq!(names, vec!["a", "b", "c"]);
    assert!(contains_moniker(&v, &"b".to_string()));
    remove_moniker(&mut v, &"b".to_string());
    assert!(!contains_moniker(&v, &"b".to_string()));
    assert_eq!(v.len(), 2);
}

#[test]
fn extension_follows_path_rules() {
    assert_eq!(extension("a/b/script.lua"), "lua");
    assert_eq!(extension("script.tar.gz"), "gz");
    assert_eq!(extension(".lua"), "");
    assert_eq!(extension("..lua"), "lua");
    assert_eq!(extension("noext"), "");
    assert_eq!(extension("dir/"), "");
    assert_eq!(extension("x.lua/"), "lua");
    assert_eq!(extension(".."), "");
    assert!(is_lua_file("~/m.lua"));
    assert!(!is_lua_file("~/m.LUA"));
    for p in ["a/b/script.lua", "script.tar.gz", ".lua", "..lua", "noext", "x.lua/", "a/.", "..", "a/..", "./x.lua", "/", "a//b.lua", "x.lua/./", "", "."] {
        let std_ext = std::path::Path::new(p).extension().unwrap_or_default().to_str().unwrap().to_string();
        assert_eq!(extension(p), std_ext);
    }
}

#[test]
fn shortcuts_file_text() {
    let mut t = AliasTable::new();
    t.insert("ls".to_string(), text("ls --color=auto"));
    t.insert("q".to_string(), text("say \"hi\""));
    t.insert("n".to_string(), Entry::Other("42".to_string()));
    let monikers = vec![text("fancy"), text("other")];
    let r = render_shortcuts(&t, &monikers);
    assert!(r.complete);
    assert_eq!(
        r.text,
        "alias ls=\"ls --color=auto\"\nalias n=42\nalias q=\"say \\\"hi\\\"\"\nalias fancy='csc moniker execute fancy'\nalias other='csc moniker execute other'\n"
    );
}

#[test]
fn shortcuts_file_stops_at_non_string_moniker() {
    let t = AliasTable::new();
    let monikers = vec![text("a"), Entry::Other("7".to_string()), text("b")];
    let r = render_shortcuts(&t, &monikers);
    assert!(!r.complete);
    assert_eq!(r.text, "alias a='csc moniker execute a'\n");
}

#[test]
fn sync_requires_both_collections() {
    assert!(matches!(plan_sync(&Settings::empty()), Err(SyncError::AliasesKeyMissing)));
    let s = Settings { rc_file: None, aliases: Slot::Mismatched("1".to_string()), monikers: Slot::Absent };
    assert!(matches!(plan_sync(&s), Err(SyncError::AliasesNotObject)));
    let s = Settings { rc_file: None, aliases: Slot::Present(AliasTable::new()), monikers: Slot::Absent };
    assert!(matches!(plan_sync(&s), Err(SyncError::MonikersKeyMissing)));
    let s = Settings { rc_file: None, aliases: Slot::Present(AliasTable::new()), monikers: Slot::Mismatched("1".to_string()) };
    assert!(matches!(plan_sync(&s), Err(SyncError::MonikersNotArray)));
    match plan_sync(&fresh_settings()) {
        Ok(sc) => {
            assert!(sc.complete);
            assert_eq!(sc.text, "");
        },
        Err(e) => panic!("unexpected {e:?}"),
    }
}

#[test]
fn orphan_moniker_files() {
    let monikers = vec![text("keep")];
    assert!(!moniker_file_is_orphan(&monikers, &"keep".to_string()));
    assert!(moniker_file_is_orphan(&monikers, &"stale".to_string()));
}

#[test]
fn rc_source_line_text() {
    assert_eq!(
        rc_source_line("/home/u/.local/share/carapace-shortcutter/shortcuts", "/home/u"),
        ". ~/.local/share/carapace-shortcutter/shortcuts # Generated by carapace-shortcutter\n"
    );
    assert_eq!(shell_path_text("/home/u/my dir/s", "/home/u"), "~/my\\ dir/s");
    assert!(rc_needs_source_line("export X=1\n", "/home/u/s", "/home/u"));
    assert!(!rc_needs_source_line(". ~/s # Generated by carapace-shortcutter\n", "/home/u/s", "/home/u"));
}

#[test]
fn moniker_run_helpers() {
    assert_eq!(moniker_file_name("ls-fancy"), "ls-fancy.lua");
    assert_eq!(moniker_status(None), Ok(()));
    assert_eq!(moniker_status(Some(0)), Ok(()));
    assert_eq!(moniker_status(Some(3)), Err(3));
    assert_eq!(moniker_status(Some(-1)), Err(-1));
}

/// How a shell reads escaped text back: a backslash makes the next character literal.
fn unescape(s: &str) -> String {
    let mut out = String::new();
    let mut chars = s.chars();
    while let Some(c) = chars.next() {
        if c == '\\' {
            match chars.next() {
                Some(d) => out.push(d),
                None => out.push(c),
            }
        } else {
            out.push(c);
        }
    }
    out
}

#[test]
fn escape_round_trip() {
    for s in ["plain", "a b", "\\\\", "$(rm -rf ~)", "x\\", "ü#!{}", "it's", "t\tab", ""] {
        assert_eq!(unescape(&shell_escape_chars(s)), s);
    }
}

#[test]
fn alias_add_twice_is_add_once() {
    let mut s = fresh_settings();
    parse_args(add("ll", "ls -l"), &mut s).unwrap();
    let once = alias_pairs(&s);
    match parse_args(add("ll", "ls -l"), &mut s) {
        Ok(Outcome::AliasAdded { replaced: Some(Entry::Text(old)), .. }) => assert_eq!(old, "ls -l"),
        other => panic!("unexpected {other:?}"),
    }
    assert_eq!(alias_pairs(&s), once);
}

#[test]
fn setup_twice_is_setup_once() {
    let mut s = Settings::empty();
    s.setup("~/.bashrc".to_string());
    parse_args(add("a", "b"), &mut s).unwrap();
    let before = alias_pairs(&s);
    s.setup("~/.bashrc".to_string());
    assert_eq!(alias_pairs(&s), before);
    assert!(matches!(&s.rc_file, Some(Entry::Text(r)) if r == "~/.bashrc"));
    assert!(!s.needs_setup());
}

#[test]
fn moniker_create_then_remove_leaves_others() {
    let mut s = fresh_settings();
    if let Slot::Present(v) = &mut s.monikers {
        v.push(text("keep"));
        v.push(Entry::Other("null".to_string()));
    }
    let req = CreateMoniker { moniker: "tmp".to_string(), moniker_path: "tmp.lua".to_string() };
    parse_args(moniker_args(MonikerSubCommand::Create(req)), &mut s).unwrap();
    parse_args(moniker_args(MonikerSubCommand::Remove(RemoveMoniker { moniker: "tmp".to_string() })), &mut s).unwrap();
    assert_eq!(moniker_names(&s), vec!["keep"]);
}

#[test]
fn two_monikers_give_two_lines() {
    let t = AliasTable::new();
    let r = render_shortcuts(&t, &vec![text("a"), text("b")]);
    assert!(r.complete);
    assert_eq!(r.text, "alias a='csc moniker execute a'\nalias b='csc moniker execute b'\n");
}

#[test]
fn alias_values_quoted_as_serde_json_does() {
    let mut t = AliasTable::new();
    let tricky = "tab\tnl\ncr\rbs\\q\"bell\u{7}ff\u{c}bk\u{8}del\u{7f}é";
    t.insert("x".to_string(), text(tricky));
    let r = render_shortcuts(&t, &vec![]);
    assert_eq!(r.text, format!("alias x={}\n", serde_json::to_string(tricky).unwrap()));
    assert_eq!(r.text, "alias x=\"tab\\tnl\\ncr\\rbs\\\\q\\\"bell\\u0007ff\\fbk\\bdel\u{7f}é\"\n");
}

#[test]
fn white_space_trimming() {
    for c in (0u32..0x11000).filter_map(char::from_u32) {
        assert_eq!(white_space(c), c.is_whitespace(), "{c:?}");
    }
    for s in ["  .zshrc \n", "\u{3000}x y\t", "", " \n", "a"] {
        assert_eq!(trim_white_space(s), s.trim());
    }
}

#[test]
fn setup_prompt_steps() {
    assert_eq!(prompt_after_line("\n"), PromptStep::DetectRcFile);
    assert_eq!(prompt_after_line("  \t\n"), PromptStep::DetectRcFile);
    assert_eq!(prompt_after_line(" .zshrc\n"), PromptStep::UseRcFile(".zshrc".to_string()));
    assert_eq!(prompt_after_line("\n.bashrc\n"), PromptStep::UseRcFile(".bashrc".to_string()));
    assert_eq!(prompt_after_detection(None), PromptStep::AskAgain);
    assert_eq!(prompt_after_detection(Some(".bashrc".to_string())), PromptStep::UseRcFile(".bashrc".to_string()));
}

#[test]
fn file_stem_matches_std() {
    for p in ["/d/monikers/ls.lua", "/d/monikers/a.b.lua", "/d/.hidden", "/d/x.", "/d/noext", "/d/..lua", "x.lua/", "/", ".."] {
        let std_stem = std::path::Path::new(p)
            .with_extension("")
            .file_name()
            .map(|f| f.to_string_lossy().into_owned());
        if p != "/d/..lua" {
            // `with_extension("")` leaves "/d/." here, which has no file name
            assert_eq!(file_stem(p), std_stem, "{p}");
        }
        let doc_stem = std::path::Path::new(p).file_stem().map(|f| f.to_string_lossy().into_owned());
        assert_eq!(file_stem(p), doc_stem, "{p}");
    }
}

#[test]
fn second_setup_finds_source_line() {
    let home = "/home/u";
    let path = "/home/u/.local/share/carapace-shortcutter/shortcuts";
    let mut rc = "export A=1\n".to_string();
    assert!(rc_needs_source_line(&rc, path, home));
    rc.push_str(&rc_source_line(path, home));
    assert!(!rc_needs_source_line(&rc, path, home));
}

#[test]
fn alias_add_shows_in_shortcuts_file() {
    let mut s = fresh_settings();
    parse_args(add("b", "two"), &mut s).unwrap();
    parse_args(add("a", "one"), &mut s).unwrap();
    let sc = plan_sync(&s).unwrap();
    assert!(sc.text.contains("alias a=\"one\"\n"));
    assert_eq!(sc.text, "alias a=\"one\"\nalias b=\"two\"\n");
}

#[test]
fn moniker_commands_leave_clean_list() {
    let mut s = fresh_settings();
    if let Slot::Present(v) = &mut s.monikers {
        v.extend([text("x"), text("x"), Entry::Other("1".to_string()), text("y")]);
    }
    parse_args(moniker_args(MonikerSubCommand::Remove(RemoveMoniker { moniker: "y".to_string() })), &mut s).unwrap();
    assert_eq!(moniker_names(&s), vec!["x"]);
    let req = CreateMoniker { moniker: "z".to_string(), moniker_path: "z.lua".to_string() };
    parse_args(moniker_args(MonikerSubCommand::Create(req)), &mut s).unwrap();
    assert_eq!(moniker_names(&s), vec!["x", "z"]);
}
