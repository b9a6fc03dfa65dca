use waylandcraft::apps::{
    app_from_shortcut, builtin_apps, collect_apps, exe_app, find_app, find_app_by_exec,
    is_squirrel_update, lnk_squirrel_exe, make_builtin, newest_squirrel_app_exe, parse_lnk_file,
    pick_squirrel_exe, squirrel_process_start, to_raw, DesktopApp, SquirrelPick,
    exe_in_dir, squirrel_found, squirrel_search,
};
use waylandcraft::cmdline::{
    add_chromium_flags, command_line, hint_from_path, is_chromium_executable,
    is_launcher_executable, join_args, split_args,
};
use waylandcraft::shortcut::{shortcut_from_buffers, wide_to_string, ResolvedShortcut};
use waylandcraft::text::{str_contains, str_ends_with, str_starts_with};
use waylandcraft::{get_time, millis_to_time, new_serial};

fn app(id: &str, name: Option<&str>, exec: Option<&str>) -> DesktopApp {
    DesktopApp {
        app_id: id.to_string(),
        name: name.map(|s| s.to_string()),
        generic_name: None,
        exec_path: exec.map(|s| s.to_string()),
        exec_args: None,
        working_dir: None,
        exec_terminal: false,
        comment: None,
        keywords: Vec::new(),
        categories: Vec::new(),
        visible: true,
        icon_path: None,
    }
}

fn strings(v: &[String]) -> Vec<&str> {
    v.iter().map(|s| s.as_str()).collect()
}

#[test]
fn serials_count_up_and_wrap() {
    let mut c: u32 = 1;
    assert_eq!(new_serial(&mut c), 1);
    assert_eq!(new_serial(&mut c), 2);
    assert_eq!(c, 3);
    let mut m: u32 = u32::MAX;
    assert_eq!(new_serial(&mut m), u32::MAX);
    assert_eq!(m, 0);
}

#[test]
fn time_keeps_low_bits() {
    assert_eq!(millis_to_time(0x1_0000_0005), 5);
    assert_eq!(millis_to_time(1234), 1234);
    assert!(get_time().is_some());
}

#[test]
fn text_helpers() {
    assert!(str_contains("hello world", "o w"));
    assert!(!str_contains("hello", "hex"));
    assert!(str_contains("abc", ""));
    assert!(str_starts_with("--disable-features=X", "--disable-features"));
    assert!(str_ends_with("C:/Squirrel/Update.exe", ".exe"));
    assert_eq!(hint_from_path("C:\\Apps\\ÄBC.exe"), "äbc");
}

#[test]
fn hint_is_lowercased_file_stem() {
    assert_eq!(hint_from_path("C:\\Program Files\\Opera\\Opera.exe"), "opera");
    assert_eq!(hint_from_path("/usr/bin/Code - Insiders.exe"), "code - insiders");
    assert_eq!(hint_from_path("battle.net.exe"), "battle");
    assert_eq!(hint_from_path("dir/"), "");
    assert_eq!(hint_from_path(""), "");
}

#[test]
fn chromium_and_launcher_names() {
    assert!(is_chromium_executable("C:\\Apps\\Discord\\Discord.exe"));
    assert!(is_chromium_executable("msedge.exe"));
    assert!(!is_chromium_executable("notepad.exe"));
    // "battle.net" can never match: the stem stops at the first dot.
    assert!(!is_chromium_executable("Battle.net.exe"));
    assert!(is_launcher_executable("steam"));
    assert!(is_launcher_executable("battle.net"));
    assert!(!is_launcher_executable("Steam"));
    assert!(!is_launcher_executable("notepad"));
}

#[test]
fn split_args_honours_quotes() {
    assert_eq!(strings(&split_args("--processStart Discord.exe")), vec!["--processStart", "Discord.exe"]);
    assert_eq!(strings(&split_args("  a \"b c\"  d ")), vec!["a", "b c", "d"]);
    assert_eq!(strings(&split_args("\"\" x")), vec!["", "x"]);
    assert_eq!(strings(&split_args("a\"b\"c")), vec!["abc"]);
    assert!(split_args("   ").is_empty());
}

#[test]
fn split_args_without_quotes_is_words() {
    let s = "one  two\tthree";
    assert_eq!(strings(&split_args(s)), s.split_whitespace().collect::<Vec<_>>());
}

#[test]
fn chromium_flags_are_added_once() {
    let mut args = vec!["--disable-features=Foo".to_string(), "x".to_string()];
    add_chromium_flags(&mut args);
    assert_eq!(
        strings(&args),
        vec![
            "--disable-features=Foo",
            "x",
            "--disable-backgrounding-occluded-windows",
            "--disable-renderer-backgrounding",
            "--disable-background-timer-throttling",
        ]
    );
    let mut again = args.clone();
    add_chromium_flags(&mut again);
    assert_eq!(again, args);
}

#[test]
fn command_line_quotes_arguments_with_spaces() {
    let args = vec!["/c".to_string(), "start".to_string(), "".to_string(), "C:\\My App\\a.exe".to_string()];
    assert_eq!(
        command_line("cmd.exe", &args).unwrap(),
        "\"cmd.exe\" /c start  \"C:\\My App\\a.exe\""
    );
    assert!(command_line("x.exe", &Vec::new()).is_none());
    assert_eq!(join_args(&args), "/c start  C:\\My App\\a.exe");
    assert_eq!(join_args(&Vec::new()), "");
}

#[test]
fn find_app_takes_the_first_match() {
    let apps = vec![app("a", None, None), app("b", Some("B1"), None), app("b", Some("B2"), None)];
    assert_eq!(find_app(&apps, "b").unwrap().name.as_deref(), Some("B1"));
    assert!(find_app(&apps, "c").is_none());
}

#[test]
fn to_raw_copies_the_fields() {
    let a = make_builtin("calc", "Calculator", "C:\\Windows\\System32\\calc.exe".to_string(), "Utility");
    let r = to_raw(&a);
    assert_eq!(r.app_id, "calc");
    assert_eq!(r.name.as_deref(), Some("Calculator"));
    assert_eq!(r.exec_path.as_deref(), Some("C:\\Windows\\System32\\calc.exe"));
    assert_eq!(strings(&r.keywords), vec!["calculator"]);
    assert_eq!(strings(&r.categories), vec!["Utility"]);
    assert!(r.visible && !r.exec_terminal);
}

#[test]
fn builtin_apps_live_under_windir() {
    let apps = builtin_apps("C:\\Windows");
    assert_eq!(apps.len(), 5);
    assert_eq!(apps[0].exec_path.as_deref(), Some("C:\\Windows\\System32\\notepad.exe"));
    assert_eq!(apps[4].app_id, "explorer");
    assert_eq!(apps[4].exec_args.as_deref(), Some("/separate,::{20D04FE0-3AEA-1069-A2D8-08002B30309D}"));
    assert_eq!(strings(&apps[2].keywords), vec!["command prompt"]);
}

#[test]
fn squirrel_arguments() {
    assert_eq!(squirrel_process_start("--processStart Discord.exe").as_deref(), Some("Discord.exe"));
    assert_eq!(squirrel_process_start("--processStart=\"Slack.exe\" --x").as_deref(), Some("Slack.exe"));
    assert_eq!(squirrel_process_start("--processStartAndWait \"Teams.exe\"").as_deref(), Some("Teams.exe"));
    assert_eq!(squirrel_process_start("--processStart= --processStart App.exe").as_deref(), Some("App.exe"));
    assert!(squirrel_process_start("--processStart").is_none());
    assert!(squirrel_process_start("--processStart \"\"").is_none());
    assert!(is_squirrel_update("C:\\Users\\me\\AppData\\Local\\Discord\\UPDATE.EXE"));
    assert!(!is_squirrel_update("C:\\Discord\\Discord.exe"));
}

#[test]
fn newest_version_directory() {
    let entries = vec![
        ("app-1.0.9".to_string(), true),
        ("app-1.0.10".to_string(), true),
        ("packages".to_string(), true),
        ("App-2.0".to_string(), false),
        ("app-1.0.9".to_string(), true),
    ];
    // String order: "app-1.0.9" sorts after "app-1.0.10"; the first of equals wins.
    assert_eq!(newest_squirrel_app_exe(&entries), Some(0));
    assert_eq!(newest_squirrel_app_exe(&vec![("other".to_string(), true)]), None);
    assert!(matches!(pick_squirrel_exe(false, true, Some(3)), SquirrelPick::InUpdateDir));
    assert!(matches!(pick_squirrel_exe(false, false, Some(3)), SquirrelPick::InVersionDir(3)));
    assert!(matches!(pick_squirrel_exe(false, false, None), SquirrelPick::NotFound));
}

#[test]
fn shortcut_entries() {
    let a = app_from_shortcut("Discord", "/menu/Discord.lnk", "/x/Discord.exe".to_string(), "  ".to_string(), "/x".to_string(), None).unwrap();
    assert_eq!(a.app_id, "Discord-/menu/Discord.lnk");
    assert!(a.exec_args.is_none());
    assert_eq!(a.working_dir.as_deref(), Some("/x"));
    assert_eq!(strings(&a.keywords), vec!["discord"]);
    assert_eq!(strings(&a.categories), vec!["Other"]);
    assert!(app_from_shortcut("X", "p", String::new(), String::new(), String::new(), None).is_none());
}

fn discord_shortcut() -> ResolvedShortcut {
    ResolvedShortcut {
        target: "/apps/Discord/Update.exe".to_string(),
        arguments: "--processStart Discord.exe".to_string(),
        working_dir: "/apps/Discord/app-1.0".to_string(),
        icon: Some("/apps/Discord/app.ico".to_string()),
    }
}

#[test]
fn squirrel_search_places() {
    let s = squirrel_search(&discord_shortcut()).unwrap();
    assert_eq!(s.exe, "Discord.exe");
    assert_eq!(s.in_work_dir, "/apps/Discord/app-1.0/Discord.exe");
    assert_eq!(s.update_dir.as_deref(), Some("/apps/Discord"));
    assert_eq!(s.in_update_dir.as_deref(), Some("/apps/Discord/Discord.exe"));
    assert_eq!(exe_in_dir("/apps/Discord/app-2.0", "Discord.exe"), "/apps/Discord/app-2.0/Discord.exe");
    let dirs = vec!["/apps/Discord/app-1.0".to_string(), "/apps/Discord/app-2.0".to_string()];
    assert_eq!(
        squirrel_found(&s, SquirrelPick::InVersionDir(1), &dirs).as_deref(),
        Some("/apps/Discord/app-2.0/Discord.exe")
    );
    assert_eq!(squirrel_found(&s, SquirrelPick::InWorkDir, &dirs).as_deref(), Some("/apps/Discord/app-1.0/Discord.exe"));
    assert_eq!(squirrel_found(&s, SquirrelPick::InUpdateDir, &dirs).as_deref(), Some("/apps/Discord/Discord.exe"));
    assert!(squirrel_found(&s, SquirrelPick::NotFound, &dirs).is_none());
    let plain = ResolvedShortcut {
        target: "/apps/Tool/tool.exe".to_string(),
        arguments: "--processStart Other.exe".to_string(),
        working_dir: String::new(),
        icon: None,
    };
    assert!(squirrel_search(&plain).is_none());
}

#[test]
fn lnk_files_with_squirrel_rewrite() {
    let r = discord_shortcut();
    assert_eq!(lnk_squirrel_exe(&r).as_deref(), Some("Discord.exe"));
    let found = Some("/apps/Discord/app-1.0/Discord.exe".to_string());
    let a = parse_lnk_file("/menu/Discord.lnk", Some(r), false, found.clone()).unwrap();
    assert_eq!(a.app_id, "Discord-/menu/Discord.lnk");
    assert_eq!(a.name.as_deref(), Some("Discord"));
    assert_eq!(a.exec_path.as_deref(), Some("/apps/Discord/app-1.0/Discord.exe"));
    assert!(a.exec_args.is_none());
    assert!(a.icon_path.is_none());
    assert_eq!(a.working_dir.as_deref(), Some("/apps/Discord/app-1.0"));
    assert!(parse_lnk_file("/menu/Discord.lnk", None, true, None).is_none());
    // Without a found executable the shortcut keeps starting Update.exe.
    let kept = parse_lnk_file("/menu/Discord.lnk", Some(discord_shortcut()), true, None).unwrap();
    assert_eq!(kept.exec_path.as_deref(), Some("/apps/Discord/Update.exe"));
    assert_eq!(kept.exec_args.as_deref(), Some("--processStart Discord.exe"));
    assert_eq!(kept.icon_path.as_deref(), Some("/apps/Discord/app.ico"));
    // A shortcut that is no Squirrel shortcut is never rewritten.
    let plain = ResolvedShortcut {
        target: "/apps/Tool/tool.exe".to_string(),
        arguments: "--processStart Other.exe".to_string(),
        working_dir: "/apps/Tool".to_string(),
        icon: None,
    };
    let t = parse_lnk_file("/menu/Tool.lnk", Some(plain), false, found).unwrap();
    assert_eq!(t.exec_path.as_deref(), Some("/apps/Tool/tool.exe"));
    assert_eq!(t.exec_args.as_deref(), Some("--processStart Other.exe"));
}

#[test]
fn exe_apps_and_lookup_by_path() {
    let a = exe_app("/opt/game/run.exe");
    assert_eq!(a.app_id, "/opt/game/run.exe");
    assert_eq!(a.working_dir.as_deref(), Some("/opt/game"));
    let apps = vec![app("a", None, Some("/x/a.exe")), app("b", None, Some("/x//b.exe"))];
    assert_eq!(find_app_by_exec(&apps, "/x/b.exe"), Some(1));
    assert_eq!(find_app_by_exec(&apps, "/x/c.exe"), None);
}

#[test]
fn app_list_is_deduplicated_and_sorted_stably() {
    let found = vec![
        app("z", Some("zeta"), None),
        app("b1", Some("Beta"), None),
        app("z", Some("other"), None),
        app("b2", Some("beta"), None),
        app("a", None, None),
    ];
    let builtins = vec![app("b1", Some("dup"), None), app("c", Some("Gamma"), None)];
    let r = collect_apps(found, builtins);
    let ids: Vec<&str> = r.iter().map(|a| a.app_id.as_str()).collect();
    assert_eq!(ids, vec!["a", "b1", "b2", "c", "z"]);
}

#[test]
fn wide_strings_stop_at_nul() {
    let buf: Vec<u16> = "abc\0def".encode_utf16().collect();
    assert_eq!(wide_to_string(&buf), "abc");
    assert_eq!(wide_to_string(&[0xD800, 0x41]), "\u{FFFD}A");
    let s = shortcut_from_buffers(&buf, &[0], &[0x43, 0], &[0]);
    assert_eq!(s.target, "abc");
    assert_eq!(s.arguments, "");
    assert_eq!(s.working_dir, "C");
    assert!(s.icon.is_none());
}
