use kimi_pet::launch_hook::{
    get_launch_hook, is_writable_command, launch_command, set_launch_hook, ConfigFile, HookError,
};

const EXE: &str = "/opt/kimi-pet/kimi-pet";

fn file(text: &str) -> ConfigFile {
    ConfigFile::Text(text.to_string())
}

fn on(text: &str) -> String {
    match set_launch_hook(&file(text), true, Some(EXE), false) {
        Ok(text) => text,
        Err(e) => panic!("{}", e.message()),
    }
}

fn off(text: &str) -> String {
    match set_launch_hook(&file(text), false, None, false) {
        Ok(text) => text,
        Err(e) => panic!("{}", e.message()),
    }
}

#[test]
fn commands() {
    assert_eq!(launch_command("C:\\a\\kimi-pet.exe", true), "start \"\" \"C:\\a\\kimi-pet.exe\"");
    assert_eq!(
        launch_command("/usr/bin/kimi-pet", false),
        "nohup \"/usr/bin/kimi-pet\" >/dev/null 2>&1 &"
    );
}

#[test]
fn hook_in_an_empty_configuration() {
    let text = on(" \n");
    assert!(get_launch_hook(Some(&text)));
    assert!(text.contains("[[hooks]]"));
    assert!(text.contains("event = \"SessionStart\""));
    assert!(text.contains(EXE));
    assert_eq!(off(&text), "");
    assert_eq!(off(""), "");
}

#[test]
fn no_hook_without_a_configuration() {
    assert!(!get_launch_hook(None));
    assert!(!get_launch_hook(Some("")));
    assert!(!get_launch_hook(Some("= broken")));
    assert!(!get_launch_hook(Some("hooks = 'kimi-pet'\n")));
    assert!(!get_launch_hook(Some("[[hooks]]\ncommand = 5\n")));
    assert!(!get_launch_hook(Some("[[hooks]]\ncommand = 'other'\n[[other]]\ncommand = 'kimi-pet'\n")));
    assert!(get_launch_hook(Some("[[hooks]]\ncommand = 'x kimi-pet y'\n")));
}

const RICH: &str = "# my settings\nmodel = \"k2\" # the best\n\n[[hooks]]\nevent = \"Stop\"\ncommand = 'notify' # keep\n\n[[hooks]]\nevent = \"SessionStart\"\ncommand = '/old/kimi-pet'\n\n[ui]\ntheme = 'dark'\n\n[[hooks]]\ncommand = 'last'\n";

#[test]
fn other_settings_are_kept() {
    let text = on(RICH);
    assert!(get_launch_hook(Some(&text)));
    assert!(text.contains("# my settings\nmodel = \"k2\" # the best\n"));
    assert!(text.contains("command = 'notify' # keep\n"));
    assert!(text.contains("[ui]\ntheme = 'dark'\n"));
    assert!(!text.contains("/old/kimi-pet"));
    assert_eq!(text.matches("[[hooks]]").count(), 3);
    let notify = text.find("'notify'").unwrap();
    let last = text.find("'last'").unwrap();
    let ours = text.find(EXE).unwrap();
    assert!(notify < last && last < ours);
}

#[test]
fn switching_off_keeps_other_hooks() {
    let text = off(RICH);
    assert!(!get_launch_hook(Some(&text)));
    assert_eq!(text.matches("[[hooks]]").count(), 2);
    assert!(text.contains("# my settings"));
    assert_eq!(off(&text), text);
}

#[test]
fn switching_on_twice_leaves_one_hook() {
    let once = on("a = 1\n");
    let twice = on(&once);
    assert_eq!(twice.matches("[[hooks]]").count(), 1);
    assert_eq!(twice, once);
    assert_eq!(off(&twice), "a = 1\n");
}

#[test]
fn all_stale_hooks_go() {
    let text = "[[hooks]]\ncommand = 'kimi-pet 1'\n[[hooks]]\ncommand = 'kimi-pet 2'\n[[hooks]]\ncommand = 'x'\n[[hooks]]\ncommand = 'kimi-pet 3'\n";
    let off = off(text);
    assert_eq!(off, "[[hooks]]\ncommand = 'x'\n");
}

#[test]
fn path_that_does_not_name_the_companion_is_not_found_again() {
    let text = match set_launch_hook(&file(""), true, Some("/usr/bin/pet"), false) {
        Ok(text) => text,
        Err(_) => panic!("refused"),
    };
    assert!(!get_launch_hook(Some(&text)));
}

#[test]
fn refusals() {
    match set_launch_hook(&file("a = = 1"), true, Some(EXE), false) {
        Err(HookError::Syntax { words }) => {
            assert!(!words.is_empty());
            let message = HookError::Syntax { words: "w".to_string() }.message();
            assert_eq!(message, "config.toml 解析失败，请检查原有语法：w");
        }
        _ => panic!("not refused"),
    }
    for text in ["hooks = 1\n", "[hooks]\n", "hooks = [{command = 'x'}]\n", "hooks = []\n"] {
        match set_launch_hook(&file(text), false, None, false) {
            Err(e @ HookError::NotTables) => {
                assert_eq!(e.message(), "config.toml 里 hooks 字段不是表数组，未改动");
            }
            _ => panic!("not refused"),
        }
    }
    match set_launch_hook(&file(""), true, None, false) {
        Err(e @ HookError::NoExe) => assert_eq!(e.message(), "获取 exe 路径失败"),
        _ => panic!("not refused"),
    }
}

#[test]
fn messages_of_the_outer_failures() {
    assert_eq!(HookError::NoHome.message(), "找不到用户目录");
    assert_eq!(
        HookError::NoDirectory { words: "w".to_string() }.message(),
        "创建配置目录失败：w"
    );
    assert_eq!(
        HookError::NotWritten { words: "w".to_string() }.message(),
        "写入 config.toml 失败：w"
    );
}

#[test]
fn odd_configurations_are_read_again() {
    let texts = [
        "# only a comment",
        "a.b.c = 1\n[a.d]\nx = 2\n",
        "[a.x]\n[b]\n[a.y]\nz = 1\n",
        "[[x]]\n[[x.y]]\n[c]\n[x.z]\nq = 1\n[[hooks]]\ncommand = 'kimi-pet'\n[hooks.env]\nk = 'v'\n[[x]]\n[[x.y]]\n",
        "[[hooks]]\ncommand = 'a'\n[hooks.env]\nk = 'v'\n[t]\n[[hooks]]\ncommand = 'kimi-pet'\n[u]\nn = 1",
        "\"hooks\".x = 1\n",
    ];
    for text in texts {
        match set_launch_hook(&file(text), true, Some("C:\\k 'q' \"p\"\\kimi-pet\n.exe"), true) {
            Ok(after) => {
                assert!(get_launch_hook(Some(&after)), "{}", after);
                let again = match set_launch_hook(&file(&after), false, None, true) {
                    Ok(text) => text,
                    Err(e) => panic!("{}", e.message()),
                };
                assert!(!get_launch_hook(Some(&again)));
            }
            Err(HookError::NotTables) => assert!(text.contains("\"hooks\"")),
            Err(e) => panic!("{}", e.message()),
        }
    }
}

#[test]
fn rows_of_quotation_marks() {
    let row = |mark: &str, n: usize| format!("/kimi-pet{}/x", mark.repeat(n));
    assert!(is_writable_command("/opt/it's \"kimi-pet\"", false));
    for mark in ["'", "\""] {
        assert!(is_writable_command(&row(mark, 255), false));
        assert!(!is_writable_command(&row(mark, 256), true));
    }
    assert!(!is_writable_command(&"\"".repeat(254), true));
    let exe = row("\"", 255);
    match set_launch_hook(&file(""), true, Some(&exe), false) {
        Ok(text) => assert!(get_launch_hook(Some(&text))),
        Err(e) => panic!("{}", e.message()),
    }
}

#[test]
fn commands_are_read_back_as_written() {
    let paths = [
        "/a/kimi-pet",
        "C:\\k\\kimi-pet.exe",
        "/it's/kimi-pet",
        "/q\"\"\"'''/kimi-pet",
        "/t\tn\nr\r\u{7f}/kimi-pet",
    ];
    for exe in paths {
        let text = match set_launch_hook(&file(""), true, Some(exe), true) {
            Ok(text) => text,
            Err(e) => panic!("{}", e.message()),
        };
        let document = text.parse::<toml_edit::DocumentMut>().unwrap();
        let hook = document["hooks"].as_array_of_tables().unwrap().get(0).unwrap();
        assert_eq!(hook["command"].as_str(), Some(launch_command(exe, true).as_str()));
        assert_eq!(hook["event"].as_str(), Some("SessionStart"));
    }
}

#[test]
fn hooks_with_tables_of_their_own_are_kept() {
    let ours = "[[hooks]]\ncommand = 'kimi-pet'\n[hooks.env]\na = 1\n";
    let rest = "[[hooks]]\ncommand = 'x'\n[hooks.env]\nb = 2\n[t]\nc = 3\n";
    assert_eq!(off(&format!("{ours}{rest}")), rest);
}

#[test]
fn tables_of_other_hooks_stay_theirs() {
    let texts = [
        "[[hooks]]\ncommand = 'x'\n[hooks.b]\n[hooks.c]\n[hooks.b.d]\n",
        "[[hooks]]\ncommand = 'x'\n[hooks.event.x]\n[hooks.c]\n[hooks.event]\n[t]\n",
        "[[hooks]]\ncommand = 'x'\n[[hooks.b]]\n[hooks.c]\n[[hooks.b]]\nn = 1\n",
    ];
    for text in texts {
        let after = on(text);
        assert!(get_launch_hook(Some(&after)));
        let document = after.parse::<toml_edit::DocumentMut>().unwrap();
        let hooks = document["hooks"].as_array_of_tables().unwrap();
        assert_eq!(hooks.len(), 2);
        assert_eq!(hooks.get(1).unwrap().len(), 2);
        assert_eq!(off(&after), text);
    }
}

#[test]
fn the_place_of_the_hook() {
    let hook = format!(
        "[[hooks]]\nevent = \"SessionStart\"\ncommand = '{}'\n",
        launch_command(EXE, false)
    );
    let other = "[[hooks]]\ncommand = 'x'\n";
    let env = "[hooks.env]\na = 1\n";
    let ui = "[ui]\nb = 2\n";
    let ours = "[[hooks]]\ncommand = 'kimi-pet'\n";
    assert_eq!(on(&format!("{other}{ui}")), format!("{other}\n{hook}{ui}"));
    assert_eq!(on(&format!("{other}{env}{ui}")), format!("{other}{env}\n{hook}{ui}"));
    assert_eq!(on(&format!("{other}{ui}{ours}")), format!("{other}\n{hook}{ui}"));
    assert_eq!(on(&format!("{other}{ui}{other}")), format!("{other}{ui}{other}\n{hook}"));
    assert_eq!(on(ui), format!("{ui}\n{hook}"));
    assert_eq!(on(&format!("{ours}{ui}")), format!("{hook}{ui}"));
    assert_eq!(on(&format!("a = 1\n{ui}{ours}# end\n")), format!("a = 1\n{ui}\n{hook}# end\n"));
    assert_eq!(on("[a]\n[b]\n[a.x]\n"), format!("[a]\n[b]\n\n{hook}[a.x]\n"));
    let mixed = "[[hooks]]\ncommand = 'x'\n[hooks.b]\n[hooks.c]\n[hooks.b.d]\n";
    assert_eq!(on(&format!("{mixed}{ui}")), format!("{mixed}\n{hook}{ui}"));
}

#[test]
fn the_rest_is_written_as_before() {
    let before = "# head\na = 1 # one\n\n# ours\n[[hooks]]\ncommand = 'kimi-pet' # gone\n\n# theirs\n[[hooks]] # keep\n  command   = 'x'\n\n[t]   # table\nz = [1,\n  2] # list\n# end";
    let after = off(before);
    assert_eq!(
        after,
        "# head\na = 1 # one\n\n# theirs\n[[hooks]] # keep\n  command   = 'x'\n\n[t]   # table\nz = [1,\n  2] # list\n# end"
    );
    let after = on(before);
    assert!(after.starts_with("# head\na = 1 # one\n\n# theirs\n[[hooks]] # keep\n  command   = 'x'\n"));
    assert!(after.ends_with("\n[t]   # table\nz = [1,\n  2] # list\n# end"));
}

#[test]
fn files_that_are_absent_or_unreadable() {
    match set_launch_hook(&ConfigFile::Absent, true, Some(EXE), false) {
        Ok(text) => assert_eq!(text, on("")),
        Err(e) => panic!("{}", e.message()),
    }
    for enabled in [true, false] {
        match set_launch_hook(&ConfigFile::Unreadable, enabled, Some(EXE), false) {
            Err(e @ HookError::Unreadable) => {
                assert_eq!(e.message(), "config.toml 无法读取，未改动");
            }
            _ => panic!("not refused"),
        }
    }
}

#[test]
fn switching_on_often_and_off_once() {
    let before = "a = 1\n[[hooks]]\ncommand = 'x'\n[hooks.env]\nb = 2\n";
    let mut text = before.to_string();
    for _ in 0..3 {
        text = on(&text);
        assert_eq!(text.matches("SessionStart").count(), 1);
    }
    assert_eq!(off(&text), before);
}
