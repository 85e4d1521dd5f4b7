use herdr_freeze::api::Workspace;
use herdr_freeze::cli::{
    command_exit_code, config_cmd, config_exit_code, config_ui, config_ui_exit_code, context_of,
    current_settings, debug_enabled, freeze_now_cmd, freeze_now_exit_code, log_file,
    parse_command, parse_options, parse_switch, print_current_config, read_context,
    read_line_stdin, resolve_tab_id, show_exit_code, thaw_cmd, thaw_exit_code, wants_help, Command, ConfigPlan, FreezeNowPlan,
    TabError, Topic, FAILURE, USAGE_ERROR,
};
use herdr_freeze::json::parse_json;
use herdr_freeze::monitor::{workspace_enabled, workspace_idle_secs, Effect};
use herdr_freeze::platform::Platform;
use herdr_freeze::state::FrozenEntry;
use herdr_freeze::string_map::StringMap;

fn words(args: &[&str]) -> Vec<String> {
    args.iter().map(|a| a.to_string()).collect()
}

fn workspace(id: &str, tokens: &[(&str, &str)]) -> Workspace {
    let mut map: StringMap<String> = StringMap::new();
    for (key, value) in tokens {
        map.insert(key, value.to_string());
    }
    Workspace { workspace_id: id.to_string(), label: "main".to_string(), tokens: map }
}

/// The workspace that Herdr lists once it has taken these arguments.
fn kept(args: &[String]) -> Workspace {
    let mut map: StringMap<String> = StringMap::new();
    for pair in args.windows(2) {
        if pair[0] == "--token" {
            let (key, value) = pair[1].split_once('=').unwrap();
            map.insert(key, value.to_string());
        }
    }
    Workspace { workspace_id: args[2].clone(), label: String::new(), tokens: map }
}

#[test]
fn subcommands_are_found() {
    assert!(matches!(parse_command(&words(&[])), Command::Help(Topic::Program)));
    assert!(matches!(parse_command(&words(&["-h"])), Command::Help(Topic::Program)));
    assert!(matches!(parse_command(&words(&["--help", "x"])), Command::Help(Topic::Program)));
    assert!(matches!(parse_command(&words(&["monitor"])), Command::Monitor { debug: false }));
    for flag in ["--debug", "-v", "--verbose"] {
        assert!(matches!(
            parse_command(&words(&["monitor", "x", flag])),
            Command::Monitor { debug: true }
        ));
    }
    assert!(matches!(
        parse_command(&words(&["config", "--clear"])),
        Command::Config(rest) if rest == ["--clear"]
    ));
    assert!(matches!(parse_command(&words(&["config-ui"])), Command::ConfigUi));
    assert!(matches!(
        parse_command(&words(&["thaw", "--tab", "t"])),
        Command::Thaw(rest) if rest == ["--tab", "t"]
    ));
    assert!(matches!(parse_command(&words(&["freeze-now"])), Command::FreezeNow(_)));
    assert!(matches!(parse_command(&words(&["melt"])), Command::Unknown(word) if word == "melt"));
}

#[test]
fn every_subcommand_has_help() {
    for (name, topic) in [
        ("monitor", Topic::Monitor),
        ("config", Topic::Config),
        ("config-ui", Topic::ConfigUi),
        ("thaw", Topic::Thaw),
        ("freeze-now", Topic::FreezeNow),
    ] {
        let command = parse_command(&words(&[name, "x", "-h"]));
        assert!(matches!(command, Command::Help(t) if t == topic));
    }
    assert!(wants_help(&words(&["a", "--help"])));
    assert!(!wants_help(&words(&["help"])));
    assert_eq!((USAGE_ERROR, FAILURE), (2, 1));
}

#[test]
fn everything_is_logged_when_asked_for() {
    assert!(debug_enabled(true, None));
    assert!(debug_enabled(false, Some("0")));
    assert!(!debug_enabled(false, Some("")));
    assert!(!debug_enabled(false, None));
}

#[test]
fn the_log_has_its_place() {
    let (dir, name) = log_file(Platform::Windows, Some("C:\\T".to_string()));
    assert_eq!((dir.as_deref(), name.as_str()), (Some("C:\\T"), "herdr-freeze.log"));
    assert_eq!(log_file(Platform::Windows, None).0, None);
    assert_eq!(log_file(Platform::Linux, Some("x".to_string())).0.as_deref(), Some("/tmp"));
}

#[test]
fn the_context_is_read_from_variables_and_a_document() {
    let document = r#"{"workspace_id":"w2","tab_id":"t2","pane_id":7}"#;
    let context = read_context(Some("w1".to_string()), Some(String::new()), None, Some(document));
    assert_eq!(context.workspace_id.as_deref(), Some("w1"));
    assert_eq!(context.tab_id.as_deref(), Some("t2"));
    assert_eq!(context.pane_id, None);
    let broken = read_context(None, None, Some("p1".to_string()), Some("{"));
    assert_eq!(broken.workspace_id, None);
    assert_eq!(broken.pane_id.as_deref(), Some("p1"));
    let parsed = parse_json(document).unwrap();
    let same = context_of(Some("w1".to_string()), None, None, Some(&parsed));
    assert_eq!(same.tab_id.as_deref(), Some("t2"));
}

#[test]
fn switches_have_many_words() {
    for word in ["true", "1", "YES", "y", "On"] {
        assert_eq!(parse_switch(word), Some(true));
    }
    for word in ["false", "0", "no", "N", "OFF"] {
        assert_eq!(parse_switch(word), Some(false));
    }
    assert_eq!(parse_switch("maybe"), None);
}

#[test]
fn options_are_read() {
    let options = parse_options(&words(&[
        "--workspace", "w1", "--enabled", "off", "--idle-secs", "12", "--clear",
    ]))
    .unwrap();
    assert_eq!(options.workspace.as_deref(), Some("w1"));
    assert_eq!(options.enabled, Some(false));
    assert_eq!(options.idle_secs, Some(12));
    assert!(options.clear);
    let odd = parse_options(&words(&[
        "--enabled", "on", "--enabled", "maybe", "--idle-secs", "9", "--idle-secs", "x",
        "--workspace",
    ]))
    .unwrap();
    assert_eq!(odd.enabled, None);
    assert_eq!(odd.idle_secs, Some(9));
    assert_eq!(odd.workspace, None);
    assert_eq!(parse_options(&words(&["--clear", "--x"])).unwrap_err(), "--x");
}

#[test]
fn settings_are_kept_as_given() {
    let plan = config_cmd(
        &words(&["--workspace", "w1", "--enabled", "true", "--idle-secs", "120"]),
        None,
        false,
    );
    match plan {
        ConfigPlan::Keep { workspace_id, args, enabled, idle_secs } => {
            assert_eq!(workspace_id, "w1");
            assert_eq!(enabled, Some(true));
            assert_eq!(idle_secs, Some(120));
            assert_eq!(
                args,
                vec![
                    "workspace", "report-metadata", "w1", "--source", "herdr-freeze", "--ttl-ms",
                    "86400000", "--token", "freeze_enabled=true", "--token",
                    "freeze_idle_secs=120",
                ]
            );
            assert!(workspace_enabled(&kept(&args)));
            assert_eq!(workspace_idle_secs(&kept(&args)), 120);
        }
        other => panic!("{other:?}"),
    }
}

#[test]
fn settings_have_usual_values_and_a_least_time() {
    match config_cmd(&words(&["--idle-secs", "5"]), Some("w2".to_string()), true) {
        ConfigPlan::Keep { workspace_id, args, enabled, idle_secs } => {
            assert_eq!((workspace_id.as_str(), enabled, idle_secs), ("w2", None, Some(30)));
            assert!(workspace_enabled(&kept(&args)));
            assert_eq!(workspace_idle_secs(&kept(&args)), 30);
        }
        other => panic!("{other:?}"),
    }
    match config_cmd(&words(&["--enabled", "no"]), Some("w2".to_string()), true) {
        ConfigPlan::Keep { args, idle_secs, .. } => {
            assert_eq!(idle_secs, None);
            assert!(!workspace_enabled(&kept(&args)));
            assert_eq!(workspace_idle_secs(&kept(&args)), 180);
        }
        other => panic!("{other:?}"),
    }
}

#[test]
fn config_can_also_clear_ask_show_and_refuse() {
    match config_cmd(&words(&["--workspace", "w1", "--clear", "--enabled", "no"]), None, true) {
        ConfigPlan::Clear { args, .. } => {
            assert_eq!(&args[7..], &words(&[
                "--clear-token", "freeze_enabled", "--clear-token", "freeze_idle_secs",
            ])[..]);
        }
        other => panic!("{other:?}"),
    }
    let known = || Some("w1".to_string());
    assert!(matches!(config_cmd(&vec![], known(), true), ConfigPlan::Ask { .. }));
    assert!(matches!(config_cmd(&vec![], known(), false), ConfigPlan::Show { .. }));
    assert!(matches!(config_cmd(&vec![], None, true), ConfigPlan::NoWorkspace));
    assert!(matches!(
        config_cmd(&words(&["--x"]), known(), true),
        ConfigPlan::UnknownOption(option) if option == "--x"
    ));
    assert!(workspace_enabled(&workspace("w", &[])));
    assert_eq!(workspace_idle_secs(&workspace("w", &[])), 180);
}

#[test]
fn settings_are_shown() {
    let list = vec![workspace("w1", &[("freeze_enabled", "false")])];
    assert_eq!(
        print_current_config(&list, "w1").unwrap(),
        "[herdr-freeze] workspace w1 (main): freeze_enabled=false freeze_idle_secs=180(默认)s"
    );
    assert_eq!(print_current_config(&list, "w2"), None);
    let plain = ("true".to_string(), "180".to_string());
    assert_eq!(current_settings(None, "w1"), plain);
    assert_eq!(current_settings(Some(&list), "w2"), plain);
    assert_eq!(current_settings(Some(&list), "w1").0, "false");
}

#[test]
fn answers_set_the_settings() {
    let yes = config_ui("w1", "", " 45 ", "180");
    assert_eq!((yes.enabled, yes.idle_secs), (true, 45));
    assert_eq!(workspace_idle_secs(&kept(&yes.args)), 45);
    let no = config_ui("w1", " No\t", "7", "180");
    assert_eq!((no.enabled, no.idle_secs), (false, 30));
    assert!(!workspace_enabled(&kept(&no.args)));
    assert_eq!(config_ui("w1", "x", "", "90").idle_secs, 90);
    assert_eq!(config_ui("w1", "x", "soon", "never").idle_secs, 180);
    for word in ["n", "no", "false", "0"] {
        assert!(!config_ui("w1", word, "", "180").enabled);
    }
}

#[test]
fn lines_lose_their_end() {
    assert_eq!(read_line_stdin(Some("y \r\n")), "y ");
    assert_eq!(read_line_stdin(None), "");
}

#[test]
fn a_tab_is_named_or_known() {
    assert_eq!(resolve_tab_id(&words(&["--tab", "t1"]), None).unwrap(), "t1");
    assert_eq!(resolve_tab_id(&vec![], Some("t2".to_string())).unwrap(), "t2");
    assert_eq!(resolve_tab_id(&words(&["--tab"]), Some("t2".to_string())).unwrap(), "t2");
    assert!(matches!(resolve_tab_id(&vec![], None), Err(TabError::Missing)));
    assert!(matches!(
        resolve_tab_id(&words(&["--tab", "t1", "x"]), None),
        Err(TabError::UnknownOption(option)) if option == "x"
    ));
}

fn entry(pane: &str, tab: &str) -> FrozenEntry {
    FrozenEntry {
        workspace_id: "w".to_string(),
        tab_id: tab.to_string(),
        pane_id: pane.to_string(),
        roots: vec![1],
        pgid: None,
        orig_label: Some(pane.to_uppercase()),
    }
}

#[test]
fn thawing_a_tab_needs_the_list_alone() {
    let list = vec![entry("p1", "t1"), entry("p2", "t2"), entry("p3", "t1")];
    let (effects, resumed) = thaw_cmd(&list, "t1");
    assert_eq!(resumed, 2);
    assert_eq!(effects.len(), 5);
    assert!(matches!(&effects[0], Effect::Resume(t) if t.roots == vec![1]));
    assert!(matches!(
        &effects[3],
        Effect::SetLabel { pane_id, label } if pane_id == "p3" && label.as_deref() == Some("P3")
    ));
    assert!(matches!(
        &effects[4],
        Effect::SaveFrozen(left) if left.len() == 1 && left[0].pane_id == "p2"
    ));
    let (none, resumed) = thaw_cmd(&vec![], "t1");
    assert_eq!((none.len(), resumed), (1, 0));
}

#[test]
fn freezing_at_once_is_asked_of_the_monitor() {
    let args = words(&["--tab", "t1"]);
    assert!(matches!(
        freeze_now_cmd(Platform::Windows, &args, None),
        FreezeNowPlan::Request(tab) if tab == "t1"
    ));
    assert!(matches!(
        freeze_now_cmd(Platform::Linux, &args, None),
        FreezeNowPlan::Unsupported
    ));
    assert!(matches!(
        freeze_now_cmd(Platform::Windows, &vec![], None),
        FreezeNowPlan::Refused(TabError::Missing)
    ));
}

#[test]
fn commands_end_with_their_codes() {
    assert_eq!(command_exit_code(&parse_command(&vec![])), Some(0));
    assert_eq!(command_exit_code(&parse_command(&words(&["melt"]))), Some(2));
    assert_eq!(command_exit_code(&parse_command(&words(&["thaw"]))), None);
    let known = || Some("w1".to_string());
    let unknown = config_cmd(&words(&["--x"]), known(), true);
    let nowhere = config_cmd(&vec![], None, true);
    let clear = config_cmd(&words(&["--clear"]), known(), true);
    let keep = config_cmd(&words(&["--enabled", "on"]), known(), true);
    let ask = config_cmd(&vec![], known(), true);
    let show = config_cmd(&vec![], known(), false);
    for (plan, done, not_done) in [
        (unknown, Some(2), Some(2)),
        (nowhere, Some(2), Some(2)),
        (clear, Some(0), Some(0)),
        (keep, Some(0), Some(1)),
        (ask, Some(0), None),
        (show, None, None),
    ] {
        assert_eq!(config_exit_code(&plan, true), done);
        assert_eq!(config_exit_code(&plan, false), not_done);
    }
    let list = vec![workspace("w1", &[])];
    assert_eq!(show_exit_code(Some(&list), "w1"), 0);
    assert_eq!(show_exit_code(Some(&list), "w2"), 1);
    assert_eq!(show_exit_code(None, "w1"), 1);
    assert_eq!(config_ui_exit_code(None, true), 2);
    assert_eq!(config_ui_exit_code(Some("w1"), true), 0);
    assert_eq!(config_ui_exit_code(Some("w1"), false), 1);
    assert_eq!(thaw_exit_code(&resolve_tab_id(&words(&["--tab", "t"]), None)), 0);
    assert_eq!(thaw_exit_code(&resolve_tab_id(&vec![], None)), 2);
    let tab = words(&["--tab", "t"]);
    assert_eq!(freeze_now_exit_code(&freeze_now_cmd(Platform::Windows, &tab, None)), 0);
    assert_eq!(freeze_now_exit_code(&freeze_now_cmd(Platform::Windows, &vec![], None)), 2);
    assert_eq!(freeze_now_exit_code(&freeze_now_cmd(Platform::MacOs, &tab, None)), 1);
}
