use herdr_freeze::api::{
    bin_path, pane_list, pane_list_args, pane_process_info, pane_process_info_args,
    pane_set_label, plugin_pane_open, plugin_pane_open_args, run_json, run_ok, workspace_clear_metadata,
    tell_error, workspace_list, workspace_list_args, workspace_report_metadata, ApiError,
    CommandResult,
};

fn printed(stdout: &str) -> CommandResult {
    CommandResult::Exited {
        success: true,
        status: "exit status: 0".to_string(),
        stdout: stdout.to_string(),
        stderr: String::new(),
    }
}

fn failed(stdout: &str, stderr: &str) -> CommandResult {
    CommandResult::Exited {
        success: false,
        status: "exit status: 1".to_string(),
        stdout: stdout.to_string(),
        stderr: stderr.to_string(),
    }
}

#[test]
fn the_program_is_named_or_the_usual_one() {
    assert_eq!(bin_path(Some("/opt/herdr".to_string())), "/opt/herdr");
    assert_eq!(bin_path(None), "herdr");
}

#[test]
fn a_reply_is_its_result() {
    let body = run_json(&printed(r#"{"id":"1","result":{"type":"x"}}"#)).unwrap();
    assert_eq!(body.text_at("type"), Some("x".to_string()));
    let bare = run_json(&printed(r#"{"type":"y"}"#)).unwrap();
    assert_eq!(bare.text_at("type"), Some("y".to_string()));
}

#[test]
fn every_error_is_told_apart() {
    let gone = CommandResult::NotStarted("not found".to_string());
    assert!(matches!(run_json(&gone), Err(ApiError::NotStarted(reason)) if reason == "not found"));
    assert!(matches!(
        run_json(&failed("out", "err")),
        Err(ApiError::Failed { stdout, stderr, .. }) if stdout == "out" && stderr == "err"
    ));
    assert!(matches!(run_json(&printed("nonsense")), Err(ApiError::NotJson { .. })));
    assert!(matches!(
        run_json(&printed(r#"{ "id": 1,  "error": {"code":"x"}}"#)),
        Err(ApiError::Refused { document }) if document == r#"{"error":{"code":"x"},"id":1}"#
    ));
    assert!(matches!(
        workspace_list(&printed(r#"{"result": {"a": [1.50, -2]}}"#)),
        Err(ApiError::Missing { what, body })
            if what == "workspace list: missing workspaces array" && body == r#"{"a":[1.5,-2]}"#
    ));
    assert!(matches!(
        pane_list(&printed("[]")),
        Err(ApiError::Missing { what, body })
            if what == "pane list: missing panes array" && body == "[]"
    ));
    assert!(matches!(
        pane_process_info(&printed("{}")),
        Err(ApiError::Missing { what, .. }) if what == "process-info: missing process_info"
    ));
    assert!(matches!(
        plugin_pane_open(&printed("{}")),
        Err(ApiError::Missing { what, .. })
            if what == "plugin pane open: missing plugin_pane.pane.pane_id"
    ));
}

#[test]
fn an_order_is_carried_out_or_not() {
    assert!(run_ok(&printed("")).is_ok());
    assert!(run_ok(&failed("", "no")).is_err());
    assert!(run_ok(&CommandResult::NotStarted("x".to_string())).is_err());
}

#[test]
fn workspaces_are_listed_with_their_tokens() {
    let list = workspace_list(&printed(
        r#"{"result":{"workspaces":[
            {"workspace_id":"w1","label":"one","tokens":{"freeze_enabled":"false","n":1}},
            {"workspace_id":"w2"}]}}"#,
    ))
    .unwrap();
    assert_eq!(list.len(), 2);
    assert_eq!(list[0].workspace_id, "w1");
    assert_eq!(list[0].label, "one");
    assert_eq!(list[0].tokens.get("freeze_enabled"), Some(&"false".to_string()));
    assert_eq!(list[0].tokens.get("n"), None);
    assert_eq!(list[1].label, "");
    assert_eq!(list[1].tokens.get("freeze_enabled"), None);
}

#[test]
fn panes_are_listed() {
    let list = pane_list(&printed(
        r#"{"result":{"panes":[
            {"pane_id":"p1","workspace_id":"w1","tab_id":"t1","focused":true,"label":"a",
             "revision":4,"agent_status":"idle"},
            {"pane_id":"p2","workspace_id":"w1","tab_id":"t1","agent_status":"unknown"}]}}"#,
    ))
    .unwrap();
    assert_eq!(list[0].pane_id, "p1");
    assert_eq!(list[0].tab_id, "t1");
    assert!(list[0].focused);
    assert_eq!(list[0].label, Some("a".to_string()));
    assert_eq!(list[0].revision, 4);
    assert_eq!(list[0].agent_status, Some("idle".to_string()));
    assert!(!list[1].focused);
    assert_eq!(list[1].label, None);
    assert_eq!(list[1].revision, 0);
    assert_eq!(list[1].agent_status, None);
}

#[test]
fn processes_are_listed() {
    let info = pane_process_info(&printed(
        r#"{"result":{"process_info":{"shell_pid":7,"foreground_process_group_id":8,
            "foreground_processes":[{"pid":9},{"name":"x"},{"pid":10}]}}}"#,
    ))
    .unwrap();
    assert_eq!(info.shell_pid, Some(7));
    assert_eq!(info.foreground_process_group_id, Some(8));
    assert_eq!(info.foreground_pids, vec![9, 10]);
}

#[test]
fn an_opened_pane_is_named() {
    let opened = plugin_pane_open(&printed(
        r#"{"result":{"plugin_pane":{"pane":{"pane_id":"p9"}}}}"#,
    ));
    assert!(matches!(opened, Ok(id) if id == "p9"));
    assert!(plugin_pane_open(&printed(r#"{"result":{}}"#)).is_err());
}

#[test]
fn arguments_are_as_herdr_takes_them() {
    assert_eq!(workspace_list_args(), vec!["workspace", "list"]);
    assert_eq!(pane_list_args("w1"), vec!["pane", "list", "--workspace", "w1"]);
    assert_eq!(pane_process_info_args("p1"), vec!["pane", "process-info", "--pane", "p1"]);
    assert_eq!(pane_set_label("p1", Some("x")), vec!["pane", "rename", "p1", "x"]);
    assert_eq!(pane_set_label("p1", None), vec!["pane", "rename", "p1", "--clear"]);
    assert_eq!(
        plugin_pane_open_args("herdr-freeze", "config", "popup"),
        vec![
            "plugin", "pane", "open", "--plugin", "herdr-freeze", "--entrypoint", "config",
            "--placement", "popup",
        ]
    );
    let tokens = vec![("k".to_string(), "v".to_string())];
    assert_eq!(
        workspace_report_metadata("w1", &tokens, 86_400_000),
        vec![
            "workspace", "report-metadata", "w1", "--source", "herdr-freeze", "--ttl-ms",
            "86400000", "--token", "k=v",
        ]
    );
    assert_eq!(
        workspace_clear_metadata("w1", &vec!["k".to_string()]),
        vec![
            "workspace", "report-metadata", "w1", "--source", "herdr-freeze", "--ttl-ms",
            "86400000", "--clear-token", "k",
        ]
    );
}

#[test]
fn errors_are_told() {
    let args = workspace_list_args();
    let tell = |error: &ApiError, order: bool| tell_error(error, "herdr", &args, order);
    let gone = run_json(&CommandResult::NotStarted("no".to_string())).unwrap_err();
    assert_eq!(tell(&gone, false), "spawn herdr failed (herdr): no");
    let bad = run_json(&failed("out", "err")).unwrap_err();
    assert_eq!(
        tell(&bad, false),
        "herdr workspace list exited exit status: 1: stderr=err stdout=out"
    );
    assert_eq!(tell(&bad, true), "herdr workspace list exited exit status: 1: err");
    let nonsense = run_json(&printed("{")).unwrap_err();
    assert!(tell(&nonsense, false).starts_with("parse herdr json failed: EOF"));
    assert!(tell(&nonsense, false).ends_with("; raw={"));
    let refused = run_ok(&printed("{\"error\": 1}")).unwrap_err();
    assert_eq!(tell(&refused, true), "herdr workspace list error: {\"error\":1}");
    let lacking = workspace_list(&printed("{\"result\": 7}")).unwrap_err();
    assert_eq!(tell(&lacking, false), "workspace list: missing workspaces array: 7");
    assert_eq!(tell_error(&refused, "herdr", &vec![], true), "herdr  error: {\"error\":1}");
}
