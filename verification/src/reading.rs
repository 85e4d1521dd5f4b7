//! What is read of the documents that Herdr prints: each part from under its own name,
//! nothing left out and nothing made up.

use vstd::prelude::*;

use crate::api;
use crate::api::{
    ApiErrorView, CommandResultView, PaneView, ProcessInfoView, WorkspaceView,
};
use crate::json;
use crate::json::JsonView;
use crate::text;

verus! {

// =============================== documents ===============================

/// A member of an object is found by its name, the first one where there are several;
/// no other document has members.
pub proof fn members_are_found_by_name(
    fields: Seq<(Seq<char>, JsonView)>,
    key: Seq<char>,
    i: int,
)
    ensures
        0 <= i < fields.len() && fields[i].0 == key && (forall|j: int|
            0 <= j < i ==> (#[trigger] fields[j]).0 != key) ==> JsonView::Object(fields).get(key)
            == Some(fields[i].1),
        (forall|j: int| 0 <= j < fields.len() ==> (#[trigger] fields[j]).0 != key)
            ==> JsonView::Object(fields).get(key) is None,
    decreases fields.len(),
{
    if fields.len() > 0 {
        let rest = fields.drop_first();
        members_are_found_by_name(rest, key, i - 1);
        assert forall|j: int| 0 <= j < rest.len() implies #[trigger] rest[j] == fields[j + 1] by {}
        if 0 < i < fields.len() {
            assert(rest[i - 1] == fields[i]);
            if forall|j: int| 0 <= j < i ==> (#[trigger] fields[j]).0 != key {
                assert(fields[0].0 != key);
                assert forall|j: int| 0 <= j < i - 1 implies (#[trigger] rest[j]).0 != key by {
                    assert(fields[j + 1].0 != key);
                }
            }
        }
        if forall|j: int| 0 <= j < fields.len() ==> (#[trigger] fields[j]).0 != key {
            assert(fields[0].0 != key);
            assert forall|j: int| 0 <= j < rest.len() implies (#[trigger] rest[j]).0 != key by {
                assert(fields[j + 1].0 != key);
            }
        }
    }
}

/// That a document holds a text under a name, or nothing there where there is no text.
pub open spec fn holds_text(
    document: JsonView,
    key: Seq<char>,
    text: Option<Seq<char>>,
) -> bool {
    match text {
        Some(text) => document.get(key) == Some(JsonView::Text(text)),
        None => document.get(key) is None || document.get(key) == Some(JsonView::Null),
    }
}

/// That a document holds a number under a name.
pub open spec fn holds_number(document: JsonView, key: Seq<char>, n: u64) -> bool {
    document.get(key) matches Some(number) && number is Number && number->value == Some(n)
}

/// That a document holds some number under a name.
pub open spec fn holds_any_number(document: JsonView, key: Seq<char>) -> bool {
    exists|n: u64| holds_number(document, key, n)
}

// =============================== replies ===============================

/// A command that could not be started, or has failed, gives nothing to read, and the
/// error tells what it told; so does a reply that is no document, and one that carries an
/// error. Of any other reply its result is read, or all of it where it names none.
pub proof fn replies_are_read(
    status: Seq<char>,
    stdout: Seq<char>,
    stderr: Seq<char>,
    reason: Seq<char>,
)
    ensures
        api::reply(CommandResultView::NotStarted(reason)) == Err::<JsonView, ApiErrorView>(
            ApiErrorView::NotStarted(reason),
        ),
        api::reply(
            CommandResultView::Exited { success: false, status, stdout, stderr },
        ) == Err::<JsonView, ApiErrorView>(ApiErrorView::Failed { status, stdout, stderr }),
        ({
            let said = api::reply(
                CommandResultView::Exited { success: true, status, stdout, stderr },
            );
            match json::json_parsed(text::trimmed(stdout)) {
                Err(why) => said == Err::<JsonView, ApiErrorView>(
                    ApiErrorView::NotJson { reason: why, stdout },
                ),
                Ok(document) => match (document.get("error"@), document.get("result"@)) {
                    (Some(_), _) => said == Err::<JsonView, ApiErrorView>(
                        ApiErrorView::Refused { document: json::json_rendered(document) },
                    ),
                    (None, Some(result)) => said == Ok::<JsonView, ApiErrorView>(result),
                    (None, None) => said == Ok::<JsonView, ApiErrorView>(document),
                },
            }
        }),
{
}

/// An order was carried out unless it could not be started, has failed, or has printed a
/// document with an error all the same; what else it prints does not matter.
pub proof fn orders_are_carried_out(
    status: Seq<char>,
    stdout: Seq<char>,
    stderr: Seq<char>,
    reason: Seq<char>,
)
    ensures
        api::carried_out(CommandResultView::NotStarted(reason)) == Err::<(), ApiErrorView>(
            ApiErrorView::NotStarted(reason),
        ),
        api::carried_out(
            CommandResultView::Exited { success: false, status, stdout, stderr },
        ) == Err::<(), ApiErrorView>(ApiErrorView::Failed { status, stdout, stderr }),
        ({
            let said = api::carried_out(
                CommandResultView::Exited { success: true, status, stdout, stderr },
            );
            match json::json_parsed(text::trimmed(stdout)) {
                Err(_) => said is Ok,
                Ok(document) => if document.get("error"@) is Some {
                    said == Err::<(), ApiErrorView>(
                        ApiErrorView::Refused { document: json::json_rendered(document) },
                    )
                } else {
                    said is Ok
                },
            }
        }),
{
}

/// A list of workspaces or of panes, the processes of a pane and the pane that was opened
/// are read out of a reply where they are; where they are not, the error shows the reply.
pub proof fn parts_of_a_reply_are_needed(command: CommandResultView)
    ensures
        match api::reply(command) {
            Err(e) => {
                &&& api::workspaces_listed(command) == Err::<Seq<WorkspaceView>, ApiErrorView>(e)
                &&& api::panes_listed(command) == Err::<Seq<PaneView>, ApiErrorView>(e)
                &&& api::process_info_listed(command) == Err::<ProcessInfoView, ApiErrorView>(e)
                &&& api::pane_opened(command) == Err::<Seq<char>, ApiErrorView>(e)
            },
            Ok(body) => {
                &&& body.get("workspaces"@) is None ==> api::workspaces_listed(command) == Err::<
                    Seq<WorkspaceView>,
                    ApiErrorView,
                >(
                    ApiErrorView::Missing {
                        what: "workspace list: missing workspaces array"@,
                        body: json::json_rendered(body),
                    },
                )
                &&& body.get("panes"@) is None ==> api::panes_listed(command) == Err::<
                    Seq<PaneView>,
                    ApiErrorView,
                >(
                    ApiErrorView::Missing {
                        what: "pane list: missing panes array"@,
                        body: json::json_rendered(body),
                    },
                )
                &&& body.get("process_info"@) is None ==> api::process_info_listed(command) == Err::<
                    ProcessInfoView,
                    ApiErrorView,
                >(
                    ApiErrorView::Missing {
                        what: "process-info: missing process_info"@,
                        body: json::json_rendered(body),
                    },
                )
                &&& body.get("plugin_pane"@) is None ==> api::pane_opened(command) == Err::<
                    Seq<char>,
                    ApiErrorView,
                >(
                    ApiErrorView::Missing {
                        what: "plugin pane open: missing plugin_pane.pane.pane_id"@,
                        body: json::json_rendered(body),
                    },
                )
                &&& api::workspaces_in(body) is Some ==> api::workspaces_listed(command) == Ok::<
                    Seq<WorkspaceView>,
                    ApiErrorView,
                >(api::workspaces_in(body)->0)
                &&& api::panes_in(body) is Some ==> api::panes_listed(command) == Ok::<
                    Seq<PaneView>,
                    ApiErrorView,
                >(api::panes_in(body)->0)
                &&& api::process_info_in(body) is Some ==> api::process_info_listed(command)
                    == Ok::<ProcessInfoView, ApiErrorView>(api::process_info_in(body)->0)
                &&& api::opened_pane_in(body) is Some ==> api::pane_opened(command) == Ok::<
                    Seq<char>,
                    ApiErrorView,
                >(api::opened_pane_in(body)->0)
            },
        },
{
}

// =============================== panes ===============================

/// That a document writes a pane. A state of its agent that is not known is none.
pub open spec fn writes_pane(document: JsonView, pane: PaneView) -> bool {
    &&& document.get("pane_id"@) == Some(JsonView::Text(pane.pane_id))
    &&& document.get("workspace_id"@) == Some(JsonView::Text(pane.workspace_id))
    &&& document.get("tab_id"@) == Some(JsonView::Text(pane.tab_id))
    &&& document.get("focused"@) == Some(JsonView::Bool(pane.focused))
    &&& holds_text(document, "label"@, pane.label)
    &&& holds_text(document, "title"@, pane.title)
    &&& holds_number(document, "revision"@, pane.revision)
    &&& match pane.agent_status {
        Some(status) => status != "unknown"@ && holds_text(
            document,
            "agent_status"@,
            pane.agent_status,
        ),
        None => holds_text(document, "agent_status"@, None) || holds_text(
            document,
            "agent_status"@,
            Some("unknown"@),
        ),
    }
}

/// A pane is read as it is written.
pub proof fn pane_is_read_as_written(document: JsonView, pane: PaneView)
    requires
        writes_pane(document, pane),
    ensures
        api::pane_in(document) == pane,
{
}

/// A list of panes is read as it is written: every pane, in order.
pub proof fn panes_are_read_as_written(
    body: JsonView,
    items: Seq<JsonView>,
    panes: Seq<PaneView>,
)
    requires
        body.get("panes"@) == Some(JsonView::Array(items)),
        items.len() == panes.len(),
        forall|i: int| 0 <= i < items.len() ==> writes_pane(#[trigger] items[i], panes[i]),
    ensures
        api::panes_in(body) == Some(panes),
{
    let read = items.map_values(|pane: JsonView| api::pane_in(pane));
    assert forall|i: int| 0 <= i < read.len() implies #[trigger] read[i] == panes[i] by {
        pane_is_read_as_written(items[i], panes[i]);
    }
    assert(read =~= panes);
}

/// The text under a name; the empty one where there is none.
pub open spec fn text_or_empty(value: Option<JsonView>) -> Seq<char> {
    match value {
        Some(JsonView::Text(text)) => text,
        _ => Seq::empty(),
    }
}

/// The text under a name, if there is one.
pub open spec fn text_or_none(value: Option<JsonView>) -> Option<Seq<char>> {
    match value {
        Some(JsonView::Text(text)) => Some(text),
        _ => None,
    }
}

/// What a document does not write of a pane, or not as it should, is empty, and no user
/// is there.
pub proof fn missing_parts_of_a_pane_are_empty(document: JsonView)
    ensures
        ({
            let pane = api::pane_in(document);
            &&& pane.pane_id == text_or_empty(document.get("pane_id"@))
            &&& pane.workspace_id == text_or_empty(document.get("workspace_id"@))
            &&& pane.tab_id == text_or_empty(document.get("tab_id"@))
            &&& pane.focused <==> document.get("focused"@) == Some(JsonView::Bool(true))
            &&& pane.label == text_or_none(document.get("label"@))
            &&& pane.title == text_or_none(document.get("title"@))
            &&& match document.get("revision"@) {
                Some(JsonView::Number { value: Some(n), .. }) => pane.revision == n,
                _ => pane.revision == 0,
            }
            &&& match document.get("agent_status"@) {
                Some(JsonView::Text(status)) => if status == "unknown"@ {
                    pane.agent_status is None
                } else {
                    pane.agent_status == Some(status)
                },
                _ => pane.agent_status is None,
            }
        }),
{
}

/// Where there is no list, none is read.
pub proof fn only_lists_are_read(body: JsonView)
    ensures
        !(body.get("panes"@) is Some && body.get("panes"@)->0 is Array) ==> api::panes_in(body)
            is None,
        !(body.get("workspaces"@) is Some && body.get("workspaces"@)->0 is Array)
            ==> api::workspaces_in(body) is None,
        body.get("process_info"@) is None ==> api::process_info_in(body) is None,
        body.get("process_info"@) is Some ==> {
            let listed = body.get("process_info"@)->0.get("foreground_processes"@);
            &&& api::process_info_in(body) is Some
            &&& !(listed is Some && listed->0 is Array) ==> api::process_info_in(
                body,
            )->0.foreground_pids.len() == 0
        },
        body.get("plugin_pane"@) is None ==> api::opened_pane_in(body) is None,
{
}

// =============================== workspaces ===============================

/// The settings of a workspace are the texts among its tokens, each under its own name;
/// of several under a name the last one counts.
pub proof fn tokens_are_read_as_written(fields: Seq<(Seq<char>, JsonView)>, key: Seq<char>, i: int)
    ensures
        ({
            let tokens = api::tokens_in(Some(JsonView::Object(fields)));
            &&& tokens.contains_key(key) <==> exists|j: int|
                0 <= j < fields.len() && (#[trigger] fields[j]).0 == key && fields[j].1 is Text
            &&& 0 <= i < fields.len() && fields[i].0 == key && fields[i].1 is Text && (forall|
                j: int,
            |
                i < j < fields.len() ==> (#[trigger] fields[j]).0 != key || !(fields[j].1 is Text))
                ==> tokens[key] == fields[i].1->Text_0
        }),
        api::tokens_in(None).dom() == Set::<Seq<char>>::empty(),
    decreases fields.len(),
{
    let tokens = api::text_members(fields);
    if fields.len() > 0 {
        let front = fields.drop_last();
        let last = fields.last();
        tokens_are_read_as_written(front, key, i);
        assert(fields[fields.len() - 1] == last);
        assert forall|j: int| 0 <= j < front.len() implies #[trigger] front[j] == fields[j] by {}
        if exists|j: int|
            0 <= j < front.len() && (#[trigger] front[j]).0 == key && front[j].1 is Text {
            let j = choose|j: int|
                0 <= j < front.len() && (#[trigger] front[j]).0 == key && front[j].1 is Text;
            assert(fields[j].0 == key && fields[j].1 is Text);
        }
        if exists|j: int|
            0 <= j < fields.len() && (#[trigger] fields[j]).0 == key && fields[j].1 is Text {
            let j = choose|j: int|
                0 <= j < fields.len() && (#[trigger] fields[j]).0 == key && fields[j].1 is Text;
            if j < front.len() {
                assert(front[j].0 == key && front[j].1 is Text);
            }
        }
    }
    assert(api::tokens_in(None).dom() =~= Set::<Seq<char>>::empty());
}

/// A list of workspaces is read as it is written: every workspace, in order, with its
/// own id, name and settings; what is not written as it should be is empty.
pub proof fn workspaces_are_read_as_written(body: JsonView, items: Seq<JsonView>, i: int)
    requires
        body.get("workspaces"@) == Some(JsonView::Array(items)),
        0 <= i < items.len(),
    ensures
        api::workspaces_in(body) matches Some(read) && {
            &&& read.len() == items.len()
            &&& read[i].workspace_id == text_or_empty(items[i].get("workspace_id"@))
            &&& read[i].label == text_or_empty(items[i].get("label"@))
            &&& match items[i].get("tokens"@) {
                Some(JsonView::Object(fields)) => read[i].tokens == api::tokens_in(
                    Some(JsonView::Object(fields)),
                ),
                _ => read[i].tokens.dom() == Set::<Seq<char>>::empty(),
            }
        },
{
    assert(api::tokens_in(None).dom() =~= Set::<Seq<char>>::empty());
    match items[i].get("tokens"@) {
        Some(v) => {
            if !(v is Object) {
                assert(api::tokens_in(Some(v)).dom() =~= Set::<Seq<char>>::empty());
            }
        },
        None => {},
    }
}

// =============================== processes ===============================

proof fn lemma_pids(items: Seq<JsonView>, pid: u32)
    ensures
        ({
            let f = |p: JsonView| api::pid_at(p, "pid"@);
            let pids = items.filter_map(f);
            &&& pids.contains(pid) <==> exists|i: int|
                0 <= i < items.len() && api::pid_at(#[trigger] items[i], "pid"@) == Some(pid)
            &&& (forall|i: int|
                0 <= i < items.len() ==> api::pid_at(#[trigger] items[i], "pid"@) is Some)
                ==> pids.len() == items.len() && forall|i: int|
                0 <= i < items.len() ==> Some(#[trigger] pids[i]) == api::pid_at(
                    items[i],
                    "pid"@,
                )
        }),
    decreases items.len(),
{
    let f = |p: JsonView| api::pid_at(p, "pid"@);
    let pids = items.filter_map(f);
    reveal(Seq::filter_map);
    if items.len() > 0 {
        let front = items.drop_last();
        let n = front.len() as int;
        let earlier = front.filter_map(f);
        lemma_pids(front, pid);
        items.lemma_filter_map_take_succ(f, n);
        assert(items.take(n + 1) =~= items);
        assert(items.take(n) =~= front);
        assert forall|j: int| 0 <= j < front.len() implies #[trigger] front[j] == items[j] by {}
        if earlier.contains(pid) {
            let k = choose|k: int| 0 <= k < earlier.len() && earlier[k] == pid;
            assert(pids[k] == pid);
            let i = choose|i: int|
                0 <= i < front.len() && api::pid_at(#[trigger] front[i], "pid"@) == Some(pid);
            assert(api::pid_at(items[i], "pid"@) == Some(pid));
        }
        if f(items[n]) is Some {
            assert(pids == earlier.push(f(items[n])->0));
            assert(pids[earlier.len() as int] == f(items[n])->0);
        }
        if pids.contains(pid) {
            let k = choose|k: int| 0 <= k < pids.len() && pids[k] == pid;
            if k < earlier.len() {
                assert(earlier[k] == pid);
            }
        }
        if exists|i: int|
            0 <= i < items.len() && api::pid_at(#[trigger] items[i], "pid"@) == Some(pid) {
            let i = choose|i: int|
                0 <= i < items.len() && api::pid_at(#[trigger] items[i], "pid"@) == Some(pid);
            if i < n {
                assert(api::pid_at(front[i], "pid"@) == Some(pid));
            }
        }
        if forall|i: int| 0 <= i < items.len() ==> api::pid_at(#[trigger] items[i], "pid"@) is Some {
            assert forall|i: int| 0 <= i < front.len() implies api::pid_at(
                #[trigger] front[i],
                "pid"@,
            ) is Some by {
                assert(api::pid_at(items[i], "pid"@) is Some);
            }
            assert(api::pid_at(items[n], "pid"@) is Some);
        }
    }
}

/// The processes of a pane are read as they are written: its shell, its group, and every
/// process in the foreground, in order.
pub proof fn processes_are_read_as_written(
    body: JsonView,
    info: JsonView,
    items: Seq<JsonView>,
    processes: ProcessInfoView,
)
    requires
        body.get("process_info"@) == Some(info),
        info.get("foreground_processes"@) == Some(JsonView::Array(items)),
        items.len() == processes.foreground_pids.len(),
        forall|i: int|
            0 <= i < items.len() ==> holds_number(
                #[trigger] items[i],
                "pid"@,
                processes.foreground_pids[i] as u64,
            ),
        match processes.shell_pid {
            Some(pid) => holds_number(info, "shell_pid"@, pid as u64),
            None => !holds_any_number(info, "shell_pid"@),
        },
        match processes.foreground_process_group_id {
            Some(pid) => holds_number(info, "foreground_process_group_id"@, pid as u64),
            None => !holds_any_number(info, "foreground_process_group_id"@),
        },
    ensures
        api::process_info_in(body) == Some(processes),
{
    lemma_pids(items, 0);
    if info.number_at("shell_pid"@) is Some {
        assert(holds_number(info, "shell_pid"@, info.number_at("shell_pid"@)->0));
    }
    if info.number_at("foreground_process_group_id"@) is Some {
        assert(holds_number(
            info,
            "foreground_process_group_id"@,
            info.number_at("foreground_process_group_id"@)->0,
        ));
    }
    let f = |p: JsonView| api::pid_at(p, "pid"@);
    let pids = items.filter_map(f);
    assert forall|i: int| 0 <= i < items.len() implies api::pid_at(#[trigger] items[i], "pid"@)
        == Some(processes.foreground_pids[i]) by {
        assert(holds_number(items[i], "pid"@, processes.foreground_pids[i] as u64));
    }
    assert(pids =~= processes.foreground_pids);
}

/// A process that is written without its number is passed over, and no other is.
pub proof fn processes_without_numbers_are_passed_over(
    body: JsonView,
    info: JsonView,
    items: Seq<JsonView>,
    pid: u32,
)
    requires
        body.get("process_info"@) == Some(info),
        info.get("foreground_processes"@) == Some(JsonView::Array(items)),
    ensures
        api::process_info_in(body) matches Some(processes) && (
        processes.foreground_pids.contains(pid) <==> exists|i: int, n: u64|
            0 <= i < items.len() && #[trigger] holds_number(items[i], "pid"@, n) && n
                % 0x1_0000_0000 == pid),
{
    lemma_pids(items, pid);
    if exists|i: int|
        0 <= i < items.len() && api::pid_at(#[trigger] items[i], "pid"@) == Some(pid) {
        let i = choose|i: int|
            0 <= i < items.len() && api::pid_at(#[trigger] items[i], "pid"@) == Some(pid);
        let n = items[i].number_at("pid"@)->0;
        assert(holds_number(items[i], "pid"@, n));
    }
    if exists|i: int, n: u64|
        0 <= i < items.len() && #[trigger] holds_number(items[i], "pid"@, n) && n % 0x1_0000_0000
            == pid {
        let (i, n) = choose|i: int, n: u64|
            0 <= i < items.len() && #[trigger] holds_number(items[i], "pid"@, n) && n
                % 0x1_0000_0000 == pid;
        assert(api::pid_at(items[i], "pid"@) == Some(pid));
    }
}

/// The pane that was opened is read from where it stands.
pub proof fn opened_pane_is_read_as_written(
    body: JsonView,
    plugin_pane: JsonView,
    pane: JsonView,
    pane_id: Seq<char>,
)
    requires
        body.get("plugin_pane"@) == Some(plugin_pane),
        plugin_pane.get("pane"@) == Some(pane),
        pane.get("pane_id"@) == Some(JsonView::Text(pane_id)),
    ensures
        api::opened_pane_in(body) == Some(pane_id),
{
}

// =============================== calls ===============================

/// Each token is set by two words, in order: the flag, and its name with its value behind
/// a sign of equality. Each key is cleared by two words too.
pub proof fn tokens_are_passed_one_by_one(
    tokens: Seq<(Seq<char>, Seq<char>)>,
    keys: Seq<Seq<char>>,
    i: int,
)
    ensures
        api::token_args(tokens).len() == 2 * tokens.len(),
        api::clear_args(keys).len() == 2 * keys.len(),
        0 <= i < tokens.len() ==> api::token_args(tokens)[2 * i] == "--token"@ && api::token_args(
            tokens,
        )[2 * i + 1] == tokens[i].0 + "="@ + tokens[i].1,
        0 <= i < keys.len() ==> api::clear_args(keys)[2 * i] == "--clear-token"@
            && api::clear_args(keys)[2 * i + 1] == keys[i],
    decreases tokens.len() + keys.len(),
{
    if tokens.len() > 0 && keys.len() > 0 {
        tokens_are_passed_one_by_one(tokens.drop_last(), keys.drop_last(), i);
    } else if tokens.len() > 0 {
        tokens_are_passed_one_by_one(tokens.drop_last(), keys, i);
    } else if keys.len() > 0 {
        tokens_are_passed_one_by_one(tokens, keys.drop_last(), i);
    }
}

/// The words of a call are told with a blank between each two.
pub proof fn calls_are_told_word_by_word(words: Seq<Seq<char>>, word: Seq<char>)
    ensures
        api::joined(Seq::empty()) == Seq::<char>::empty(),
        api::joined(seq![word]) == word,
        words.len() > 0 ==> api::joined(words.push(word)) == api::joined(words) + " "@ + word,
{
    assert(words.push(word).drop_last() =~= words);
}

/// An error tells its reason: which program could not be started and why, how a call
/// ended and what it printed, or the document that was refused or lacks something.
pub proof fn errors_tell_their_reason(
    program: Seq<char>,
    args: Seq<Seq<char>>,
    a: Seq<char>,
    b: Seq<char>,
    c: Seq<char>,
    order: bool,
)
    ensures
        api::error_told(ApiErrorView::NotStarted(a), program, args, order)
            == "spawn herdr failed ("@ + program + "): "@ + a,
        api::error_told(
            ApiErrorView::Failed { status: a, stdout: b, stderr: c },
            program,
            args,
            true,
        ) == "herdr "@ + api::joined(args) + " exited "@ + a + ": "@ + c,
        api::error_told(
            ApiErrorView::Failed { status: a, stdout: b, stderr: c },
            program,
            args,
            false,
        ) == "herdr "@ + api::joined(args) + " exited "@ + a + ": stderr="@ + c + " stdout="@ + b,
        api::error_told(ApiErrorView::NotJson { reason: a, stdout: b }, program, args, order)
            == "parse herdr json failed: "@ + a + "; raw="@ + b,
        api::error_told(ApiErrorView::Refused { document: a }, program, args, order) == "herdr "@
            + api::joined(args) + " error: "@ + a,
        api::error_told(ApiErrorView::Missing { what: a, body: b }, program, args, order) == a
            + ": "@ + b,
{
}

} // verus!
