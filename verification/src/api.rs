//! What Herdr is asked on its command line, and what its replies say.
//!
//! A reply is one JSON object: `{"id", "result": {..}}`, or `{"id", "error"}`
//! where Herdr refuses. The commands are run elsewhere: here they are lists of
//! arguments, and what came back is a [`CommandResult`].

use vstd::prelude::*;
use vstd::string::*;

use crate::json;
use crate::json::{json_of, member_of, parse_value, render_value, Json, JsonView};
use crate::string_map::StringMap;
use crate::text;
use crate::text::{decimal, same, trim};

verus! {

/// The program to run: the configured one, or `herdr`.
pub fn bin_path(configured: Option<String>) -> (r: String)
    ensures
        r@ == (match configured {
            Some(path) => path@,
            None => "herdr"@,
        }),
{
    match configured {
        Some(path) => path,
        None => "herdr".to_owned(),
    }
}

// =============================== replies ===============================

/// How a Herdr command ended.
#[derive(Debug)]
pub enum CommandResult {
    /// The program could not be started, and why.
    NotStarted(String),
    /// The program ran to its end.
    Exited { success: bool, status: String, stdout: String, stderr: String },
}

pub enum CommandResultView {
    NotStarted(Seq<char>),
    Exited { success: bool, status: Seq<char>, stdout: Seq<char>, stderr: Seq<char> },
}

impl View for CommandResult {
    type V = CommandResultView;

    open spec fn view(&self) -> CommandResultView {
        match self {
            CommandResult::NotStarted(reason) => CommandResultView::NotStarted(reason@),
            CommandResult::Exited { success, status, stdout, stderr } => CommandResultView::Exited {
                success: *success,
                status: status@,
                stdout: stdout@,
                stderr: stderr@,
            },
        }
    }
}

/// Why a Herdr command gave nothing to work with.
#[derive(Debug)]
pub enum ApiError {
    /// The program could not be started.
    NotStarted(String),
    /// The program reported failure.
    Failed { status: String, stdout: String, stderr: String },
    /// The reply is no JSON.
    NotJson { reason: String, stdout: String },
    /// The reply carries an error; the whole document, as JSON.
    Refused { document: String },
    /// The reply lacks a part that it should have; its body, as JSON.
    Missing { what: String, body: String },
}

pub enum ApiErrorView {
    NotStarted(Seq<char>),
    Failed { status: Seq<char>, stdout: Seq<char>, stderr: Seq<char> },
    NotJson { reason: Seq<char>, stdout: Seq<char> },
    Refused { document: Seq<char> },
    Missing { what: Seq<char>, body: Seq<char> },
}

impl View for ApiError {
    type V = ApiErrorView;

    open spec fn view(&self) -> ApiErrorView {
        match self {
            ApiError::NotStarted(reason) => ApiErrorView::NotStarted(reason@),
            ApiError::Failed { status, stdout, stderr } => ApiErrorView::Failed {
                status: status@,
                stdout: stdout@,
                stderr: stderr@,
            },
            ApiError::NotJson { reason, stdout } => ApiErrorView::NotJson {
                reason: reason@,
                stdout: stdout@,
            },
            ApiError::Refused { document } => ApiErrorView::Refused { document: document@ },
            ApiError::Missing { what, body } => ApiErrorView::Missing { what: what@, body: body@ },
        }
    }
}

/// What a document says that carries no error: its result, or all of it where it names none.
pub open spec fn reply_body(document: JsonView) -> JsonView {
    match document.get("result"@) {
        Some(result) => result,
        None => document,
    }
}

/// The document that a command printed, if it is an answer.
pub open spec fn reply_document(command: CommandResultView) -> Result<JsonView, ApiErrorView> {
    match command {
        CommandResultView::NotStarted(reason) => Err(ApiErrorView::NotStarted(reason)),
        CommandResultView::Exited { success, status, stdout, stderr } => if !success {
            Err(ApiErrorView::Failed { status, stdout, stderr })
        } else {
            match json::json_parsed(text::trimmed(stdout)) {
                Err(reason) => Err(ApiErrorView::NotJson { reason, stdout }),
                Ok(document) => if document.get("error"@) is Some {
                    Err(ApiErrorView::Refused { document: json::json_rendered(document) })
                } else {
                    Ok(document)
                },
            }
        },
    }
}

/// What a command answered.
pub open spec fn reply(command: CommandResultView) -> Result<JsonView, ApiErrorView> {
    match reply_document(command) {
        Ok(document) => Ok(reply_body(document)),
        Err(e) => Err(e),
    }
}

/// That a command was carried out: it succeeded, and did not print an error all the same.
pub open spec fn carried_out(command: CommandResultView) -> Result<(), ApiErrorView> {
    match command {
        CommandResultView::NotStarted(reason) => Err(ApiErrorView::NotStarted(reason)),
        CommandResultView::Exited { success, status, stdout, stderr } => if !success {
            Err(ApiErrorView::Failed { status, stdout, stderr })
        } else {
            match json::json_parsed(text::trimmed(stdout)) {
                Err(_) => Ok(()),
                Ok(document) => if document.get("error"@) is Some {
                    Err(ApiErrorView::Refused { document: json::json_rendered(document) })
                } else {
                    Ok(())
                },
            }
        },
    }
}

/// The result in a document, or the document itself where it names none.
fn body_of<'a>(document: &'a serde_json::Value) -> (r: &'a serde_json::Value)
    ensures
        json::value_contents(*r) == reply_body(json::value_contents(*document)),
{
    match member_of(document, "result") {
        Some(result) => result,
        None => document,
    }
}

/// Reads the document that a command printed.
fn read_reply(command: &CommandResult) -> (r: Result<serde_json::Value, ApiError>)
    ensures
        match r {
            Ok(document) => reply_document(command@) == Ok::<JsonView, ApiErrorView>(
                json::value_contents(document),
            ),
            Err(e) => reply_document(command@) == Err::<JsonView, ApiErrorView>(e@),
        },
{
    match command {
        CommandResult::NotStarted(reason) => Err(ApiError::NotStarted(reason.clone())),
        CommandResult::Exited { success, status, stdout, stderr } => {
            if !*success {
                return Err(
                    ApiError::Failed {
                        status: status.clone(),
                        stdout: stdout.clone(),
                        stderr: stderr.clone(),
                    },
                );
            }
            match parse_value(trim(stdout.as_str())) {
                Err(reason) => Err(ApiError::NotJson { reason, stdout: stdout.clone() }),
                Ok(document) => if member_of(&document, "error").is_some() {
                    Err(ApiError::Refused { document: render_value(&document) })
                } else {
                    Ok(document)
                },
            }
        },
    }
}

/// Reads what a command answered.
pub fn run_json(command: &CommandResult) -> (r: Result<Json, ApiError>)
    ensures
        match r {
            Ok(body) => reply(command@) == Ok::<JsonView, ApiErrorView>(body@),
            Err(e) => reply(command@) == Err::<JsonView, ApiErrorView>(e@),
        },
{
    match read_reply(command) {
        Ok(document) => Ok(json_of(body_of(&document))),
        Err(e) => Err(e),
    }
}

/// Tells whether a command was carried out whose answer says nothing else.
pub fn run_ok(command: &CommandResult) -> (r: Result<(), ApiError>)
    ensures
        match r {
            Ok(_) => carried_out(command@) is Ok,
            Err(e) => carried_out(command@) == Err::<(), ApiErrorView>(e@),
        },
{
    match command {
        CommandResult::NotStarted(reason) => Err(ApiError::NotStarted(reason.clone())),
        CommandResult::Exited { success, status, stdout, stderr } => {
            if !*success {
                return Err(
                    ApiError::Failed {
                        status: status.clone(),
                        stdout: stdout.clone(),
                        stderr: stderr.clone(),
                    },
                );
            }
            match parse_value(trim(stdout.as_str())) {
                Err(_) => Ok(()),
                Ok(document) => if member_of(&document, "error").is_some() {
                    Err(ApiError::Refused { document: render_value(&document) })
                } else {
                    Ok(())
                },
            }
        },
    }
}

/// Words with a blank between each two.
pub open spec fn joined(words: Seq<Seq<char>>) -> Seq<char>
    decreases words.len(),
{
    if words.len() == 0 {
        Seq::empty()
    } else if words.len() == 1 {
        words[0]
    } else {
        joined(words.drop_last()) + " "@ + words.last()
    }
}

fn join(words: &Vec<String>) -> (r: String)
    ensures
        r@ == joined(words.deep_view()),
{
    let ghost all = words.deep_view();
    if words.len() == 0 {
        return String::new();
    }
    let mut out = words[0].clone();
    let mut i: usize = 1;
    assert(all.take(1)[0] == words@[0]@);
    while i < words.len()
        invariant
            1 <= i <= words.len(),
            all == words.deep_view(),
            out@ == joined(all.take(i as int)),
        decreases words.len() - i,
    {
        proof {
            assert(all.take(i + 1).drop_last() =~= all.take(i as int));
            assert(all.take(i + 1).last() == words@[i as int]@);
        }
        out = out.concat(" ").concat(words[i].as_str());
        i = i + 1;
    }
    assert(all.take(all.len() as int) =~= all);
    out
}

/// How an error is told that a call of the program with these arguments came to. Of an
/// order that failed, what the program printed is left out.
pub open spec fn error_told(
    error: ApiErrorView,
    program: Seq<char>,
    args: Seq<Seq<char>>,
    order: bool,
) -> Seq<char> {
    match error {
        ApiErrorView::NotStarted(reason) => "spawn herdr failed ("@ + program + "): "@ + reason,
        ApiErrorView::Failed { status, stdout, stderr } => if order {
            "herdr "@ + joined(args) + " exited "@ + status + ": "@ + stderr
        } else {
            "herdr "@ + joined(args) + " exited "@ + status + ": stderr="@ + stderr + " stdout="@
                + stdout
        },
        ApiErrorView::NotJson { reason, stdout } => "parse herdr json failed: "@ + reason
            + "; raw="@ + stdout,
        ApiErrorView::Refused { document } => "herdr "@ + joined(args) + " error: "@ + document,
        ApiErrorView::Missing { what, body } => what + ": "@ + body,
    }
}

/// Tells an error.
pub fn tell_error(error: &ApiError, program: &str, args: &Vec<String>, order: bool) -> (r: String)
    ensures
        r@ == error_told(error@, program@, args.deep_view(), order),
{
    match error {
        ApiError::NotStarted(reason) => "spawn herdr failed (".to_owned().concat(program).concat(
            "): ",
        ).concat(reason.as_str()),
        ApiError::Failed { status, stdout, stderr } => {
            let front = "herdr ".to_owned().concat(join(args).as_str()).concat(" exited ").concat(
                status.as_str(),
            );
            if order {
                front.concat(": ").concat(stderr.as_str())
            } else {
                front.concat(": stderr=").concat(stderr.as_str()).concat(" stdout=").concat(
                    stdout.as_str(),
                )
            }
        },
        ApiError::NotJson { reason, stdout } => "parse herdr json failed: ".to_owned().concat(
            reason.as_str(),
        ).concat("; raw=").concat(stdout.as_str()),
        ApiError::Refused { document } => "herdr ".to_owned().concat(
            join(args).as_str(),
        ).concat(" error: ").concat(document.as_str()),
        ApiError::Missing { what, body } => what.clone().concat(": ").concat(body.as_str()),
    }
}

// =============================== workspaces ===============================

/// A workspace, with the settings that are kept as its metadata tokens.
#[derive(Debug, Clone)]
pub struct Workspace {
    pub workspace_id: String,
    pub label: String,
    pub tokens: StringMap<String>,
}

pub struct WorkspaceView {
    pub workspace_id: Seq<char>,
    pub label: Seq<char>,
    pub tokens: Map<Seq<char>, Seq<char>>,
}

/// The texts under the keys of a map.
pub open spec fn token_texts(tokens: Map<Seq<char>, String>) -> Map<Seq<char>, Seq<char>> {
    tokens.map_values(|s: String| s@)
}

impl View for Workspace {
    type V = WorkspaceView;

    open spec fn view(&self) -> WorkspaceView {
        WorkspaceView {
            workspace_id: self.workspace_id@,
            label: self.label@,
            tokens: token_texts(self.tokens@),
        }
    }
}

impl DeepView for Workspace {
    type V = WorkspaceView;

    open spec fn deep_view(&self) -> WorkspaceView {
        self@
    }
}

/// A text that may be missing: the empty one then.
pub open spec fn or_empty(text: Option<Seq<char>>) -> Seq<char> {
    match text {
        Some(s) => s,
        None => Seq::empty(),
    }
}

fn text_or_empty(text: Option<String>) -> (r: String)
    ensures
        r@ == or_empty(text.deep_view()),
{
    match text {
        Some(s) => s,
        None => String::new(),
    }
}

/// The members that are texts, as a map; a later one takes the place of an earlier.
pub open spec fn text_members(fields: Seq<(Seq<char>, JsonView)>) -> Map<Seq<char>, Seq<char>>
    decreases fields.len(),
{
    if fields.len() == 0 {
        Map::empty()
    } else {
        let earlier = text_members(fields.drop_last());
        match fields.last().1.text() {
            Some(s) => earlier.insert(fields.last().0, s),
            None => earlier,
        }
    }
}

/// The tokens that a member writes: none where it is missing or no object.
pub open spec fn tokens_in(value: Option<JsonView>) -> Map<Seq<char>, Seq<char>> {
    match value {
        Some(v) => match v.fields() {
            Some(fields) => text_members(fields),
            None => Map::empty(),
        },
        None => Map::empty(),
    }
}

/// Reads the tokens of a workspace.
pub fn token_map(value: Option<&Json>) -> (r: StringMap<String>)
    ensures
        token_texts(r@) == tokens_in(
            match value {
                Some(v) => Some(v@),
                None => None,
            },
        ),
{
    let mut map: StringMap<String> = StringMap::new();
    assert(token_texts(map@) =~= Map::<Seq<char>, Seq<char>>::empty());
    let fields = match value {
        Some(v) => match v.as_object() {
            Some(fields) => fields,
            None => {
                return map;
            },
        },
        None => {
            return map;
        },
    };
    let ghost all = json::field_views(fields@);
    let mut i: usize = 0;
    while i < fields.len()
        invariant
            i <= fields.len(),
            all == json::field_views(fields@),
            token_texts(map@) == text_members(all.take(i as int)),
        decreases fields.len() - i,
    {
        assert(all.take(i + 1).drop_last() == all.take(i as int));
        match fields[i].1.as_text() {
            Some(s) => {
                let ghost before = map@;
                map.insert(fields[i].0.as_str(), s.clone());
                assert(token_texts(map@) =~= token_texts(before).insert(fields@[i as int].0@, s@));
            },
            None => {},
        }
        i = i + 1;
    }
    assert(all.take(all.len() as int) == all);
    map
}

/// A workspace as a reply writes it.
pub open spec fn workspace_in(ws: JsonView) -> WorkspaceView {
    WorkspaceView {
        workspace_id: or_empty(ws.text_at("workspace_id"@)),
        label: or_empty(ws.text_at("label"@)),
        tokens: tokens_in(ws.get("tokens"@)),
    }
}

/// The workspaces that a reply lists, if it has such a list.
pub open spec fn workspaces_in(body: JsonView) -> Option<Seq<WorkspaceView>> {
    match body.items_at("workspaces"@) {
        Some(items) => Some(items.map_values(|ws: JsonView| workspace_in(ws))),
        None => None,
    }
}

/// Reads the workspaces out of the body of a reply.
pub fn workspaces_of(body: &Json) -> (r: Option<Vec<Workspace>>)
    ensures
        r.deep_view() == workspaces_in(body@),
{
    let items = match body.items_at("workspaces") {
        Some(items) => items,
        None => {
            return None;
        },
    };
    let ghost all = json::views(items@);
    let mut out: Vec<Workspace> = Vec::new();
    let mut i: usize = 0;
    while i < items.len()
        invariant
            i <= items.len(),
            out.len() == i,
            all == json::views(items@),
            forall|k: int| 0 <= k < i ==> #[trigger] out@[k]@ == workspace_in(all[k]),
        decreases items.len() - i,
    {
        let ws = &items[i];
        out.push(
            Workspace {
                workspace_id: text_or_empty(ws.text_at("workspace_id")),
                label: text_or_empty(ws.text_at("label")),
                tokens: token_map(ws.get("tokens")),
            },
        );
        i = i + 1;
    }
    assert(out.deep_view() =~= all.map_values(|ws: JsonView| workspace_in(ws)));
    Some(out)
}

/// What the arguments of a command are.
pub fn workspace_list_args() -> (r: Vec<String>)
    ensures
        r.deep_view() == seq!["workspace"@, "list"@],
{
    let r: Vec<String> = vec!["workspace".to_owned(), "list".to_owned()];
    assert(r.deep_view() =~= seq!["workspace"@, "list"@]);
    r
}

/// The workspaces that a command listed.
pub open spec fn workspaces_listed(command: CommandResultView) -> Result<
    Seq<WorkspaceView>,
    ApiErrorView,
> {
    match reply(command) {
        Err(e) => Err(e),
        Ok(body) => match workspaces_in(body) {
            Some(list) => Ok(list),
            None => Err(
                lacks("workspace list: missing workspaces array"@, body),
            ),
        },
    }
}

/// The error of a reply that lacks a part.
pub open spec fn lacks(what: Seq<char>, body: JsonView) -> ApiErrorView {
    ApiErrorView::Missing { what, body: json::json_rendered(body) }
}

fn missing(what: &str, body: &serde_json::Value) -> (r: ApiError)
    ensures
        r@ == lacks(what@, json::value_contents(*body)),
{
    ApiError::Missing { what: what.to_owned(), body: render_value(body) }
}

/// Reads the answer to `workspace list`.
pub fn workspace_list(command: &CommandResult) -> (r: Result<Vec<Workspace>, ApiError>)
    ensures
        match r {
            Ok(list) => workspaces_listed(command@) == Ok::<Seq<WorkspaceView>, ApiErrorView>(
                list.deep_view(),
            ),
            Err(e) => workspaces_listed(command@) == Err::<Seq<WorkspaceView>, ApiErrorView>(e@),
        },
{
    let document = match read_reply(command) {
        Ok(document) => document,
        Err(e) => {
            return Err(e);
        },
    };
    let body = body_of(&document);
    match workspaces_of(&json_of(body)) {
        Some(list) => Ok(list),
        None => Err(missing("workspace list: missing workspaces array", body)),
    }
}

/// How long metadata is kept: a day, the longest there is.
pub const METADATA_TTL_MS: u64 = 86_400_000;

/// The front of the arguments that write the metadata of a workspace.
pub open spec fn metadata_front(workspace_id: Seq<char>, ttl_ms: u64) -> Seq<Seq<char>> {
    seq![
        "workspace"@,
        "report-metadata"@,
        workspace_id,
        "--source"@,
        "herdr-freeze"@,
        "--ttl-ms"@,
        text::decimal_of(ttl_ms as nat),
    ]
}

fn metadata_args(workspace_id: &str, ttl_ms: u64) -> (r: Vec<String>)
    ensures
        r.deep_view() == metadata_front(workspace_id@, ttl_ms),
{
    let r: Vec<String> = vec![
        "workspace".to_owned(),
        "report-metadata".to_owned(),
        workspace_id.to_owned(),
        "--source".to_owned(),
        "herdr-freeze".to_owned(),
        "--ttl-ms".to_owned(),
        decimal(ttl_ms),
    ];
    assert(r.deep_view() =~= metadata_front(workspace_id@, ttl_ms));
    r
}

/// The arguments that set tokens, two for each.
pub open spec fn token_args(tokens: Seq<(Seq<char>, Seq<char>)>) -> Seq<Seq<char>>
    decreases tokens.len(),
{
    if tokens.len() == 0 {
        Seq::empty()
    } else {
        token_args(tokens.drop_last()).push("--token"@).push(
            tokens.last().0 + "="@ + tokens.last().1,
        )
    }
}

/// The arguments that clear tokens, two for each.
pub open spec fn clear_args(keys: Seq<Seq<char>>) -> Seq<Seq<char>>
    decreases keys.len(),
{
    if keys.len() == 0 {
        Seq::empty()
    } else {
        clear_args(keys.drop_last()).push("--clear-token"@).push(keys.last())
    }
}

/// What pushing onto a list of texts does to the texts.
pub proof fn lemma_push_text(list: Vec<String>, pushed: Vec<String>, s: String)
    requires
        pushed@ == list@.push(s),
    ensures
        pushed.deep_view() == list.deep_view().push(s@),
{
    assert(pushed.deep_view() =~= list.deep_view().push(s@));
}

/// Appends a text to a list of texts.
pub fn push_text(list: &mut Vec<String>, s: String)
    ensures
        final(list).deep_view() == old(list).deep_view().push(s@),
{
    let ghost before = *list;
    list.push(s);
    proof {
        lemma_push_text(before, *list, s);
    }
}

/// The command that writes tokens into the metadata of a workspace.
pub fn workspace_report_metadata(
    workspace_id: &str,
    tokens: &Vec<(String, String)>,
    ttl_ms: u64,
) -> (r: Vec<String>)
    ensures
        r.deep_view() == metadata_front(workspace_id@, ttl_ms) + token_args(tokens.deep_view()),
{
    let mut args = metadata_args(workspace_id, ttl_ms);
    let ghost front = metadata_front(workspace_id@, ttl_ms);
    let ghost all = tokens.deep_view();
    let mut i: usize = 0;
    assert(front + token_args(all.take(0)) =~= front);
    while i < tokens.len()
        invariant
            i <= tokens.len(),
            all == tokens.deep_view(),
            args.deep_view() == front + token_args(all.take(i as int)),
        decreases tokens.len() - i,
    {
        proof {
            assert(all.take(i + 1).drop_last() == all.take(i as int));
            assert(all.take(i + 1).last() == (tokens@[i as int].0@, tokens@[i as int].1@));
        }
        push_text(&mut args, "--token".to_owned());
        let pair = tokens[i].0.clone().concat("=").concat(tokens[i].1.as_str());
        push_text(&mut args, pair);
        assert(args.deep_view() =~= front + token_args(all.take(i + 1)));
        i = i + 1;
    }
    assert(all.take(all.len() as int) == all);
    args
}

/// The command that clears tokens from the metadata of a workspace.
pub fn workspace_clear_metadata(workspace_id: &str, keys: &Vec<String>) -> (r: Vec<String>)
    ensures
        r.deep_view() == metadata_front(workspace_id@, METADATA_TTL_MS) + clear_args(
            keys.deep_view(),
        ),
{
    let mut args = metadata_args(workspace_id, METADATA_TTL_MS);
    let ghost front = metadata_front(workspace_id@, METADATA_TTL_MS);
    let ghost all = keys.deep_view();
    let mut i: usize = 0;
    assert(front + clear_args(all.take(0)) =~= front);
    while i < keys.len()
        invariant
            i <= keys.len(),
            all == keys.deep_view(),
            args.deep_view() == front + clear_args(all.take(i as int)),
        decreases keys.len() - i,
    {
        proof {
            assert(all.take(i + 1).drop_last() == all.take(i as int));
            assert(all.take(i + 1).last() == keys@[i as int]@);
        }
        push_text(&mut args, "--clear-token".to_owned());
        push_text(&mut args, keys[i].clone());
        assert(args.deep_view() =~= front + clear_args(all.take(i + 1)));
        i = i + 1;
    }
    assert(all.take(all.len() as int) == all);
    args
}

// =============================== panes ===============================

/// A pane.
#[derive(Debug, Clone)]
pub struct Pane {
    pub pane_id: String,
    pub workspace_id: String,
    pub tab_id: String,
    pub focused: bool,
    pub label: Option<String>,
    pub title: Option<String>,
    pub revision: u64,
    /// What an agent in the pane says of itself; nothing where no agent runs
    /// there or none is known.
    pub agent_status: Option<String>,
}

pub struct PaneView {
    pub pane_id: Seq<char>,
    pub workspace_id: Seq<char>,
    pub tab_id: Seq<char>,
    pub focused: bool,
    pub label: Option<Seq<char>>,
    pub title: Option<Seq<char>>,
    pub revision: u64,
    pub agent_status: Option<Seq<char>>,
}

impl View for Pane {
    type V = PaneView;

    open spec fn view(&self) -> PaneView {
        PaneView {
            pane_id: self.pane_id@,
            workspace_id: self.workspace_id@,
            tab_id: self.tab_id@,
            focused: self.focused,
            label: self.label.deep_view(),
            title: self.title.deep_view(),
            revision: self.revision,
            agent_status: self.agent_status.deep_view(),
        }
    }
}

impl DeepView for Pane {
    type V = PaneView;

    open spec fn deep_view(&self) -> PaneView {
        self@
    }
}

/// The state of an agent that a reply writes: an unknown one counts as none.
pub open spec fn agent_status_in(pane: JsonView) -> Option<Seq<char>> {
    match pane.text_at("agent_status"@) {
        Some(status) => if status == "unknown"@ {
            None
        } else {
            Some(status)
        },
        None => None,
    }
}

/// A pane as a reply writes it.
pub open spec fn pane_in(pane: JsonView) -> PaneView {
    PaneView {
        pane_id: or_empty(pane.text_at("pane_id"@)),
        workspace_id: or_empty(pane.text_at("workspace_id"@)),
        tab_id: or_empty(pane.text_at("tab_id"@)),
        focused: match pane.boolean_at("focused"@) {
            Some(b) => b,
            None => false,
        },
        label: pane.text_at("label"@),
        title: pane.text_at("title"@),
        revision: match pane.number_at("revision"@) {
            Some(n) => n,
            None => 0,
        },
        agent_status: agent_status_in(pane),
    }
}

/// The panes that a reply lists, if it has such a list.
pub open spec fn panes_in(body: JsonView) -> Option<Seq<PaneView>> {
    match body.items_at("panes"@) {
        Some(items) => Some(items.map_values(|pane: JsonView| pane_in(pane))),
        None => None,
    }
}

/// Reads the panes out of the body of a reply.
pub fn panes_of(body: &Json) -> (r: Option<Vec<Pane>>)
    ensures
        r.deep_view() == panes_in(body@),
{
    let items = match body.items_at("panes") {
        Some(items) => items,
        None => {
            return None;
        },
    };
    let ghost all = json::views(items@);
    let mut out: Vec<Pane> = Vec::new();
    let mut i: usize = 0;
    while i < items.len()
        invariant
            i <= items.len(),
            out.len() == i,
            all == json::views(items@),
            forall|k: int| 0 <= k < i ==> #[trigger] out@[k]@ == pane_in(all[k]),
        decreases items.len() - i,
    {
        let p = &items[i];
        let agent_status = match p.text_at("agent_status") {
            Some(status) => if same(status.as_str(), "unknown") {
                None
            } else {
                Some(status)
            },
            None => None,
        };
        out.push(
            Pane {
                pane_id: text_or_empty(p.text_at("pane_id")),
                workspace_id: text_or_empty(p.text_at("workspace_id")),
                tab_id: text_or_empty(p.text_at("tab_id")),
                focused: p.boolean_at("focused").unwrap_or(false),
                label: p.text_at("label"),
                title: p.text_at("title"),
                revision: p.number_at("revision").unwrap_or(0),
                agent_status,
            },
        );
        i = i + 1;
    }
    assert(out.deep_view() =~= all.map_values(|pane: JsonView| pane_in(pane)));
    Some(out)
}

/// The command that lists the panes of a workspace.
pub fn pane_list_args(workspace_id: &str) -> (r: Vec<String>)
    ensures
        r.deep_view() == seq!["pane"@, "list"@, "--workspace"@, workspace_id@],
{
    let r: Vec<String> = vec![
        "pane".to_owned(),
        "list".to_owned(),
        "--workspace".to_owned(),
        workspace_id.to_owned(),
    ];
    assert(r.deep_view() =~= seq!["pane"@, "list"@, "--workspace"@, workspace_id@]);
    r
}

/// The panes that a command listed.
pub open spec fn panes_listed(command: CommandResultView) -> Result<Seq<PaneView>, ApiErrorView> {
    match reply(command) {
        Err(e) => Err(e),
        Ok(body) => match panes_in(body) {
            Some(list) => Ok(list),
            None => Err(lacks("pane list: missing panes array"@, body)),
        },
    }
}

/// Reads the answer to `pane list`.
pub fn pane_list(command: &CommandResult) -> (r: Result<Vec<Pane>, ApiError>)
    ensures
        match r {
            Ok(list) => panes_listed(command@) == Ok::<Seq<PaneView>, ApiErrorView>(
                list.deep_view(),
            ),
            Err(e) => panes_listed(command@) == Err::<Seq<PaneView>, ApiErrorView>(e@),
        },
{
    let document = match read_reply(command) {
        Ok(document) => document,
        Err(e) => {
            return Err(e);
        },
    };
    let body = body_of(&document);
    match panes_of(&json_of(body)) {
        Some(list) => Ok(list),
        None => Err(missing("pane list: missing panes array", body)),
    }
}

/// The processes of a pane.
#[derive(Debug, Clone)]
pub struct ProcessInfo {
    pub shell_pid: Option<u32>,
    pub foreground_process_group_id: Option<u32>,
    /// The processes in the foreground.
    pub foreground_pids: Vec<u32>,
}

pub struct ProcessInfoView {
    pub shell_pid: Option<u32>,
    pub foreground_process_group_id: Option<u32>,
    pub foreground_pids: Seq<u32>,
}

impl View for ProcessInfo {
    type V = ProcessInfoView;

    open spec fn view(&self) -> ProcessInfoView {
        ProcessInfoView {
            shell_pid: self.shell_pid,
            foreground_process_group_id: self.foreground_process_group_id,
            foreground_pids: self.foreground_pids@,
        }
    }
}

impl DeepView for ProcessInfo {
    type V = ProcessInfoView;

    open spec fn deep_view(&self) -> ProcessInfoView {
        self@
    }
}

/// A process id as a reply writes it: the low 32 bits of the number.
pub open spec fn pid_at(value: JsonView, key: Seq<char>) -> Option<u32> {
    match value.number_at(key) {
        Some(n) => Some((n % 0x1_0000_0000) as u32),
        None => None,
    }
}

fn read_pid(value: &Json, key: &str) -> (r: Option<u32>)
    ensures
        r == pid_at(value@, key@),
{
    match value.number_at(key) {
        Some(n) => Some((n % 0x1_0000_0000) as u32),
        None => None,
    }
}

/// The processes that a reply describes, if it describes any.
pub open spec fn process_info_in(body: JsonView) -> Option<ProcessInfoView> {
    match body.get("process_info"@) {
        Some(info) => Some(
            ProcessInfoView {
                shell_pid: pid_at(info, "shell_pid"@),
                foreground_process_group_id: pid_at(info, "foreground_process_group_id"@),
                foreground_pids: match info.items_at("foreground_processes"@) {
                    Some(items) => items.filter_map(|p: JsonView| pid_at(p, "pid"@)),
                    None => Seq::empty(),
                },
            },
        ),
        None => None,
    }
}

/// Reads the processes out of the body of a reply.
pub fn process_info_of(body: &Json) -> (r: Option<ProcessInfo>)
    ensures
        match r {
            Some(info) => process_info_in(body@) == Some(info@),
            None => process_info_in(body@) is None,
        },
{
    let info = match body.get("process_info") {
        Some(info) => info,
        None => {
            return None;
        },
    };
    let mut pids: Vec<u32> = Vec::new();
    let ghost f = |p: JsonView| pid_at(p, "pid"@);
    match info.items_at("foreground_processes") {
        Some(items) => {
            let ghost all = json::views(items@);
            let mut i: usize = 0;
            assert(all.take(0).filter_map(f) =~= Seq::<u32>::empty()) by {
                reveal(Seq::filter_map);
            }
            while i < items.len()
                invariant
                    i <= items.len(),
                    all == json::views(items@),
                    f == (|p: JsonView| pid_at(p, "pid"@)),
                    pids@ == all.take(i as int).filter_map(f),
                decreases items.len() - i,
            {
                proof {
                    all.lemma_filter_map_take_succ(f, i as int);
                }
                match read_pid(&items[i], "pid") {
                    Some(pid) => pids.push(pid),
                    None => {},
                }
                i = i + 1;
            }
            assert(all.take(all.len() as int) == all);
        },
        None => {},
    }
    Some(
        ProcessInfo {
            shell_pid: read_pid(info, "shell_pid"),
            foreground_process_group_id: read_pid(info, "foreground_process_group_id"),
            foreground_pids: pids,
        },
    )
}

/// The command that describes the processes of a pane.
pub fn pane_process_info_args(pane_id: &str) -> (r: Vec<String>)
    ensures
        r.deep_view() == seq!["pane"@, "process-info"@, "--pane"@, pane_id@],
{
    let r: Vec<String> = vec![
        "pane".to_owned(),
        "process-info".to_owned(),
        "--pane".to_owned(),
        pane_id.to_owned(),
    ];
    assert(r.deep_view() =~= seq!["pane"@, "process-info"@, "--pane"@, pane_id@]);
    r
}

/// The processes that a command described.
pub open spec fn process_info_listed(command: CommandResultView) -> Result<
    ProcessInfoView,
    ApiErrorView,
> {
    match reply(command) {
        Err(e) => Err(e),
        Ok(body) => match process_info_in(body) {
            Some(info) => Ok(info),
            None => Err(lacks("process-info: missing process_info"@, body)),
        },
    }
}

/// Reads the answer to `pane process-info`.
pub fn pane_process_info(command: &CommandResult) -> (r: Result<ProcessInfo, ApiError>)
    ensures
        match r {
            Ok(info) => process_info_listed(command@) == Ok::<ProcessInfoView, ApiErrorView>(info@),
            Err(e) => process_info_listed(command@) == Err::<ProcessInfoView, ApiErrorView>(e@),
        },
{
    let document = match read_reply(command) {
        Ok(document) => document,
        Err(e) => {
            return Err(e);
        },
    };
    let body = body_of(&document);
    match process_info_of(&json_of(body)) {
        Some(info) => Ok(info),
        None => Err(missing("process-info: missing process_info", body)),
    }
}

/// The command that names a pane, or that takes its name away where none is given.
pub fn pane_set_label(pane_id: &str, label: Option<&str>) -> (r: Vec<String>)
    ensures
        r.deep_view() == seq![
            "pane"@,
            "rename"@,
            pane_id@,
            match label {
                Some(text) => text@,
                None => "--clear"@,
            },
        ],
{
    let last = match label {
        Some(text) => text.to_owned(),
        None => "--clear".to_owned(),
    };
    let ghost name = last@;
    let r: Vec<String> = vec!["pane".to_owned(), "rename".to_owned(), pane_id.to_owned(), last];
    assert(r.deep_view() =~= seq!["pane"@, "rename"@, pane_id@, name]);
    r
}

// =============================== plugin panes ===============================

/// The command that opens a pane of a plugin. Herdr takes no target with it: the
/// pane opens where the user is.
pub fn plugin_pane_open_args(plugin_id: &str, entrypoint: &str, placement: &str) -> (r: Vec<String>)
    ensures
        r.deep_view() == seq![
            "plugin"@,
            "pane"@,
            "open"@,
            "--plugin"@,
            plugin_id@,
            "--entrypoint"@,
            entrypoint@,
            "--placement"@,
            placement@,
        ],
{
    let r: Vec<String> = vec![
        "plugin".to_owned(),
        "pane".to_owned(),
        "open".to_owned(),
        "--plugin".to_owned(),
        plugin_id.to_owned(),
        "--entrypoint".to_owned(),
        entrypoint.to_owned(),
        "--placement".to_owned(),
        placement.to_owned(),
    ];
    assert(r.deep_view() =~= seq![
        "plugin"@,
        "pane"@,
        "open"@,
        "--plugin"@,
        plugin_id@,
        "--entrypoint"@,
        entrypoint@,
        "--placement"@,
        placement@,
    ]);
    r
}

/// The pane that a reply says was opened.
pub open spec fn opened_pane_in(body: JsonView) -> Option<Seq<char>> {
    match body.get("plugin_pane"@) {
        Some(plugin_pane) => match plugin_pane.get("pane"@) {
            Some(pane) => pane.text_at("pane_id"@),
            None => None,
        },
        None => None,
    }
}

/// Reads the opened pane out of the body of a reply.
pub fn opened_pane_of(body: &Json) -> (r: Option<String>)
    ensures
        r.deep_view() == opened_pane_in(body@),
{
    match body.get("plugin_pane") {
        Some(plugin_pane) => match plugin_pane.get("pane") {
            Some(pane) => pane.text_at("pane_id"),
            None => None,
        },
        None => None,
    }
}

/// The pane that a command opened.
pub open spec fn pane_opened(command: CommandResultView) -> Result<Seq<char>, ApiErrorView> {
    match reply(command) {
        Err(e) => Err(e),
        Ok(body) => match opened_pane_in(body) {
            Some(pane_id) => Ok(pane_id),
            None => Err(
                lacks("plugin pane open: missing plugin_pane.pane.pane_id"@, body),
            ),
        },
    }
}

/// Reads the answer to `plugin pane open`: the id of the new pane.
pub fn plugin_pane_open(command: &CommandResult) -> (r: Result<String, ApiError>)
    ensures
        match r {
            Ok(pane_id) => pane_opened(command@) == Ok::<Seq<char>, ApiErrorView>(pane_id@),
            Err(e) => pane_opened(command@) == Err::<Seq<char>, ApiErrorView>(e@),
        },
{
    let document = match read_reply(command) {
        Ok(document) => document,
        Err(e) => {
            return Err(e);
        },
    };
    let body = body_of(&document);
    match opened_pane_of(&json_of(body)) {
        Some(pane_id) => Ok(pane_id),
        None => Err(missing("plugin pane open: missing plugin_pane.pane.pane_id", body)),
    }
}

} // verus!
