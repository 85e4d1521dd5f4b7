//! The command line: what is asked for, and what is done about it.

use vstd::prelude::*;
use vstd::string::*;

use crate::api::{
    workspace_clear_metadata, workspace_report_metadata, Workspace, WorkspaceView,
    METADATA_TTL_MS,
};
use crate::api;
use crate::json;
use crate::json::{parse_json, Json, JsonView};
use crate::monitor;
use crate::monitor::{
    push_effect, select, Effect, EffectView, EntryTest, MonitorView, DEFAULT_IDLE_SECS,
    MIN_IDLE_SECS,
};
use crate::platform::Platform;
use crate::session::thaw_all;
use crate::state::{FrozenEntry, FrozenView};
use crate::text;
use crate::text::{decimal, parse_u64, same, to_lower, trim, trim_line_end};

verus! {

/// The exit code of a command that was not given as it should be.
pub const USAGE_ERROR: i32 = 2;

/// The exit code of a command that could not be carried out.
pub const FAILURE: i32 = 1;

// =============================== subcommands ===============================

/// Whether a word is among arguments.
pub fn mentions(args: &Vec<String>, word: &str) -> (r: bool)
    ensures
        r == args.deep_view().contains(word@),
{
    let ghost all = args.deep_view();
    let mut i: usize = 0;
    while i < args.len()
        invariant
            i <= args.len(),
            all == args.deep_view(),
            forall|k: int| 0 <= k < i ==> all[k] != word@,
        decreases args.len() - i,
    {
        assert(all[i as int] == args@[i as int]@);
        if same(args[i].as_str(), word) {
            return true;
        }
        i = i + 1;
    }
    false
}

fn rest_of(args: &Vec<String>) -> (r: Vec<String>)
    requires
        args.len() > 0,
    ensures
        r.deep_view() == args.deep_view().skip(1),
{
    let mut rest: Vec<String> = Vec::new();
    let mut i: usize = 1;
    while i < args.len()
        invariant
            1 <= i <= args.len(),
            rest.len() == i - 1,
            forall|k: int| 0 <= k < i - 1 ==> (#[trigger] rest@[k])@ == args@[k + 1]@,
        decreases args.len() - i,
    {
        rest.push(args[i].clone());
        i = i + 1;
    }
    assert(rest.deep_view() =~= args.deep_view().skip(1));
    rest
}

/// That help is asked for.
pub open spec fn asks_for_help(args: Seq<Seq<char>>) -> bool {
    args.contains("--help"@) || args.contains("-h"@)
}

/// Whether help is asked for.
pub fn wants_help(args: &Vec<String>) -> (r: bool)
    ensures
        r == asks_for_help(args.deep_view()),
{
    mentions(args, "--help") || mentions(args, "-h")
}

/// What there is help about.
#[derive(Debug, Clone, Copy, PartialEq, Eq, Structural)]
pub enum Topic {
    Program,
    Monitor,
    Config,
    ConfigUi,
    Thaw,
    FreezeNow,
}

/// What is asked for.
#[derive(Debug)]
pub enum Command {
    Help(Topic),
    Monitor { debug: bool },
    Config(Vec<String>),
    ConfigUi,
    Thaw(Vec<String>),
    FreezeNow(Vec<String>),
    Unknown(String),
}

pub enum CommandView {
    Help(Topic),
    Monitor { debug: bool },
    Config(Seq<Seq<char>>),
    ConfigUi,
    Thaw(Seq<Seq<char>>),
    FreezeNow(Seq<Seq<char>>),
    Unknown(Seq<char>),
}

impl View for Command {
    type V = CommandView;

    open spec fn view(&self) -> CommandView {
        match self {
            Command::Help(topic) => CommandView::Help(*topic),
            Command::Monitor { debug } => CommandView::Monitor { debug: *debug },
            Command::Config(args) => CommandView::Config(args.deep_view()),
            Command::ConfigUi => CommandView::ConfigUi,
            Command::Thaw(args) => CommandView::Thaw(args.deep_view()),
            Command::FreezeNow(args) => CommandView::FreezeNow(args.deep_view()),
            Command::Unknown(word) => CommandView::Unknown(word@),
        }
    }
}

/// What arguments ask for: the first names a subcommand, which may be asked for help.
pub open spec fn command_in(args: Seq<Seq<char>>) -> CommandView {
    if args.len() == 0 || args[0] == "--help"@ || args[0] == "-h"@ {
        CommandView::Help(Topic::Program)
    } else {
        let rest = args.skip(1);
        if args[0] == "monitor"@ {
            if asks_for_help(rest) {
                CommandView::Help(Topic::Monitor)
            } else {
                CommandView::Monitor {
                    debug: rest.contains("--debug"@) || rest.contains("-v"@) || rest.contains(
                        "--verbose"@,
                    ),
                }
            }
        } else if args[0] == "config"@ {
            if asks_for_help(rest) {
                CommandView::Help(Topic::Config)
            } else {
                CommandView::Config(rest)
            }
        } else if args[0] == "config-ui"@ {
            if asks_for_help(rest) {
                CommandView::Help(Topic::ConfigUi)
            } else {
                CommandView::ConfigUi
            }
        } else if args[0] == "thaw"@ {
            if asks_for_help(rest) {
                CommandView::Help(Topic::Thaw)
            } else {
                CommandView::Thaw(rest)
            }
        } else if args[0] == "freeze-now"@ {
            if asks_for_help(rest) {
                CommandView::Help(Topic::FreezeNow)
            } else {
                CommandView::FreezeNow(rest)
            }
        } else {
            CommandView::Unknown(args[0])
        }
    }
}

/// Finds out what arguments ask for.
pub fn parse_command(args: &Vec<String>) -> (r: Command)
    ensures
        r@ == command_in(args.deep_view()),
{
    if args.len() == 0 {
        return Command::Help(Topic::Program);
    }
    let first = args[0].as_str();
    assert(args.deep_view()[0] == first@);
    if same(first, "--help") || same(first, "-h") {
        return Command::Help(Topic::Program);
    }
    let rest = rest_of(args);
    let help = wants_help(&rest);
    if same(first, "monitor") {
        if help {
            Command::Help(Topic::Monitor)
        } else {
            let debug = mentions(&rest, "--debug") || mentions(&rest, "-v") || mentions(
                &rest,
                "--verbose",
            );
            Command::Monitor { debug }
        }
    } else if same(first, "config") {
        if help {
            Command::Help(Topic::Config)
        } else {
            Command::Config(rest)
        }
    } else if same(first, "config-ui") {
        if help {
            Command::Help(Topic::ConfigUi)
        } else {
            Command::ConfigUi
        }
    } else if same(first, "thaw") {
        if help {
            Command::Help(Topic::Thaw)
        } else {
            Command::Thaw(rest)
        }
    } else if same(first, "freeze-now") {
        if help {
            Command::Help(Topic::FreezeNow)
        } else {
            Command::FreezeNow(rest)
        }
    } else {
        Command::Unknown(args[0].clone())
    }
}

/// Whether everything is logged: if a flag says so, or a variable that is not empty.
pub fn debug_enabled(flag: bool, variable: Option<&str>) -> (r: bool)
    ensures
        r == (flag || (variable matches Some(value) && value@.len() > 0)),
{
    flag || match variable {
        Some(value) => !value.is_empty(),
        None => false,
    }
}

/// Where the log is kept: a file, and the directory that it is in, if it has to be named.
pub fn log_file(platform: Platform, temp: Option<String>) -> (r: (Option<String>, String))
    ensures
        r.0.deep_view() == (if platform == Platform::Windows {
            temp.deep_view()
        } else {
            Some("/tmp"@)
        }),
        r.1@ == "herdr-freeze.log"@,
{
    let dir = match platform {
        Platform::Windows => temp,
        _ => Some("/tmp".to_owned()),
    };
    (dir, "herdr-freeze.log".to_owned())
}

// =============================== the context ===============================

/// Where a command was called: what is known of that.
#[derive(Debug)]
pub struct Context {
    pub workspace_id: Option<String>,
    pub tab_id: Option<String>,
    pub pane_id: Option<String>,
}

pub struct ContextView {
    pub workspace_id: Option<Seq<char>>,
    pub tab_id: Option<Seq<char>>,
    pub pane_id: Option<Seq<char>>,
}

impl View for Context {
    type V = ContextView;

    open spec fn view(&self) -> ContextView {
        ContextView {
            workspace_id: self.workspace_id.deep_view(),
            tab_id: self.tab_id.deep_view(),
            pane_id: self.pane_id.deep_view(),
        }
    }
}

/// An id: what a variable says, unless it is empty, or else what a document says.
pub open spec fn id_in(
    variable: Option<Seq<char>>,
    document: Option<JsonView>,
    key: Seq<char>,
) -> Option<Seq<char>> {
    match variable {
        Some(id) if id.len() > 0 => Some(id),
        _ => match document {
            Some(document) => document.text_at(key),
            None => None,
        },
    }
}

/// The context that variables and a document tell of.
pub open spec fn context_in(
    workspace: Option<Seq<char>>,
    tab: Option<Seq<char>>,
    pane: Option<Seq<char>>,
    document: Option<JsonView>,
) -> ContextView {
    ContextView {
        workspace_id: id_in(workspace, document, "workspace_id"@),
        tab_id: id_in(tab, document, "tab_id"@),
        pane_id: id_in(pane, document, "pane_id"@),
    }
}

/// The document that a text writes, if it does.
pub open spec fn document_in(text: Option<Seq<char>>) -> Option<JsonView> {
    match text {
        Some(text) => match json::json_parsed(text) {
            Ok(document) => Some(document),
            Err(_) => None,
        },
        None => None,
    }
}

fn id_of(variable: Option<String>, document: Option<&Json>, key: &str) -> (r: Option<String>)
    ensures
        r.deep_view() == id_in(
            variable.deep_view(),
            match document {
                Some(document) => Some(document@),
                None => None,
            },
            key@,
        ),
{
    match variable {
        Some(id) => {
            if !id.as_str().is_empty() {
                return Some(id);
            }
        },
        None => {},
    }
    match document {
        Some(document) => document.text_at(key),
        None => None,
    }
}

/// Takes the context out of variables and a document.
pub fn context_of(
    workspace: Option<String>,
    tab: Option<String>,
    pane: Option<String>,
    document: Option<&Json>,
) -> (r: Context)
    ensures
        r@ == context_in(
            workspace.deep_view(),
            tab.deep_view(),
            pane.deep_view(),
            match document {
                Some(document) => Some(document@),
                None => None,
            },
        ),
{
    Context {
        workspace_id: id_of(workspace, document, "workspace_id"),
        tab_id: id_of(tab, document, "tab_id"),
        pane_id: id_of(pane, document, "pane_id"),
    }
}

/// Reads the context out of variables, the last of which may hold a document.
pub fn read_context(
    workspace: Option<String>,
    tab: Option<String>,
    pane: Option<String>,
    document: Option<&str>,
) -> (r: Context)
    ensures
        r@ == context_in(
            workspace.deep_view(),
            tab.deep_view(),
            pane.deep_view(),
            document_in(document.deep_view()),
        ),
{
    let parsed = match document {
        Some(text) => match parse_json(text) {
            Ok(document) => Some(document),
            Err(_) => None,
        },
        None => None,
    };
    context_of(workspace, tab, pane, parsed.as_ref())
}

// =============================== config ===============================

/// What options of `config` say.
#[derive(Debug)]
pub struct ConfigOptions {
    pub workspace: Option<String>,
    pub enabled: Option<bool>,
    pub idle_secs: Option<u64>,
    pub clear: bool,
}

pub struct ConfigOptionsView {
    pub workspace: Option<Seq<char>>,
    pub enabled: Option<bool>,
    pub idle_secs: Option<u64>,
    pub clear: bool,
}

impl View for ConfigOptions {
    type V = ConfigOptionsView;

    open spec fn view(&self) -> ConfigOptionsView {
        ConfigOptionsView {
            workspace: self.workspace.deep_view(),
            enabled: self.enabled,
            idle_secs: self.idle_secs,
            clear: self.clear,
        }
    }
}

/// The argument at a place, if there is one.
pub open spec fn arg_at(args: Seq<Seq<char>>, i: int) -> Option<Seq<char>> {
    if 0 <= i < args.len() {
        Some(args[i])
    } else {
        None
    }
}

/// What a switch is set to by a word, in any case of letters.
pub open spec fn switch_in(word: Seq<char>) -> Option<bool> {
    let low = text::lowered(word);
    if low == "true"@ || low == "1"@ || low == "yes"@ || low == "y"@ || low == "on"@ {
        Some(true)
    } else if low == "false"@ || low == "0"@ || low == "no"@ || low == "n"@ || low == "off"@ {
        Some(false)
    } else {
        None
    }
}

/// Reads options from a place on; an unknown one is the error.
pub open spec fn options_from(args: Seq<Seq<char>>, i: int, options: ConfigOptionsView) -> Result<
    ConfigOptionsView,
    Seq<char>,
>
    decreases args.len() + 1 - i,
{
    if i >= args.len() {
        Ok(options)
    } else if args[i] == "--workspace"@ {
        options_from(
            args,
            i + 2,
            ConfigOptionsView { workspace: arg_at(args, i + 1), ..options },
        )
    } else if args[i] == "--enabled"@ {
        let enabled = match arg_at(args, i + 1) {
            Some(word) => switch_in(word),
            None => None,
        };
        options_from(args, i + 2, ConfigOptionsView { enabled, ..options })
    } else if args[i] == "--idle-secs"@ {
        let set = match arg_at(args, i + 1) {
            Some(word) => text::number(word),
            None => None,
        };
        let idle_secs = match set {
            Some(n) => Some(n),
            None => options.idle_secs,
        };
        options_from(args, i + 2, ConfigOptionsView { idle_secs, ..options })
    } else if args[i] == "--clear"@ {
        options_from(args, i + 1, ConfigOptionsView { clear: true, ..options })
    } else {
        Err(args[i])
    }
}

/// What arguments of `config` say; an unknown option is the error.
pub open spec fn options_in(args: Seq<Seq<char>>) -> Result<ConfigOptionsView, Seq<char>> {
    options_from(
        args,
        0,
        ConfigOptionsView { workspace: None, enabled: None, idle_secs: None, clear: false },
    )
}

/// Reads what a switch is set to.
pub fn parse_switch(word: &str) -> (r: Option<bool>)
    ensures
        r == switch_in(word@),
{
    let lowered = to_lower(word);
    let low = lowered.as_str();
    if same(low, "true") || same(low, "1") || same(low, "yes") || same(low, "y") || same(
        low,
        "on",
    ) {
        Some(true)
    } else if same(low, "false") || same(low, "0") || same(low, "no") || same(low, "n") || same(
        low,
        "off",
    ) {
        Some(false)
    } else {
        None
    }
}

/// Reads the arguments of `config`.
pub fn parse_options(args: &Vec<String>) -> (r: Result<ConfigOptions, String>)
    ensures
        match r {
            Ok(options) => options_in(args.deep_view()) == Ok::<ConfigOptionsView, Seq<char>>(
                options@,
            ),
            Err(unknown) => options_in(args.deep_view()) == Err::<ConfigOptionsView, Seq<char>>(
                unknown@,
            ),
        },
{
    let ghost all = args.deep_view();
    let mut options = ConfigOptions {
        workspace: None,
        enabled: None,
        idle_secs: None,
        clear: false,
    };
    let mut i: usize = 0;
    while i < args.len()
        invariant
            i <= args.len(),
            all == args.deep_view(),
            options_in(all) == options_from(all, i as int, options@),
        decreases args.len() - i,
    {
        let option = args[i].as_str();
        assert(all[i as int] == option@);
        i = i + 1;
        assert(i < args.len() ==> all[i as int] == args@[i as int]@);
        if same(option, "--workspace") {
            options.workspace = if i < args.len() {
                Some(args[i].clone())
            } else {
                None
            };
        } else if same(option, "--enabled") {
            options.enabled = if i < args.len() {
                parse_switch(args[i].as_str())
            } else {
                None
            };
        } else if same(option, "--idle-secs") {
            if i < args.len() {
                match parse_u64(args[i].as_str()) {
                    Some(n) => {
                        options.idle_secs = Some(n);
                    },
                    None => {},
                }
            }
        } else if same(option, "--clear") {
            options.clear = true;
            continue;
        } else {
            return Err(args[i - 1].clone());
        }
        if i < args.len() {
            i = i + 1;
        } else {
            assert(options_from(all, i + 1, options@) == options_from(all, i as int, options@));
        }
    }
    Ok(options)
}

/// The words for a switch.
pub open spec fn switch_word(on: bool) -> Seq<char> {
    if on {
        "true"@
    } else {
        "false"@
    }
}

/// Settings as they are written down.
pub open spec fn settings_tokens(enabled: bool, idle_secs: u64) -> Seq<(Seq<char>, Seq<char>)> {
    seq![
        ("freeze_enabled"@, switch_word(enabled)),
        ("freeze_idle_secs"@, text::decimal_of(idle_secs as nat)),
    ]
}

/// At least the shortest time that a pane has to be idle.
pub open spec fn at_least_minimum(secs: u64) -> u64 {
    if secs < MIN_IDLE_SECS {
        MIN_IDLE_SECS
    } else {
        secs
    }
}

fn raised(secs: u64) -> (r: u64)
    ensures
        r == at_least_minimum(secs),
{
    if secs < MIN_IDLE_SECS {
        MIN_IDLE_SECS
    } else {
        secs
    }
}

/// Writes settings down.
pub fn write_settings(enabled: bool, idle_secs: u64) -> (r: Vec<(String, String)>)
    ensures
        r.deep_view() == settings_tokens(enabled, idle_secs),
{
    let word = if enabled {
        "true".to_owned()
    } else {
        "false".to_owned()
    };
    let secs = decimal(idle_secs);
    let ghost word_text = word@;
    let ghost secs_text = secs@;
    let tokens: Vec<(String, String)> = vec![
        ("freeze_enabled".to_owned(), word),
        ("freeze_idle_secs".to_owned(), secs),
    ];
    assert(tokens.deep_view() =~= seq![
        ("freeze_enabled"@, word_text),
        ("freeze_idle_secs"@, secs_text),
    ]);
    tokens
}

/// What `config` does.
#[derive(Debug)]
pub enum ConfigPlan {
    /// Complain about an option.
    UnknownOption(String),
    /// Complain that no workspace is known.
    NoWorkspace,
    /// Have Herdr forget the settings of a workspace, by a call with these arguments.
    Clear { workspace_id: String, args: Vec<String> },
    /// Have Herdr keep settings of a workspace, by a call with these arguments; tell
    /// those that were given.
    Keep {
        workspace_id: String,
        args: Vec<String>,
        enabled: Option<bool>,
        idle_secs: Option<u64>,
    },
    /// Open a window to ask for the settings, or show them where that fails.
    Ask { workspace_id: String },
    /// Show the settings.
    Show { workspace_id: String },
}

pub enum ConfigPlanView {
    UnknownOption(Seq<char>),
    NoWorkspace,
    Clear { workspace_id: Seq<char>, args: Seq<Seq<char>> },
    Keep {
        workspace_id: Seq<char>,
        args: Seq<Seq<char>>,
        enabled: Option<bool>,
        idle_secs: Option<u64>,
    },
    Ask { workspace_id: Seq<char> },
    Show { workspace_id: Seq<char> },
}

impl View for ConfigPlan {
    type V = ConfigPlanView;

    open spec fn view(&self) -> ConfigPlanView {
        match self {
            ConfigPlan::UnknownOption(option) => ConfigPlanView::UnknownOption(option@),
            ConfigPlan::NoWorkspace => ConfigPlanView::NoWorkspace,
            ConfigPlan::Clear { workspace_id, args } => ConfigPlanView::Clear {
                workspace_id: workspace_id@,
                args: args.deep_view(),
            },
            ConfigPlan::Keep { workspace_id, args, enabled, idle_secs } => ConfigPlanView::Keep {
                workspace_id: workspace_id@,
                args: args.deep_view(),
                enabled: *enabled,
                idle_secs: *idle_secs,
            },
            ConfigPlan::Ask { workspace_id } => ConfigPlanView::Ask {
                workspace_id: workspace_id@,
            },
            ConfigPlan::Show { workspace_id } => ConfigPlanView::Show {
                workspace_id: workspace_id@,
            },
        }
    }
}

/// The switch that `config` writes: on, unless it is given.
pub open spec fn enabled_to_write(enabled: Option<bool>) -> bool {
    match enabled {
        Some(on) => on,
        None => true,
    }
}

/// The time that `config` writes: what is given, but not too short, or the usual one.
pub open spec fn secs_to_write(idle_secs: Option<u64>) -> u64 {
    match idle_secs {
        Some(secs) => at_least_minimum(secs),
        None => DEFAULT_IDLE_SECS,
    }
}

/// The call that keeps settings.
pub open spec fn report_args(workspace_id: Seq<char>, tokens: Seq<(Seq<char>, Seq<char>)>) -> Seq<
    Seq<char>,
> {
    api::metadata_front(workspace_id, METADATA_TTL_MS) + api::token_args(tokens)
}

/// What `config` does with its arguments, where some workspace may be known already
/// and it may have been called as an action.
pub open spec fn config_plan(
    args: Seq<Seq<char>>,
    workspace: Option<Seq<char>>,
    as_action: bool,
) -> ConfigPlanView {
    match options_in(args) {
        Err(option) => ConfigPlanView::UnknownOption(option),
        Ok(options) => {
            let named = match options.workspace {
                Some(id) => Some(id),
                None => workspace,
            };
            match named {
                None => ConfigPlanView::NoWorkspace,
                Some(workspace_id) => if options.clear {
                    ConfigPlanView::Clear {
                        workspace_id,
                        args: api::metadata_front(workspace_id, METADATA_TTL_MS) + api::clear_args(
                            seq!["freeze_enabled"@, "freeze_idle_secs"@],
                        ),
                    }
                } else if options.enabled is Some || options.idle_secs is Some {
                    ConfigPlanView::Keep {
                        workspace_id,
                        args: report_args(
                            workspace_id,
                            settings_tokens(
                                enabled_to_write(options.enabled),
                                secs_to_write(options.idle_secs),
                            ),
                        ),
                        enabled: options.enabled,
                        idle_secs: match options.idle_secs {
                            Some(secs) => Some(at_least_minimum(secs)),
                            None => None,
                        },
                    }
                } else if as_action {
                    ConfigPlanView::Ask { workspace_id }
                } else {
                    ConfigPlanView::Show { workspace_id }
                },
            }
        },
    }
}

/// Decides what `config` does.
pub fn config_cmd(args: &Vec<String>, workspace: Option<String>, as_action: bool) -> (r: ConfigPlan)
    ensures
        r@ == config_plan(args.deep_view(), workspace.deep_view(), as_action),
{
    let options = match parse_options(args) {
        Ok(options) => options,
        Err(option) => {
            return ConfigPlan::UnknownOption(option);
        },
    };
    let named = match options.workspace {
        Some(id) => Some(id),
        None => workspace,
    };
    let workspace_id = match named {
        Some(id) => id,
        None => {
            return ConfigPlan::NoWorkspace;
        },
    };
    if options.clear {
        let keys: Vec<String> = vec!["freeze_enabled".to_owned(), "freeze_idle_secs".to_owned()];
        assert(keys.deep_view() =~= seq!["freeze_enabled"@, "freeze_idle_secs"@]);
        let args = workspace_clear_metadata(workspace_id.as_str(), &keys);
        return ConfigPlan::Clear { workspace_id, args };
    }
    if options.enabled.is_some() || options.idle_secs.is_some() {
        let on = match options.enabled {
            Some(on) => on,
            None => true,
        };
        let secs: u64 = match options.idle_secs {
            Some(secs) => raised(secs),
            None => DEFAULT_IDLE_SECS,
        };
        let tokens = write_settings(on, secs);
        let args = workspace_report_metadata(workspace_id.as_str(), &tokens, METADATA_TTL_MS);
        let idle_secs = match options.idle_secs {
            Some(secs) => Some(raised(secs)),
            None => None,
        };
        return ConfigPlan::Keep { workspace_id, args, enabled: options.enabled, idle_secs };
    }
    if as_action {
        ConfigPlan::Ask { workspace_id }
    } else {
        ConfigPlan::Show { workspace_id }
    }
}

/// The first workspace on a list with some id.
pub open spec fn workspace_named(workspaces: Seq<WorkspaceView>, id: Seq<char>) -> Option<
    WorkspaceView,
>
    decreases workspaces.len(),
{
    if workspaces.len() == 0 {
        None
    } else if workspaces[0].workspace_id == id {
        Some(workspaces[0])
    } else {
        workspace_named(workspaces.drop_first(), id)
    }
}

fn find_workspace<'a>(workspaces: &'a Vec<Workspace>, id: &str) -> (r: Option<&'a Workspace>)
    ensures
        match r {
            Some(ws) => workspace_named(workspaces.deep_view(), id@) == Some(ws@),
            None => workspace_named(workspaces.deep_view(), id@) is None,
        },
{
    let ghost all = workspaces.deep_view();
    let mut i: usize = 0;
    assert(all.skip(0) =~= all);
    while i < workspaces.len()
        invariant
            i <= workspaces.len(),
            all == workspaces.deep_view(),
            workspace_named(all, id@) == workspace_named(all.skip(i as int), id@),
        decreases workspaces.len() - i,
    {
        assert(all.skip(i as int)[0] == workspaces@[i as int]@);
        assert(all.skip(i as int).drop_first() =~= all.skip(i + 1));
        if same(workspaces[i].workspace_id.as_str(), id) {
            return Some(&workspaces[i]);
        }
        i = i + 1;
    }
    None
}

fn token_of(ws: &Workspace, key: &str, default: &str) -> (r: String)
    ensures
        r@ == monitor::token_or(ws@.tokens, key@, default@),
{
    match ws.tokens.get(key) {
        Some(value) => value.clone(),
        None => default.to_owned(),
    }
}

/// The line that shows the settings of a workspace.
pub open spec fn settings_line(id: Seq<char>, ws: WorkspaceView) -> Seq<char> {
    "[herdr-freeze] workspace "@ + id + " ("@ + ws.label + "): freeze_enabled="@
        + monitor::token_or(ws.tokens, "freeze_enabled"@, "true"@) + " freeze_idle_secs="@
        + monitor::token_or(ws.tokens, "freeze_idle_secs"@, "180(默认)"@) + "s"@
}

/// Shows the settings of a workspace, if it is on the list.
pub fn print_current_config(workspaces: &Vec<Workspace>, id: &str) -> (r: Option<String>)
    ensures
        r.deep_view() == (match workspace_named(workspaces.deep_view(), id@) {
            Some(ws) => Some(settings_line(id@, ws)),
            None => None,
        }),
{
    match find_workspace(workspaces, id) {
        Some(ws) => {
            let enabled = token_of(ws, "freeze_enabled", "true");
            let secs = token_of(ws, "freeze_idle_secs", "180(默认)");
            let line = "[herdr-freeze] workspace ".to_owned().concat(id).concat(" (").concat(
                ws.label.as_str(),
            ).concat("): freeze_enabled=").concat(enabled.as_str()).concat(
                " freeze_idle_secs=",
            ).concat(secs.as_str()).concat("s");
            Some(line)
        },
        None => None,
    }
}

// =============================== config-ui ===============================

/// The settings of a workspace as they are written, or the usual ones where they are
/// not known.
pub open spec fn settings_now(workspaces: Option<Seq<WorkspaceView>>, id: Seq<char>) -> (
    Seq<char>,
    Seq<char>,
) {
    let ws = match workspaces {
        Some(list) => workspace_named(list, id),
        None => None,
    };
    match ws {
        Some(ws) => (
            monitor::token_or(ws.tokens, "freeze_enabled"@, "true"@),
            monitor::token_or(ws.tokens, "freeze_idle_secs"@, "180"@),
        ),
        None => ("true"@, "180"@),
    }
}

/// Finds the settings of a workspace as they are written.
pub fn current_settings(workspaces: Option<&Vec<Workspace>>, id: &str) -> (r: (String, String))
    ensures
        (r.0@, r.1@) == settings_now(
            match workspaces {
                Some(list) => Some(list.deep_view()),
                None => None,
            },
            id@,
        ),
{
    let ws = match workspaces {
        Some(list) => find_workspace(list, id),
        None => None,
    };
    match ws {
        Some(ws) => (
            token_of(ws, "freeze_enabled", "true"),
            token_of(ws, "freeze_idle_secs", "180"),
        ),
        None => ("true".to_owned(), "180".to_owned()),
    }
}

/// What an answer sets the switch to: on, unless it says no.
pub open spec fn switch_answered(line: Seq<char>) -> bool {
    let low = text::lowered(text::trimmed(line));
    !(low == "n"@ || low == "no"@ || low == "false"@ || low == "0"@)
}

/// What an answer sets the time to: a number, but not too small, or what is set already.
pub open spec fn secs_answered(line: Seq<char>, current: Seq<char>) -> u64 {
    match text::number(text::trimmed(line)) {
        Some(n) => at_least_minimum(n),
        None => match text::number(current) {
            Some(n) => n,
            None => DEFAULT_IDLE_SECS,
        },
    }
}

/// What two answers set.
#[derive(Debug)]
pub struct Answered {
    pub enabled: bool,
    pub idle_secs: u64,
    /// The arguments of the call that has Herdr keep it.
    pub args: Vec<String>,
}

/// Takes two answers about the settings of a workspace: whether its panes are frozen,
/// and after how long.
pub fn config_ui(id: &str, switch_line: &str, secs_line: &str, current_secs: &str) -> (r: Answered)
    ensures
        r.enabled == switch_answered(switch_line@),
        r.idle_secs == secs_answered(secs_line@, current_secs@),
        r.args.deep_view() == report_args(id@, settings_tokens(r.enabled, r.idle_secs)),
{
    let lowered = to_lower(trim(switch_line));
    let low = lowered.as_str();
    let enabled = !(same(low, "n") || same(low, "no") || same(low, "false") || same(low, "0"));
    let idle_secs: u64 = match parse_u64(trim(secs_line)) {
        Some(n) => raised(n),
        None => match parse_u64(current_secs) {
            Some(n) => n,
            None => DEFAULT_IDLE_SECS,
        },
    };
    let tokens = write_settings(enabled, idle_secs);
    let args = workspace_report_metadata(id, &tokens, METADATA_TTL_MS);
    Answered { enabled, idle_secs, args }
}

/// A line that was read, without its end; an empty one where none could be.
pub fn read_line_stdin(read: Option<&str>) -> (r: String)
    ensures
        r@ == (match read {
            Some(line) => text::without_line_end(line@),
            None => Seq::empty(),
        }),
{
    match read {
        Some(line) => trim_line_end(line),
        None => String::new(),
    }
}

/// Settings as Herdr gives them back.
pub open spec fn settings_kept(enabled: bool, idle_secs: u64) -> Map<Seq<char>, Seq<char>> {
    map![
        "freeze_enabled"@ => switch_word(enabled),
        "freeze_idle_secs"@ => text::decimal_of(idle_secs as nat),
    ]
}

/// Settings that are written down are followed as they were meant: the switch is what
/// was set, and so is the time, unless it is too short.
pub proof fn settings_are_followed(enabled: bool, idle_secs: u64)
    ensures
        monitor::freeze_enabled(settings_kept(enabled, idle_secs)) == enabled,
        monitor::idle_secs(settings_kept(enabled, idle_secs)) == at_least_minimum(idle_secs),
        settings_tokens(enabled, idle_secs).contains(
            ("freeze_enabled"@, settings_kept(enabled, idle_secs)["freeze_enabled"@]),
        ),
        settings_tokens(enabled, idle_secs).contains(
            ("freeze_idle_secs"@, settings_kept(enabled, idle_secs)["freeze_idle_secs"@]),
        ),
{
    reveal_strlit("freeze_enabled");
    reveal_strlit("freeze_idle_secs");
    reveal_strlit("true");
    reveal_strlit("false");
    assert("freeze_enabled"@.len() != "freeze_idle_secs"@.len());
    assert("true"@.len() != "false"@.len());
    text::decimal_reads_back(idle_secs);
    let tokens = settings_tokens(enabled, idle_secs);
    assert(tokens[0] == ("freeze_enabled"@, switch_word(enabled)));
    assert(tokens[1] == ("freeze_idle_secs"@, text::decimal_of(idle_secs as nat)));
}

/// Settings that were cleared are the usual ones: panes are frozen, after the usual
/// time.
pub proof fn cleared_settings_are_the_usual()
    ensures
        monitor::freeze_enabled(Map::<Seq<char>, Seq<char>>::empty()),
        monitor::idle_secs(Map::<Seq<char>, Seq<char>>::empty()) == DEFAULT_IDLE_SECS,
{
}

// =============================== thaw and freeze-now ===============================

/// Why no tab could be found out.
#[derive(Debug)]
pub enum TabError {
    UnknownOption(String),
    Missing,
}

pub enum TabErrorView {
    UnknownOption(Seq<char>),
    Missing,
}

impl View for TabError {
    type V = TabErrorView;

    open spec fn view(&self) -> TabErrorView {
        match self {
            TabError::UnknownOption(option) => TabErrorView::UnknownOption(option@),
            TabError::Missing => TabErrorView::Missing,
        }
    }
}

/// Reads the tab out of arguments from a place on; an unknown option is the error.
pub open spec fn tab_from(args: Seq<Seq<char>>, i: int, tab: Option<Seq<char>>) -> Result<
    Option<Seq<char>>,
    Seq<char>,
>
    decreases args.len() + 1 - i,
{
    if i >= args.len() {
        Ok(tab)
    } else if args[i] == "--tab"@ {
        tab_from(args, i + 2, arg_at(args, i + 1))
    } else {
        Err(args[i])
    }
}

/// The tab that a command is about: the one that is named, or the one that is known
/// already.
pub open spec fn tab_in(args: Seq<Seq<char>>, known: Option<Seq<char>>) -> Result<
    Seq<char>,
    TabErrorView,
> {
    match tab_from(args, 0, None) {
        Err(option) => Err(TabErrorView::UnknownOption(option)),
        Ok(Some(tab)) => Ok(tab),
        Ok(None) => match known {
            Some(tab) => Ok(tab),
            None => Err(TabErrorView::Missing),
        },
    }
}

/// Finds out the tab that a command is about.
pub fn resolve_tab_id(args: &Vec<String>, known: Option<String>) -> (r: Result<String, TabError>)
    ensures
        match r {
            Ok(tab) => tab_in(args.deep_view(), known.deep_view()) == Ok::<
                Seq<char>,
                TabErrorView,
            >(tab@),
            Err(e) => tab_in(args.deep_view(), known.deep_view()) == Err::<
                Seq<char>,
                TabErrorView,
            >(e@),
        },
{
    let ghost all = args.deep_view();
    let mut tab: Option<String> = None;
    let mut i: usize = 0;
    while i < args.len()
        invariant
            i <= args.len(),
            all == args.deep_view(),
            tab_from(all, 0, None) == tab_from(all, i as int, tab.deep_view()),
        decreases args.len() - i,
    {
        assert(all[i as int] == args@[i as int]@);
        if !same(args[i].as_str(), "--tab") {
            return Err(TabError::UnknownOption(args[i].clone()));
        }
        i = i + 1;
        assert(i < args.len() ==> all[i as int] == args@[i as int]@);
        if i < args.len() {
            tab = Some(args[i].clone());
            i = i + 1;
        } else {
            tab = None;
            assert(tab_from(all, i + 1, None) == tab_from(all, i as int, None));
        }
    }
    match tab {
        Some(tab) => Ok(tab),
        None => match known {
            Some(tab) => Ok(tab),
            None => Err(TabError::Missing),
        },
    }
}

/// What brings back the panes of a tab that are on a list.
pub open spec fn thaw_command(frozen: Seq<FrozenView>, tab_id: Seq<char>) -> Seq<EffectView> {
    monitor::thaw_effects(frozen.filter(monitor::on_tab(tab_id))).push(
        EffectView::SaveFrozen(frozen.filter(monitor::off_tab(tab_id))),
    )
}

/// Brings back the panes of a tab, by the list on disk alone, and tells how many.
pub fn thaw_cmd(frozen: &Vec<FrozenEntry>, tab_id: &str) -> (r: (Vec<Effect>, usize))
    ensures
        r.0.deep_view() == thaw_command(frozen.deep_view(), tab_id@),
        r.1 == frozen.deep_view().filter(monitor::on_tab(tab_id@)).len(),
{
    let entries = select(frozen, EntryTest::OnTab(tab_id));
    let remaining = select(frozen, EntryTest::OffTab(tab_id));
    let mut effects = thaw_all(&entries);
    push_effect(&mut effects, Effect::SaveFrozen(remaining));
    assert(entries.len() == entries.deep_view().len());
    (effects, entries.len())
}

/// Effects without the readings of the clock among them.
pub open spec fn untimed(effects: Seq<EffectView>) -> Seq<EffectView> {
    effects.filter(|e: EffectView| !(e is ReadClock))
}

proof fn lemma_untimed_push(effects: Seq<EffectView>, e: EffectView)
    ensures
        untimed(effects.push(e)) == (if e is ReadClock {
            untimed(effects)
        } else {
            untimed(effects).push(e)
        }),
{
    effects.lemma_filter_push(e, |e: EffectView| !(e is ReadClock));
}

proof fn lemma_untimed_thaw(entries: Seq<FrozenView>)
    ensures
        untimed(monitor::timed_thaw_effects(entries)) == monitor::thaw_effects(entries),
    decreases entries.len(),
{
    if entries.len() == 0 {
        reveal(Seq::filter);
    } else {
        lemma_untimed_thaw(entries.drop_last());
        let a = monitor::timed_thaw_effects(entries.drop_last());
        let resume = EffectView::Resume(entries.last().target());
        let label = EffectView::SetLabel {
            pane_id: entries.last().pane_id,
            label: entries.last().orig_label,
        };
        lemma_untimed_push(a, resume);
        lemma_untimed_push(a.push(resume), label);
        lemma_untimed_push(a.push(resume).push(label), EffectView::ReadClock);
        lemma_untimed_push(
            a.push(resume).push(label).push(EffectView::ReadClock),
            EffectView::ReadClock,
        );
    }
}

/// Thawing a tab from the command line does outside what the monitor does when it
/// thaws that tab with the same list, but for reading the clock.
pub proof fn thaw_command_is_as_the_monitors(m: MonitorView, tab_id: Seq<char>)
    ensures
        thaw_command(m.frozen, tab_id) == untimed(m.thaw_tab(tab_id).2),
{
    let entries = m.frozen.filter(monitor::on_tab(tab_id));
    let a = monitor::timed_thaw_effects(entries);
    lemma_untimed_thaw(entries);
    lemma_untimed_push(a, EffectView::ReadClock);
    lemma_untimed_push(
        a.push(EffectView::ReadClock),
        EffectView::SaveFrozen(m.frozen.filter(monitor::off_tab(tab_id))),
    );
}

/// What `freeze-now` does.
#[derive(Debug)]
pub enum FreezeNowPlan {
    /// Complain that panes cannot be frozen here.
    Unsupported,
    /// Complain about the arguments.
    Refused(TabError),
    /// Ask the monitor to freeze a tab.
    Request(String),
}

pub enum FreezeNowPlanView {
    Unsupported,
    Refused(TabErrorView),
    Request(Seq<char>),
}

impl View for FreezeNowPlan {
    type V = FreezeNowPlanView;

    open spec fn view(&self) -> FreezeNowPlanView {
        match self {
            FreezeNowPlan::Unsupported => FreezeNowPlanView::Unsupported,
            FreezeNowPlan::Refused(e) => FreezeNowPlanView::Refused(e@),
            FreezeNowPlan::Request(tab) => FreezeNowPlanView::Request(tab@),
        }
    }
}

/// What `freeze-now` does with its arguments, where some tab may be known already.
pub open spec fn freeze_now_plan(
    platform: Platform,
    args: Seq<Seq<char>>,
    known: Option<Seq<char>>,
) -> FreezeNowPlanView {
    if platform.freezes() {
        match tab_in(args, known) {
            Ok(tab) => FreezeNowPlanView::Request(tab),
            Err(e) => FreezeNowPlanView::Refused(e),
        }
    } else {
        FreezeNowPlanView::Unsupported
    }
}

/// Decides what `freeze-now` does.
pub fn freeze_now_cmd(platform: Platform, args: &Vec<String>, known: Option<String>) -> (r:
    FreezeNowPlan)
    ensures
        r@ == freeze_now_plan(platform, args.deep_view(), known.deep_view()),
        match r {
            FreezeNowPlan::Unsupported => !platform.freezes(),
            FreezeNowPlan::Refused(e) => platform.freezes() && tab_in(
                args.deep_view(),
                known.deep_view(),
            ) == Err::<Seq<char>, TabErrorView>(e@),
            FreezeNowPlan::Request(tab) => platform.freezes() && tab_in(
                args.deep_view(),
                known.deep_view(),
            ) == Ok::<Seq<char>, TabErrorView>(tab@),
        },
{
    if !platform.can_freeze() {
        return FreezeNowPlan::Unsupported;
    }
    match resolve_tab_id(args, known) {
        Ok(tab) => FreezeNowPlan::Request(tab),
        Err(e) => FreezeNowPlan::Refused(e),
    }
}

// =============================== exit codes ===============================

/// The exit code of what is asked for, where it is known at once.
pub fn command_exit_code(command: &Command) -> (r: Option<i32>)
    ensures
        r == (match command@ {
            CommandView::Help(_) => Some(0i32),
            CommandView::Unknown(_) => Some(USAGE_ERROR),
            _ => None,
        }),
{
    match command {
        Command::Help(_) => Some(0),
        Command::Unknown(_) => Some(USAGE_ERROR),
        _ => None,
    }
}

/// The exit code of `config`, by whether Herdr has carried out what it was told. There
/// is none yet where the settings are to be shown: that ends the command.
pub fn config_exit_code(plan: &ConfigPlan, carried_out: bool) -> (r: Option<i32>)
    ensures
        r == (match plan@ {
            ConfigPlanView::UnknownOption(_) => Some(USAGE_ERROR),
            ConfigPlanView::NoWorkspace => Some(USAGE_ERROR),
            ConfigPlanView::Clear { .. } => Some(0i32),
            ConfigPlanView::Keep { .. } => Some(
                if carried_out {
                    0i32
                } else {
                    FAILURE
                },
            ),
            ConfigPlanView::Ask { .. } => if carried_out {
                Some(0i32)
            } else {
                None
            },
            ConfigPlanView::Show { .. } => None,
        }),
{
    match plan {
        ConfigPlan::UnknownOption(_) => Some(USAGE_ERROR),
        ConfigPlan::NoWorkspace => Some(USAGE_ERROR),
        ConfigPlan::Clear { .. } => Some(0),
        ConfigPlan::Keep { .. } => if carried_out {
            Some(0)
        } else {
            Some(FAILURE)
        },
        ConfigPlan::Ask { .. } => if carried_out {
            Some(0)
        } else {
            None
        },
        ConfigPlan::Show { .. } => None,
    }
}

/// The exit code of showing the settings of a workspace: it has to be on the list, and
/// the list has to be there.
pub fn show_exit_code(workspaces: Option<&Vec<Workspace>>, id: &str) -> (r: i32)
    ensures
        r == (match workspaces {
            Some(list) => if workspace_named(list.deep_view(), id@) is Some {
                0i32
            } else {
                FAILURE
            },
            None => FAILURE,
        }),
{
    match workspaces {
        Some(list) => match find_workspace(list, id) {
            Some(_) => 0,
            None => FAILURE,
        },
        None => FAILURE,
    }
}

/// The exit code of `config-ui`, by the workspace that it is about, if one is known, and
/// by whether Herdr has kept the settings.
pub fn config_ui_exit_code(workspace: Option<&str>, saved: bool) -> (r: i32)
    ensures
        r == (if workspace is None {
            USAGE_ERROR
        } else if saved {
            0i32
        } else {
            FAILURE
        }),
{
    match workspace {
        None => USAGE_ERROR,
        Some(_) => if saved {
            0
        } else {
            FAILURE
        },
    }
}

/// The exit code of `thaw`, by the tab that it is about.
pub fn thaw_exit_code(tab: &Result<String, TabError>) -> (r: i32)
    ensures
        r == (if tab is Ok {
            0i32
        } else {
            USAGE_ERROR
        }),
{
    match tab {
        Ok(_) => 0,
        Err(_) => USAGE_ERROR,
    }
}

/// The exit code of `freeze-now`.
pub fn freeze_now_exit_code(plan: &FreezeNowPlan) -> (r: i32)
    ensures
        r == (match plan {
            FreezeNowPlan::Unsupported => FAILURE,
            FreezeNowPlan::Refused(_) => USAGE_ERROR,
            FreezeNowPlan::Request(_) => 0i32,
        }),
{
    match plan {
        FreezeNowPlan::Unsupported => FAILURE,
        FreezeNowPlan::Refused(_) => USAGE_ERROR,
        FreezeNowPlan::Request(_) => 0,
    }
}

} // verus!
