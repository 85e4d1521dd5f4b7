//! What the commands promise their users: what the words on a command line mean, which
//! workspace and which tab a command is about, and what is written and shown.

use vstd::prelude::*;

use crate::api;
use crate::api::WorkspaceView;
use crate::cli;
use crate::cli::{
    CommandView, ConfigOptionsView, ConfigPlanView, FreezeNowPlanView, TabErrorView, Topic,
};
use crate::freezer::FreezeTargetView;
use crate::guarantees;
use crate::json;
use crate::json::JsonView;
use crate::monitor;
use crate::monitor::EffectView;
use crate::platform::Platform;
use crate::state::FrozenView;
use crate::text;

verus! {

// =============================== commands ===============================

/// That help is asked for by one of the words behind a command.
pub open spec fn helps(rest: Seq<Seq<char>>) -> bool {
    exists|i: int|
        0 <= i < rest.len() && (#[trigger] rest[i] == "--help"@ || rest[i] == "-h"@)
}

proof fn lemma_helps(rest: Seq<Seq<char>>)
    ensures
        cli::asks_for_help(rest) == helps(rest),
{
    if rest.contains("--help"@) {
        let i = choose|i: int| 0 <= i < rest.len() && rest[i] == "--help"@;
        assert(rest[i] == "--help"@);
    }
    if rest.contains("-h"@) {
        let i = choose|i: int| 0 <= i < rest.len() && rest[i] == "-h"@;
        assert(rest[i] == "-h"@);
    }
    if helps(rest) {
        let i = choose|i: int|
            0 <= i < rest.len() && (#[trigger] rest[i] == "--help"@ || rest[i] == "-h"@);
        assert(rest.contains(rest[i]));
    }
}

/// Each command is called by its own word, and gets all that stands behind it, in order;
/// but where help is asked for anywhere there, help about the command is what is given.
pub proof fn commands_are_called_by_their_words(rest: Seq<Seq<char>>)
    ensures
        helps(rest) ==> {
            &&& cli::command_in(seq!["monitor"@] + rest) == CommandView::Help(Topic::Monitor)
            &&& cli::command_in(seq!["config"@] + rest) == CommandView::Help(Topic::Config)
            &&& cli::command_in(seq!["config-ui"@] + rest) == CommandView::Help(Topic::ConfigUi)
            &&& cli::command_in(seq!["thaw"@] + rest) == CommandView::Help(Topic::Thaw)
            &&& cli::command_in(seq!["freeze-now"@] + rest) == CommandView::Help(
                Topic::FreezeNow,
            )
        },
        !helps(rest) ==> {
            &&& cli::command_in(seq!["monitor"@] + rest) == (CommandView::Monitor {
                debug: exists|i: int|
                    0 <= i < rest.len() && (#[trigger] rest[i] == "--debug"@ || rest[i] == "-v"@
                        || rest[i] == "--verbose"@),
            })
            &&& cli::command_in(seq!["config"@] + rest) == CommandView::Config(rest)
            &&& cli::command_in(seq!["config-ui"@] + rest) == CommandView::ConfigUi
            &&& cli::command_in(seq!["thaw"@] + rest) == CommandView::Thaw(rest)
            &&& cli::command_in(seq!["freeze-now"@] + rest) == CommandView::FreezeNow(rest)
        },
        cli::command_in(seq!["--help"@] + rest) == CommandView::Help(Topic::Program),
        cli::command_in(seq!["-h"@] + rest) == CommandView::Help(Topic::Program),
        cli::command_in(Seq::empty()) == CommandView::Help(Topic::Program),
{
    reveal_strlit("--help");
    reveal_strlit("-h");
    reveal_strlit("monitor");
    reveal_strlit("config");
    reveal_strlit("config-ui");
    reveal_strlit("thaw");
    reveal_strlit("freeze-now");
    assert("monitor"@[0] == 'm');
    assert("config"@[0] == 'c');
    assert("config-ui"@.len() == 9);
    assert("thaw"@[0] == 't');
    assert("freeze-now"@[0] == 'f');
    assert("--help"@[0] == '-');
    assert("-h"@[0] == '-');
    lemma_helps(rest);
    assert((seq!["monitor"@] + rest).skip(1) =~= rest);
    assert((seq!["config"@] + rest).skip(1) =~= rest);
    assert((seq!["config-ui"@] + rest).skip(1) =~= rest);
    assert((seq!["thaw"@] + rest).skip(1) =~= rest);
    assert((seq!["freeze-now"@] + rest).skip(1) =~= rest);
    if rest.contains("--debug"@) {
        let i = choose|i: int| 0 <= i < rest.len() && rest[i] == "--debug"@;
        assert(rest[i] == "--debug"@);
    }
    if rest.contains("-v"@) {
        let i = choose|i: int| 0 <= i < rest.len() && rest[i] == "-v"@;
        assert(rest[i] == "-v"@);
    }
    if rest.contains("--verbose"@) {
        let i = choose|i: int| 0 <= i < rest.len() && rest[i] == "--verbose"@;
        assert(rest[i] == "--verbose"@);
    }
    if exists|i: int|
        0 <= i < rest.len() && (#[trigger] rest[i] == "--debug"@ || rest[i] == "-v"@ || rest[i]
            == "--verbose"@) {
        let i = choose|i: int|
            0 <= i < rest.len() && (#[trigger] rest[i] == "--debug"@ || rest[i] == "-v"@
                || rest[i] == "--verbose"@);
        assert(rest.contains(rest[i]));
    }
}

/// Any other word is unknown, whatever stands behind it.
pub proof fn other_words_are_unknown(word: Seq<char>, rest: Seq<Seq<char>>)
    requires
        word != "monitor"@,
        word != "config"@,
        word != "config-ui"@,
        word != "thaw"@,
        word != "freeze-now"@,
        word != "--help"@,
        word != "-h"@,
    ensures
        cli::command_in(seq![word] + rest) == CommandView::Unknown(word),
{
}

// =============================== the context ===============================

/// That an id is the one of a variable, unless that is empty or missing; otherwise the
/// text that a document holds under a key, and none where it holds no text there.
pub open spec fn variable_first(
    id: Option<Seq<char>>,
    variable: Option<Seq<char>>,
    document: Option<JsonView>,
    key: Seq<char>,
) -> bool {
    if variable is Some && variable->0.len() > 0 {
        id == variable
    } else {
        match document {
            Some(document) => match document.get(key) {
                Some(JsonView::Text(text)) => id == Some(text),
                _ => id is None,
            },
            None => id is None,
        }
    }
}

/// Each id is what its own variable says, unless that is empty or missing; it is what the
/// document says under the name of the id then, and not known where that is no text.
pub proof fn variables_come_before_the_document(
    workspace: Option<Seq<char>>,
    tab: Option<Seq<char>>,
    pane: Option<Seq<char>>,
    document: Option<JsonView>,
)
    ensures
        ({
            let context = cli::context_in(workspace, tab, pane, document);
            &&& variable_first(context.workspace_id, workspace, document, "workspace_id"@)
            &&& variable_first(context.tab_id, tab, document, "tab_id"@)
            &&& variable_first(context.pane_id, pane, document, "pane_id"@)
        }),
{
}

/// The document is what its text says, where that can be read.
pub proof fn document_is_read_from_its_text(text: Seq<char>, document: JsonView)
    ensures
        json::json_parsed(text) is Err ==> cli::document_in(Some(text)) is None,
        json::json_parsed(text) == Ok::<JsonView, Seq<char>>(document) ==> cli::document_in(
            Some(text),
        ) == Some(document),
        cli::document_in(None) is None,
{
}

// =============================== the words of a switch ===============================

/// That a character is a small letter, or the capital of it.
pub open spec fn same_letter(c: char, small: char) -> bool {
    c == small || ('A' <= c <= 'Z' && c as int + 32 == small as int)
}

/// That a word is another one, which has no capitals, but for capitals.
pub open spec fn reads(word: Seq<char>, small: Seq<char>) -> bool {
    &&& word.len() == small.len()
    &&& forall|i: int| 0 <= i < word.len() ==> same_letter(#[trigger] word[i], small[i])
}

proof fn lemma_reads(word: Seq<char>, small: Seq<char>)
    requires
        forall|i: int| 0 <= i < small.len() ==> !('A' <= #[trigger] small[i] <= 'Z'),
    ensures
        text::lowered(word) == small <==> reads(word, small),
{
    let low = text::lowered(word);
    if reads(word, small) {
        assert forall|i: int| 0 <= i < word.len() implies #[trigger] low[i] == small[i] by {
            assert(same_letter(word[i], small[i]));
            assert(!('A' <= small[i] <= 'Z'));
            assert(low[i] == text::lower_char(word[i]));
        }
        assert(low =~= small);
    }
    if low == small {
        assert forall|i: int| 0 <= i < word.len() implies same_letter(
            #[trigger] word[i],
            small[i],
        ) by {
            assert(low[i] == small[i]);
        }
    }
}

/// That a word sets a switch.
pub open spec fn says_on(word: Seq<char>) -> bool {
    ||| reads(word, "true"@)
    ||| reads(word, "1"@)
    ||| reads(word, "yes"@)
    ||| reads(word, "y"@)
    ||| reads(word, "on"@)
}

/// That a word unsets a switch.
pub open spec fn says_off(word: Seq<char>) -> bool {
    ||| reads(word, "false"@)
    ||| reads(word, "0"@)
    ||| reads(word, "no"@)
    ||| reads(word, "n"@)
    ||| reads(word, "off"@)
}

proof fn lemma_switch_words(word: Seq<char>)
    ensures
        text::lowered(word) == "true"@ <==> reads(word, "true"@),
        text::lowered(word) == "1"@ <==> reads(word, "1"@),
        text::lowered(word) == "yes"@ <==> reads(word, "yes"@),
        text::lowered(word) == "y"@ <==> reads(word, "y"@),
        text::lowered(word) == "on"@ <==> reads(word, "on"@),
        text::lowered(word) == "false"@ <==> reads(word, "false"@),
        text::lowered(word) == "0"@ <==> reads(word, "0"@),
        text::lowered(word) == "no"@ <==> reads(word, "no"@),
        text::lowered(word) == "n"@ <==> reads(word, "n"@),
        text::lowered(word) == "off"@ <==> reads(word, "off"@),
{
    reveal_strlit("true");
    reveal_strlit("1");
    reveal_strlit("yes");
    reveal_strlit("y");
    reveal_strlit("on");
    reveal_strlit("false");
    reveal_strlit("0");
    reveal_strlit("no");
    reveal_strlit("n");
    reveal_strlit("off");
    lemma_reads(word, "true"@);
    lemma_reads(word, "1"@);
    lemma_reads(word, "yes"@);
    lemma_reads(word, "y"@);
    lemma_reads(word, "on"@);
    lemma_reads(word, "false"@);
    lemma_reads(word, "0"@);
    lemma_reads(word, "no"@);
    lemma_reads(word, "n"@);
    lemma_reads(word, "off"@);
}

/// A switch is set and unset by five words each, in capitals or not, and by no other.
pub proof fn switch_has_its_words(word: Seq<char>)
    ensures
        says_on(word) ==> cli::switch_in(word) == Some(true),
        says_off(word) ==> cli::switch_in(word) == Some(false),
        !says_on(word) && !says_off(word) ==> cli::switch_in(word) is None,
{
    lemma_switch_words(word);
    reveal_strlit("true");
    reveal_strlit("1");
    reveal_strlit("yes");
    reveal_strlit("y");
    reveal_strlit("on");
    reveal_strlit("false");
    reveal_strlit("0");
    reveal_strlit("no");
    reveal_strlit("n");
    reveal_strlit("off");
    assert("yes"@[0] == 'y' && "off"@[0] == 'o');
    assert("on"@[0] == 'o' && "no"@[0] == 'n');
    assert("1"@[0] == '1' && "y"@[0] == 'y' && "0"@[0] == '0' && "n"@[0] == 'n');
}

// =============================== the options of config ===============================

/// An option of `config`, with what stands behind it.
pub enum Said {
    Workspace(Seq<char>),
    Enabled(Seq<char>),
    IdleSecs(Seq<char>),
    Clear,
}

/// An option as it is written on a command line.
pub open spec fn said_words(said: Said) -> Seq<Seq<char>> {
    match said {
        Said::Workspace(id) => seq!["--workspace"@, id],
        Said::Enabled(word) => seq!["--enabled"@, word],
        Said::IdleSecs(word) => seq!["--idle-secs"@, word],
        Said::Clear => seq!["--clear"@],
    }
}

/// Options as they are written, one behind the other.
pub open spec fn written(said: Seq<Said>) -> Seq<Seq<char>>
    decreases said.len(),
{
    if said.len() == 0 {
        Seq::empty()
    } else {
        said_words(said[0]) + written(said.drop_first())
    }
}

spec fn taken(options: ConfigOptionsView, said: Said) -> ConfigOptionsView {
    match said {
        Said::Workspace(id) => ConfigOptionsView { workspace: Some(id), ..options },
        Said::Enabled(word) => ConfigOptionsView { enabled: cli::switch_in(word), ..options },
        Said::IdleSecs(word) => ConfigOptionsView {
            idle_secs: match text::number(word) {
                Some(n) => Some(n),
                None => options.idle_secs,
            },
            ..options
        },
        Said::Clear => ConfigOptionsView { clear: true, ..options },
    }
}

spec fn all_taken(options: ConfigOptionsView, said: Seq<Said>) -> ConfigOptionsView
    decreases said.len(),
{
    if said.len() == 0 {
        options
    } else {
        all_taken(taken(options, said[0]), said.drop_first())
    }
}

proof fn lemma_option_words()
    ensures
        "--workspace"@ != "--enabled"@,
        "--workspace"@ != "--idle-secs"@,
        "--workspace"@ != "--clear"@,
        "--enabled"@ != "--idle-secs"@,
        "--enabled"@ != "--clear"@,
        "--idle-secs"@ != "--clear"@,
{
    reveal_strlit("--workspace");
    reveal_strlit("--enabled");
    reveal_strlit("--idle-secs");
    reveal_strlit("--clear");
    assert("--workspace"@[2] == 'w');
    assert("--enabled"@[2] == 'e');
    assert("--idle-secs"@[2] == 'i');
    assert("--clear"@[2] == 'c');
}

proof fn lemma_options(
    args: Seq<Seq<char>>,
    i: int,
    options: ConfigOptionsView,
    said: Seq<Said>,
    tail: Seq<Seq<char>>,
)
    requires
        0 <= i <= args.len(),
        args.skip(i) == written(said) + tail,
    ensures
        cli::options_from(args, i, options) == cli::options_from(
            args,
            args.len() - tail.len(),
            all_taken(options, said),
        ),
    decreases said.len(),
{
    lemma_option_words();
    if said.len() == 0 {
        assert(written(said) + tail =~= tail);
        assert(args.skip(i).len() == args.len() - i);
    } else {
        let front = said_words(said[0]);
        let rest = said.drop_first();
        let all = front + written(rest) + tail;
        assert(args.skip(i) == all);
        assert(args.skip(i)[0] == args[i]);
        assert(all[0] == front[0]);
        if front.len() == 2 {
            assert(args.skip(i)[1] == args[i + 1]);
            assert(all[1] == front[1]);
        }
        assert(args.skip(i + front.len()) =~= written(rest) + tail) by {
            assert(args.skip(i).skip(front.len() as int) =~= args.skip(i + front.len()));
            assert(all.skip(front.len() as int) =~= written(rest) + tail);
        }
        lemma_options(args, i + front.len(), taken(options, said[0]), rest, tail);
    }
}

proof fn lemma_all_taken(options: ConfigOptionsView, said: Seq<Said>)
    ensures
        ({
            let o = all_taken(options, said);
            &&& o.clear == (options.clear || exists|k: int|
                0 <= k < said.len() && (#[trigger] said[k]) is Clear)
            &&& (forall|k: int| 0 <= k < said.len() ==> !((#[trigger] said[k]) is Workspace))
                ==> o.workspace == options.workspace
            &&& (forall|k: int| 0 <= k < said.len() ==> !((#[trigger] said[k]) is Enabled))
                ==> o.enabled == options.enabled
            &&& (forall|k: int|
                0 <= k < said.len() && (#[trigger] said[k]) is IdleSecs ==> text::number(
                    said[k]->IdleSecs_0,
                ) is None) ==> o.idle_secs == options.idle_secs
        }),
    decreases said.len(),
{
    if said.len() > 0 {
        let rest = said.drop_first();
        let o1 = taken(options, said[0]);
        lemma_all_taken(o1, rest);
        assert forall|k: int| 0 <= k < rest.len() implies #[trigger] rest[k] == said[k + 1] by {}
        if exists|k: int| 0 <= k < said.len() && (#[trigger] said[k]) is Clear {
            let k = choose|k: int| 0 <= k < said.len() && (#[trigger] said[k]) is Clear;
            if k > 0 {
                assert(rest[k - 1] is Clear);
            }
        }
        if exists|k: int| 0 <= k < rest.len() && (#[trigger] rest[k]) is Clear {
            let k = choose|k: int| 0 <= k < rest.len() && (#[trigger] rest[k]) is Clear;
            assert(said[k + 1] is Clear);
        }
        if said[0] is Clear {
            assert(said[0] is Clear);
        }
    }
}

proof fn lemma_last_taken(options: ConfigOptionsView, said: Seq<Said>, k: int)
    requires
        0 <= k < said.len(),
    ensures
        ({
            let o = all_taken(options, said);
            &&& said[k] is Workspace && (forall|j: int|
                k < j < said.len() ==> !((#[trigger] said[j]) is Workspace)) ==> o.workspace
                == Some(said[k]->Workspace_0)
            &&& said[k] is Enabled && (forall|j: int|
                k < j < said.len() ==> !((#[trigger] said[j]) is Enabled)) ==> o.enabled
                == cli::switch_in(said[k]->Enabled_0)
            &&& said[k] is IdleSecs && text::number(said[k]->IdleSecs_0) is Some && (forall|j: int|
                k < j < said.len() && (#[trigger] said[j]) is IdleSecs ==> text::number(
                    said[j]->IdleSecs_0,
                ) is None) ==> o.idle_secs == text::number(said[k]->IdleSecs_0)
        }),
    decreases said.len(),
{
    let rest = said.drop_first();
    let o1 = taken(options, said[0]);
    assert forall|j: int| 0 <= j < rest.len() implies #[trigger] rest[j] == said[j + 1] by {}
    if k == 0 {
        lemma_all_taken(o1, rest);
    } else {
        lemma_last_taken(o1, rest, k - 1);
        assert(rest[k - 1] == said[k]);
    }
}

/// Options mean what they say, in any order and however many there are: of several of a
/// kind the last one counts, and of times the last one that is a number. One that is not
/// there says nothing.
pub proof fn options_mean_what_they_say(said: Seq<Said>, k: int)
    ensures
        cli::options_in(written(said)) matches Ok(o) && {
            &&& o.clear <==> exists|j: int| 0 <= j < said.len() && (#[trigger] said[j]) is Clear
            &&& (forall|j: int| 0 <= j < said.len() ==> !((#[trigger] said[j]) is Workspace))
                ==> o.workspace is None
            &&& (forall|j: int| 0 <= j < said.len() ==> !((#[trigger] said[j]) is Enabled))
                ==> o.enabled is None
            &&& (forall|j: int| 0 <= j < said.len() ==> !((#[trigger] said[j]) is IdleSecs))
                ==> o.idle_secs is None
            &&& 0 <= k < said.len() && said[k] is Workspace && (forall|j: int|
                k < j < said.len() ==> !((#[trigger] said[j]) is Workspace)) ==> o.workspace
                == Some(said[k]->Workspace_0)
            &&& 0 <= k < said.len() && said[k] is Enabled && (forall|j: int|
                k < j < said.len() ==> !((#[trigger] said[j]) is Enabled)) ==> {
                let word = said[k]->Enabled_0;
                &&& says_on(word) ==> o.enabled == Some(true)
                &&& says_off(word) ==> o.enabled == Some(false)
                &&& !says_on(word) && !says_off(word) ==> o.enabled is None
            }
            &&& 0 <= k < said.len() && said[k] is IdleSecs && text::number(
                said[k]->IdleSecs_0,
            ) is Some && (forall|j: int|
                k < j < said.len() && (#[trigger] said[j]) is IdleSecs ==> text::number(
                    said[j]->IdleSecs_0,
                ) is None) ==> o.idle_secs == text::number(said[k]->IdleSecs_0)
        },
{
    let none = ConfigOptionsView {
        workspace: None,
        enabled: None,
        idle_secs: None,
        clear: false,
    };
    let args = written(said);
    assert(args.skip(0) =~= args + Seq::<Seq<char>>::empty());
    lemma_options(args, 0, none, said, Seq::empty());
    lemma_all_taken(none, said);
    if 0 <= k < said.len() {
        lemma_last_taken(none, said, k);
        match said[k] {
            Said::Enabled(word) => switch_has_its_words(word),
            _ => {},
        }
    }
}

/// An option at the end that lacks what should stand behind it takes back what was said
/// of the workspace or of the switch; a time stays as it was said.
pub proof fn options_without_words_say_nothing(said: Seq<Said>)
    ensures
        cli::options_in(written(said)) matches Ok(o) && {
            &&& cli::options_in(written(said) + seq!["--workspace"@]) == Ok::<
                ConfigOptionsView,
                Seq<char>,
            >(ConfigOptionsView { workspace: None, ..o })
            &&& cli::options_in(written(said) + seq!["--enabled"@]) == Ok::<
                ConfigOptionsView,
                Seq<char>,
            >(ConfigOptionsView { enabled: None, ..o })
            &&& cli::options_in(written(said) + seq!["--idle-secs"@]) == Ok::<
                ConfigOptionsView,
                Seq<char>,
            >(o)
        },
{
    let none = ConfigOptionsView {
        workspace: None,
        enabled: None,
        idle_secs: None,
        clear: false,
    };
    let args = written(said);
    lemma_option_words();
    assert(args.skip(0) =~= args + Seq::<Seq<char>>::empty());
    lemma_options(args, 0, none, said, Seq::empty());
    lemma_option_at_the_end(args, said, none, "--workspace"@);
    lemma_option_at_the_end(args, said, none, "--enabled"@);
    lemma_option_at_the_end(args, said, none, "--idle-secs"@);
    reveal_with_fuel(cli::options_from, 3);
}

proof fn lemma_option_at_the_end(
    args: Seq<Seq<char>>,
    said: Seq<Said>,
    none: ConfigOptionsView,
    word: Seq<char>,
)
    requires
        args == written(said),
    ensures
        ({
            let all = args + seq![word];
            &&& cli::options_from(all, 0, none) == cli::options_from(
                all,
                args.len() as int,
                all_taken(none, said),
            )
            &&& all[args.len() as int] == word
            &&& cli::arg_at(all, args.len() as int + 1) is None
        }),
{
    let all = args + seq![word];
    assert(all.skip(0) =~= args + seq![word]);
    lemma_options(all, 0, none, said, seq![word]);
}

/// A word that is no option is complained about, whatever stands before and behind it.
pub proof fn unknown_options_are_refused(
    said: Seq<Said>,
    word: Seq<char>,
    rest: Seq<Seq<char>>,
    workspace: Option<Seq<char>>,
    as_action: bool,
)
    requires
        word != "--workspace"@,
        word != "--enabled"@,
        word != "--idle-secs"@,
        word != "--clear"@,
    ensures
        cli::config_plan(written(said) + (seq![word] + rest), workspace, as_action)
            == ConfigPlanView::UnknownOption(word),
{
    let none = ConfigOptionsView {
        workspace: None,
        enabled: None,
        idle_secs: None,
        clear: false,
    };
    let tail = seq![word] + rest;
    let args = written(said) + tail;
    assert(args.skip(0) =~= args);
    lemma_options(args, 0, none, said, tail);
    assert(args[args.len() - tail.len()] == tail[0]);
}

/// The workspace that a plan is about.
pub open spec fn about(plan: ConfigPlanView) -> Option<Seq<char>> {
    match plan {
        ConfigPlanView::Clear { workspace_id, .. } => Some(workspace_id),
        ConfigPlanView::Keep { workspace_id, .. } => Some(workspace_id),
        ConfigPlanView::Ask { workspace_id } => Some(workspace_id),
        ConfigPlanView::Show { workspace_id } => Some(workspace_id),
        _ => None,
    }
}

/// The arguments of the call that a plan makes.
pub open spec fn call_of(plan: ConfigPlanView) -> Option<Seq<Seq<char>>> {
    match plan {
        ConfigPlanView::Clear { args, .. } => Some(args),
        ConfigPlanView::Keep { args, .. } => Some(args),
        _ => None,
    }
}

/// A workspace that is named is the one that `config` is about, wherever it is called:
/// the call, if it makes one, names it too.
pub proof fn named_workspace_is_configured(
    said: Seq<Said>,
    k: int,
    workspace: Option<Seq<char>>,
    elsewhere: Option<Seq<char>>,
    as_action: bool,
)
    requires
        0 <= k < said.len(),
        said[k] is Workspace,
        forall|j: int| k < j < said.len() ==> !((#[trigger] said[j]) is Workspace),
    ensures
        ({
            let plan = cli::config_plan(written(said), workspace, as_action);
            &&& about(plan) == Some(said[k]->Workspace_0)
            &&& call_of(plan) matches Some(args) ==> args.len() > 2 && args[2]
                == said[k]->Workspace_0
            &&& plan == cli::config_plan(written(said), elsewhere, as_action)
        }),
{
    options_mean_what_they_say(said, k);
}

/// Where none is named, it is about the workspace that it is called in, and complains
/// where it is called in none.
pub proof fn workspace_is_the_one_around_otherwise(
    said: Seq<Said>,
    workspace: Seq<char>,
    as_action: bool,
)
    requires
        forall|j: int| 0 <= j < said.len() ==> !((#[trigger] said[j]) is Workspace),
    ensures
        ({
            let plan = cli::config_plan(written(said), Some(workspace), as_action);
            &&& about(plan) == Some(workspace)
            &&& call_of(plan) matches Some(args) ==> args.len() > 2 && args[2] == workspace
            &&& cli::config_plan(written(said), None, as_action) is NoWorkspace
        }),
{
    options_mean_what_they_say(said, 0);
}

proof fn lemma_front(workspace_id: Seq<char>)
    ensures
        ({
            let front = api::metadata_front(workspace_id, 86_400_000);
            &&& front.len() == 7
            &&& front[0] == "workspace"@
            &&& front[1] == "report-metadata"@
            &&& front[2] == workspace_id
            &&& front[3] == "--source"@
            &&& front[4] == "herdr-freeze"@
            &&& front[5] == "--ttl-ms"@
            &&& front[6] == "86400000"@
        }),
{
    reveal_strlit("86400000");
    reveal_with_fuel(text::decimal_of, 9);
    assert(text::decimal_of(86_400_000) =~= "86400000"@);
}

/// That arguments have Herdr keep settings of a workspace for a day: whether its panes
/// are frozen, and after how many seconds.
pub open spec fn keeps(
    args: Seq<Seq<char>>,
    workspace_id: Seq<char>,
    enabled: bool,
    secs: u64,
) -> bool {
    &&& args.len() == 11
    &&& args[0] == "workspace"@
    &&& args[1] == "report-metadata"@
    &&& args[2] == workspace_id
    &&& args[3] == "--source"@
    &&& args[4] == "herdr-freeze"@
    &&& args[5] == "--ttl-ms"@
    &&& args[6] == "86400000"@
    &&& args[7] == "--token"@
    &&& args[8] == "freeze_enabled"@ + "="@ + (if enabled {
        "true"@
    } else {
        "false"@
    })
    &&& args[9] == "--token"@
    &&& args[10] == "freeze_idle_secs"@ + "="@ + text::decimal_of(secs as nat)
}

proof fn lemma_keeps(workspace_id: Seq<char>, enabled: bool, secs: u64)
    ensures
        keeps(
            cli::report_args(workspace_id, cli::settings_tokens(enabled, secs)),
            workspace_id,
            enabled,
            secs,
        ),
{
    let tokens = cli::settings_tokens(enabled, secs);
    lemma_front(workspace_id);
    reveal_with_fuel(api::token_args, 3);
    assert(tokens.drop_last() =~= seq![tokens[0]]);
    assert(tokens.drop_last().drop_last() =~= Seq::<(Seq<char>, Seq<char>)>::empty());
    let back = api::token_args(tokens);
    assert(back.len() == 4);
    assert(back[0] == "--token"@);
    assert(back[1] == tokens[0].0 + "="@ + tokens[0].1);
    assert(back[2] == "--token"@);
    assert(back[3] == tokens[1].0 + "="@ + tokens[1].1);
}

/// `config` has Herdr forget the settings where that is said, whatever else is. It has
/// Herdr keep what is set: a switch that is not given is on, a time that is not given is
/// three minutes, and one that is too short is half a minute; it tells what was given.
/// Where nothing is set it asks if it was called as an action, and shows the settings if
/// not.
pub proof fn settings_are_kept_as_given(
    args: Seq<Seq<char>>,
    workspace_id: Seq<char>,
    workspace: Option<Seq<char>>,
    as_action: bool,
)
    requires
        about(cli::config_plan(args, workspace, as_action)) == Some(workspace_id),
    ensures
        cli::options_in(args) matches Ok(o) && {
            let secs: u64 = match o.idle_secs {
                Some(n) => if n < 30 {
                    30
                } else {
                    n
                },
                None => 180,
            };
            match cli::config_plan(args, workspace, as_action) {
                ConfigPlanView::Clear { args, .. } => {
                    &&& o.clear
                    &&& args.len() == 11
                    &&& args[0] == "workspace"@ && args[1] == "report-metadata"@ && args[2]
                        == workspace_id && args[3] == "--source"@ && args[4] == "herdr-freeze"@
                    &&& args[7] == "--clear-token"@ && args[8] == "freeze_enabled"@
                    &&& args[9] == "--clear-token"@ && args[10] == "freeze_idle_secs"@
                },
                ConfigPlanView::Keep { args, enabled, idle_secs, .. } => {
                    &&& !o.clear
                    &&& o.enabled is Some || o.idle_secs is Some
                    &&& keeps(args, workspace_id, o.enabled != Some(false), secs)
                    &&& enabled == o.enabled
                    &&& idle_secs is Some <==> o.idle_secs is Some
                    &&& idle_secs is Some ==> idle_secs == Some(secs)
                },
                ConfigPlanView::Ask { .. } => !o.clear && o.enabled is None && o.idle_secs is None
                    && as_action,
                ConfigPlanView::Show { .. } => !o.clear && o.enabled is None && o.idle_secs is None
                    && !as_action,
                _ => false,
            }
        },
{
    match cli::options_in(args) {
        Ok(o) => {
            let secs: u64 = match o.idle_secs {
                Some(n) => if n < 30 {
                    30
                } else {
                    n
                },
                None => 180,
            };
            lemma_keeps(workspace_id, o.enabled != Some(false), secs);
            lemma_front(workspace_id);
            let keys = seq!["freeze_enabled"@, "freeze_idle_secs"@];
            reveal_with_fuel(api::clear_args, 3);
            assert(keys.drop_last() =~= seq!["freeze_enabled"@]);
            assert(keys.drop_last().drop_last() =~= Seq::<Seq<char>>::empty());
            let back = api::clear_args(keys);
            assert(back.len() == 4);
            assert(back[0] == "--clear-token"@ && back[1] == keys[0]);
            assert(back[2] == "--clear-token"@ && back[3] == keys[1]);
        },
        Err(_) => {},
    }
}

// =============================== config-ui ===============================

/// That an answer says no.
pub open spec fn answers_no(word: Seq<char>) -> bool {
    ||| reads(word, "n"@)
    ||| reads(word, "no"@)
    ||| reads(word, "false"@)
    ||| reads(word, "0"@)
}

/// An answer about the switch says no by four words, in capitals or not and with any
/// white space around; any other answer, and none, says yes.
pub proof fn only_no_is_no(line: Seq<char>)
    ensures
        cli::switch_answered(line) <==> !answers_no(text::trimmed(line)),
{
    lemma_switch_words(text::trimmed(line));
}

/// An answer about the time sets it where it is a number, with any white space around,
/// but to half a minute at least; any other answer leaves the time that is set, or three
/// minutes where that is no number.
pub proof fn time_is_answered_by_a_number(line: Seq<char>, current: Seq<char>)
    ensures
        match (text::number(text::trimmed(line)), text::number(current)) {
            (Some(n), _) => cli::secs_answered(line, current) == (if n < 30 {
                30
            } else {
                n
            }),
            (None, Some(n)) => cli::secs_answered(line, current) == n,
            (None, None) => cli::secs_answered(line, current) == 180,
        },
{
}

/// What was answered is what Herdr is told to keep.
pub proof fn answers_are_kept(id: Seq<char>, enabled: bool, secs: u64)
    ensures
        keeps(cli::report_args(id, cli::settings_tokens(enabled, secs)), id, enabled, secs),
{
    lemma_keeps(id, enabled, secs);
}

proof fn lemma_workspace_named(workspaces: Seq<WorkspaceView>, id: Seq<char>, i: int)
    requires
        0 <= i < workspaces.len(),
        workspaces[i].workspace_id == id,
        forall|j: int| 0 <= j < i ==> (#[trigger] workspaces[j]).workspace_id != id,
    ensures
        cli::workspace_named(workspaces, id) == Some(workspaces[i]),
    decreases i,
{
    if i > 0 {
        let rest = workspaces.drop_first();
        assert(workspaces[0].workspace_id != id);
        assert forall|j: int| 0 <= j < i - 1 implies (#[trigger] rest[j]).workspace_id != id by {
            assert(rest[j] == workspaces[j + 1]);
        }
        lemma_workspace_named(rest, id, i - 1);
    }
}

proof fn lemma_workspace_not_named(workspaces: Seq<WorkspaceView>, id: Seq<char>)
    requires
        forall|j: int| 0 <= j < workspaces.len() ==> (#[trigger] workspaces[j]).workspace_id != id,
    ensures
        cli::workspace_named(workspaces, id) is None,
    decreases workspaces.len(),
{
    if workspaces.len() > 0 {
        let rest = workspaces.drop_first();
        assert(workspaces[0].workspace_id != id);
        assert forall|j: int| 0 <= j < rest.len() implies (#[trigger] rest[j]).workspace_id
            != id by {
            assert(rest[j] == workspaces[j + 1]);
        }
        lemma_workspace_not_named(rest, id);
    }
}

/// The settings of a workspace are shown as they stand on the list, where the first one
/// with its id counts; what is missing is shown as it is followed.
pub proof fn settings_are_shown_as_listed(
    workspaces: Seq<WorkspaceView>,
    id: Seq<char>,
    i: int,
)
    requires
        0 <= i < workspaces.len(),
        workspaces[i].workspace_id == id,
        forall|j: int| 0 <= j < i ==> (#[trigger] workspaces[j]).workspace_id != id,
    ensures
        ({
            let tokens = workspaces[i].tokens;
            let enabled = if tokens.contains_key("freeze_enabled"@) {
                tokens["freeze_enabled"@]
            } else {
                "true"@
            };
            &&& cli::workspace_named(workspaces, id) == Some(workspaces[i])
            &&& cli::settings_now(Some(workspaces), id) == (
                enabled,
                if tokens.contains_key("freeze_idle_secs"@) {
                    tokens["freeze_idle_secs"@]
                } else {
                    "180"@
                },
            )
            &&& cli::settings_line(id, workspaces[i]) == "[herdr-freeze] workspace "@ + id
                + " ("@ + workspaces[i].label + "): freeze_enabled="@ + enabled
                + " freeze_idle_secs="@ + (if tokens.contains_key("freeze_idle_secs"@) {
                tokens["freeze_idle_secs"@]
            } else {
                "180(默认)"@
            }) + "s"@
        }),
{
    lemma_workspace_named(workspaces, id, i);
}

/// A workspace that is not on the list is not shown, and the usual settings are offered
/// for it; so they are where there is no list.
pub proof fn unlisted_workspace_has_the_usual_settings(
    workspaces: Seq<WorkspaceView>,
    id: Seq<char>,
)
    requires
        forall|j: int| 0 <= j < workspaces.len() ==> (#[trigger] workspaces[j]).workspace_id != id,
    ensures
        cli::workspace_named(workspaces, id) is None,
        cli::settings_now(Some(workspaces), id) == ("true"@, "180"@),
        cli::settings_now(None, id) == ("true"@, "180"@),
{
    lemma_workspace_not_named(workspaces, id);
}

// =============================== tabs ===============================

proof fn lemma_tab_from(args: Seq<Seq<char>>, i: int, tab: Option<Seq<char>>, bad: int)
    requires
        0 <= i <= args.len(),
        i <= bad <= args.len() + 1,
        (bad - i) % 2 == 0,
        bad < args.len() ==> args[bad] != "--tab"@,
        bad >= args.len() ==> bad == args.len() || bad == args.len() + 1,
        forall|j: int| i <= j < bad && j < args.len() && (j - i) % 2 == 0 ==> #[trigger] args[j]
            == "--tab"@,
    ensures
        cli::tab_from(args, i, tab) == (if bad < args.len() {
            Err(args[bad])
        } else if bad == args.len() + 1 {
            Ok(None)
        } else if i == args.len() {
            Ok(tab)
        } else {
            Ok(Some(args[args.len() - 1]))
        }),
    decreases args.len() + 1 - i,
{
    if i < args.len() && i < bad {
        assert(args[i] == "--tab"@);
        if i + 2 <= args.len() {
            assert forall|j: int|
                i + 2 <= j < bad && j < args.len() && (j - (i + 2)) % 2 == 0 implies #[trigger] args[j]
                == "--tab"@ by {
                assert((j - i) % 2 == 0);
            }
            lemma_tab_from(args, i + 2, cli::arg_at(args, i + 1), bad);
        } else {
            assert(cli::tab_from(args, i + 2, None) == Ok::<Option<Seq<char>>, Seq<char>>(None));
        }
    }
}

/// That words are pairs of `--tab` and a tab.
pub open spec fn names_tabs(args: Seq<Seq<char>>) -> bool {
    args.len() % 2 == 0 && forall|j: int|
        0 <= j < args.len() && j % 2 == 0 ==> #[trigger] args[j] == "--tab"@
}

/// A tab that is named is the one that a command is about, wherever it is called; of
/// several the last one counts.
pub proof fn named_tab_is_meant(args: Seq<Seq<char>>, tab: Seq<char>, known: Option<Seq<char>>)
    requires
        names_tabs(args),
    ensures
        cli::tab_in(args + seq!["--tab"@, tab], known) == Ok::<Seq<char>, TabErrorView>(tab),
        cli::tab_in(seq!["--tab"@, tab], known) == Ok::<Seq<char>, TabErrorView>(tab),
{
    let all = args + seq!["--tab"@, tab];
    assert forall|j: int| 0 <= j < all.len() && (j - 0) % 2 == 0 implies #[trigger] all[j]
        == "--tab"@ by {
        if j < args.len() {
            assert(args[j] == "--tab"@);
        }
    }
    assert(all[all.len() - 1] == tab);
    lemma_tab_from(all, 0, None, all.len() as int);
    let one = seq!["--tab"@, tab];
    assert(one[one.len() - 1] == tab);
    lemma_tab_from(one, 0, None, 2);
}

/// Where none is named, it is about the tab that it is called in, and complains where it
/// is called in none. To name none by an option with nothing behind it is the same.
pub proof fn tab_is_the_one_around_otherwise(args: Seq<Seq<char>>, tab: Seq<char>)
    requires
        names_tabs(args),
    ensures
        cli::tab_in(Seq::empty(), Some(tab)) == Ok::<Seq<char>, TabErrorView>(tab),
        cli::tab_in(Seq::empty(), None) == Err::<Seq<char>, TabErrorView>(TabErrorView::Missing),
        cli::tab_in(args + seq!["--tab"@], Some(tab)) == Ok::<Seq<char>, TabErrorView>(tab),
        cli::tab_in(args + seq!["--tab"@], None) == Err::<Seq<char>, TabErrorView>(
            TabErrorView::Missing,
        ),
{
    lemma_tab_from(Seq::empty(), 0, None, 0);
    let all = args + seq!["--tab"@];
    assert forall|j: int|
        0 <= j < all.len() + 1 && j < all.len() && (j - 0) % 2 == 0 implies #[trigger] all[j]
        == "--tab"@ by {
        if j < args.len() {
            assert(args[j] == "--tab"@);
        }
    }
    lemma_tab_from(all, 0, None, all.len() as int + 1);
}

/// Any other word where an option should stand is complained about.
pub proof fn other_options_are_refused(
    args: Seq<Seq<char>>,
    word: Seq<char>,
    rest: Seq<Seq<char>>,
    known: Option<Seq<char>>,
)
    requires
        names_tabs(args),
        word != "--tab"@,
    ensures
        cli::tab_in(args + (seq![word] + rest), known) == Err::<Seq<char>, TabErrorView>(
            TabErrorView::UnknownOption(word),
        ),
{
    let all = args + (seq![word] + rest);
    let bad = args.len() as int;
    assert(all[bad] == word);
    assert forall|j: int| 0 <= j < bad && j < all.len() && (j - 0) % 2 == 0 implies #[trigger] all[j]
        == "--tab"@ by {
        assert(args[j] == "--tab"@);
    }
    lemma_tab_from(all, 0, None, bad);
}

/// On Windows `freeze-now` asks for the tab that is named, wherever it is called, and for
/// the one that it is called in where none is; what is complained about is the same as
/// with `thaw`. Elsewhere it asks for nothing, whatever is said.
pub proof fn freeze_now_asks_for_the_tab(
    platform: Platform,
    args: Seq<Seq<char>>,
    tab: Seq<char>,
    known: Option<Seq<char>>,
)
    requires
        names_tabs(args),
    ensures
        cli::freeze_now_plan(Platform::Windows, args + seq!["--tab"@, tab], known)
            == FreezeNowPlanView::Request(tab),
        cli::freeze_now_plan(Platform::Windows, Seq::empty(), Some(tab))
            == FreezeNowPlanView::Request(tab),
        cli::freeze_now_plan(Platform::Windows, Seq::empty(), None) == FreezeNowPlanView::Refused(
            TabErrorView::Missing,
        ),
        tab != "--tab"@ ==> cli::freeze_now_plan(Platform::Windows, args + seq![tab], known)
            == FreezeNowPlanView::Refused(TabErrorView::UnknownOption(tab)),
        platform != Platform::Windows ==> cli::freeze_now_plan(platform, args, known)
            is Unsupported,
{
    named_tab_is_meant(args, tab, known);
    tab_is_the_one_around_otherwise(args, tab);
    if tab != "--tab"@ {
        other_options_are_refused(args, tab, Seq::empty(), known);
        assert(seq![tab] + Seq::<Seq<char>>::empty() =~= seq![tab]);
    }
}

// =============================== thaw ===============================

proof fn lemma_thaw_effects(entries: Seq<FrozenView>, i: int)
    requires
        0 <= i < entries.len(),
    ensures
        ({
            let effects = monitor::thaw_effects(entries);
            &&& effects.len() == 2 * entries.len()
            &&& effects[2 * i] == EffectView::Resume(entries[i].target())
            &&& effects[2 * i + 1] == (EffectView::SetLabel {
                pane_id: entries[i].pane_id,
                label: entries[i].orig_label,
            })
        }),
    decreases entries.len(),
{
    let front = entries.drop_last();
    if front.len() > 0 {
        lemma_thaw_effects(front, if i < front.len() {
            i
        } else {
            0
        });
    } else {
        assert(monitor::thaw_effects(front).len() == 0);
    }
}

/// `thaw` brings back every frozen pane of the tab that is on the list, with its own
/// processes and its own name, and leaves the others there: the list is written down
/// without those of the tab, and last.
pub proof fn thaw_brings_back_the_tab(frozen: Seq<FrozenView>, tab_id: Seq<char>, entry: FrozenView)
    requires
        frozen.contains(entry),
    ensures
        ({
            let effects = cli::thaw_command(frozen, tab_id);
            let n = effects.len() - 1;
            &&& n >= 0
            &&& effects[n] matches EffectView::SaveFrozen(left) && (left.contains(entry)
                <==> entry.tab_id != tab_id)
            &&& entry.tab_id == tab_id ==> effects.contains(
                EffectView::Resume(FreezeTargetView { roots: entry.roots, pgid: entry.pgid }),
            ) && effects.contains(
                EffectView::SetLabel { pane_id: entry.pane_id, label: entry.orig_label },
            )
        }),
{
    let mine = frozen.filter(monitor::on_tab(tab_id));
    let left = frozen.filter(monitor::off_tab(tab_id));
    let effects = cli::thaw_command(frozen, tab_id);
    guarantees::lemma_filter_from(frozen, monitor::on_tab(tab_id));
    guarantees::lemma_filter_from(frozen, monitor::off_tab(tab_id));
    if entry.tab_id == tab_id {
        assert(monitor::on_tab(tab_id)(entry));
        assert(mine.contains(entry));
        let i = choose|i: int| 0 <= i < mine.len() && mine[i] == entry;
        lemma_thaw_effects(mine, i);
        assert(effects[2 * i] == EffectView::Resume(entry.target()));
        assert(effects[2 * i + 1] == (EffectView::SetLabel {
            pane_id: entry.pane_id,
            label: entry.orig_label,
        }));
        if left.contains(entry) {
            let k = choose|k: int| 0 <= k < left.len() && left[k] == entry;
            assert(monitor::off_tab(tab_id)(left[k]));
        }
    } else {
        assert(monitor::off_tab(tab_id)(entry));
    }
}

/// `thaw` resumes nothing but what is noted of the tab.
pub proof fn thaw_touches_nothing_else(frozen: Seq<FrozenView>, tab_id: Seq<char>, k: int)
    requires
        0 <= k < cli::thaw_command(frozen, tab_id).len() - 1,
    ensures
        exists|i: int|
            0 <= i < frozen.len() && (#[trigger] frozen[i]).tab_id == tab_id && (
            cli::thaw_command(frozen, tab_id)[k] == EffectView::Resume(
                FreezeTargetView { roots: frozen[i].roots, pgid: frozen[i].pgid },
            ) || cli::thaw_command(frozen, tab_id)[k] == (EffectView::SetLabel {
                pane_id: frozen[i].pane_id,
                label: frozen[i].orig_label,
            })),
{
    let mine = frozen.filter(monitor::on_tab(tab_id));
    guarantees::lemma_filter_from(frozen, monitor::on_tab(tab_id));
    if mine.len() == 0 {
        assert(monitor::thaw_effects(mine).len() == 0);
    } else {
        lemma_thaw_effects(mine, 0);
        lemma_thaw_effects(mine, k / 2);
        let e = mine[k / 2];
        assert(monitor::on_tab(tab_id)(e));
        assert(frozen.contains(e));
        let i = choose|i: int| 0 <= i < frozen.len() && frozen[i] == e;
        assert(frozen[i].tab_id == tab_id);
        assert(k == 2 * (k / 2) || k == 2 * (k / 2) + 1);
    }
}

} // verus!
