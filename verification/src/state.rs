//! What is kept on disk: the panes that are frozen, so that a new monitor can
//! resume them, and the requests that other processes leave for the monitor.

use vstd::prelude::*;

use crate::api::push_text;
use crate::freezer::{copy_pids, FreezeTarget, FreezeTargetView};
use crate::json;
use crate::json::{parse_list, render_list};
use crate::text::same;

verus! {

/// A frozen pane.
#[derive(Debug)]
pub struct FrozenEntry {
    pub workspace_id: String,
    pub tab_id: String,
    pub pane_id: String,
    /// The processes that the suspended tree grows from.
    pub roots: Vec<u32>,
    /// The process group in the foreground.
    pub pgid: Option<u32>,
    /// What the pane was called before; nothing where it had no name.
    pub orig_label: Option<String>,
}

pub struct FrozenView {
    pub workspace_id: Seq<char>,
    pub tab_id: Seq<char>,
    pub pane_id: Seq<char>,
    pub roots: Seq<u32>,
    pub pgid: Option<u32>,
    pub orig_label: Option<Seq<char>>,
}

impl View for FrozenEntry {
    type V = FrozenView;

    open spec fn view(&self) -> FrozenView {
        FrozenView {
            workspace_id: self.workspace_id@,
            tab_id: self.tab_id@,
            pane_id: self.pane_id@,
            roots: self.roots@,
            pgid: self.pgid,
            orig_label: self.orig_label.deep_view(),
        }
    }
}

impl DeepView for FrozenEntry {
    type V = FrozenView;

    open spec fn deep_view(&self) -> FrozenView {
        self@
    }
}

impl Clone for FrozenEntry {
    fn clone(&self) -> (r: Self)
        ensures
            r@ == self@,
    {
        FrozenEntry {
            workspace_id: self.workspace_id.clone(),
            tab_id: self.tab_id.clone(),
            pane_id: self.pane_id.clone(),
            roots: copy_pids(&self.roots),
            pgid: self.pgid,
            orig_label: copy_label(&self.orig_label),
        }
    }
}

/// A copy of a name that may be missing.
pub fn copy_label(label: &Option<String>) -> (r: Option<String>)
    ensures
        r.deep_view() == label.deep_view(),
{
    match label {
        Some(text) => Some(text.clone()),
        None => None,
    }
}

impl FrozenView {
    /// What was suspended with the pane.
    pub open spec fn target(self) -> FreezeTargetView {
        FreezeTargetView { roots: self.roots, pgid: self.pgid }
    }
}

impl FrozenEntry {
    /// What was suspended with the pane.
    pub fn target(&self) -> (r: FreezeTarget)
        ensures
            r@ == self@.target(),
    {
        FreezeTarget { roots: copy_pids(&self.roots), pgid: self.pgid }
    }
}

// =============================== places ===============================

/// The directory that holds the files: a child of a base directory, or the base itself.
#[derive(Debug)]
pub struct StateDir {
    pub base: String,
    pub child: Option<String>,
}

/// The directory that Herdr names for the plugin; otherwise one inside the
/// plugin's root, or inside the current directory where no root is known.
pub fn state_dir(named: Option<String>, plugin_root: Option<String>) -> (r: StateDir)
    ensures
        r.base@ == (match (named, plugin_root) {
            (Some(dir), _) => dir@,
            (None, Some(root)) => root@,
            (None, None) => "."@,
        }),
        r.child.deep_view() == (match named {
            Some(_) => None,
            None => Some(".herdr-freeze-state"@),
        }),
{
    match named {
        Some(dir) => StateDir { base: dir, child: None },
        None => {
            let base = match plugin_root {
                Some(root) => root,
                None => ".".to_owned(),
            };
            StateDir { base, child: Some(".herdr-freeze-state".to_owned()) }
        },
    }
}

/// The file that holds the frozen panes.
pub fn frozen_path() -> (r: String)
    ensures
        r@ == "frozen.json"@,
{
    "frozen.json".to_owned()
}

/// The file that holds the tabs to thaw.
pub fn thaw_path() -> (r: String)
    ensures
        r@ == "thaw_requests.json"@,
{
    "thaw_requests.json".to_owned()
}

/// The file that holds the tabs to freeze at once.
pub fn freeze_now_path() -> (r: String)
    ensures
        r@ == "freeze_now_requests.json"@,
{
    "freeze_now_requests.json".to_owned()
}

// =============================== requests ===============================

/// The requests in a file: none where it cannot be read or makes no sense.
pub open spec fn requests_in(file: Option<Seq<char>>) -> Seq<Seq<char>> {
    match file {
        Some(text) => match json::list_parsed(text) {
            Some(list) => list,
            None => Seq::empty(),
        },
        None => Seq::empty(),
    }
}

/// Requests with one more tab, which is there once however often it is asked for.
pub open spec fn with_request(list: Seq<Seq<char>>, tab_id: Seq<char>) -> Seq<Seq<char>> {
    if list.contains(tab_id) {
        list
    } else {
        list.push(tab_id)
    }
}

/// The file that holds requests.
pub open spec fn requests_text(list: Seq<Seq<char>>) -> Seq<char> {
    match json::list_rendered(list) {
        Some(text) => text,
        None => "[]"@,
    }
}

/// Adds a tab to a list of requests.
pub fn add_request(list: Vec<String>, tab_id: &str) -> (r: Vec<String>)
    ensures
        r.deep_view() == with_request(list.deep_view(), tab_id@),
{
    let mut out = list;
    let mut i: usize = 0;
    while i < out.len()
        invariant
            i <= out.len(),
            out == list,
            forall|k: int| 0 <= k < i ==> #[trigger] list.deep_view()[k] != tab_id@,
        decreases out.len() - i,
    {
        assert(list.deep_view()[i as int] == out@[i as int]@);
        if same(out[i].as_str(), tab_id) {
            return out;
        }
        i = i + 1;
    }
    push_text(&mut out, tab_id.to_owned());
    out
}

fn load_requests(file: Option<&str>) -> (r: Vec<String>)
    ensures
        r.deep_view() == requests_in(file.deep_view()),
        file.deep_view() == Some("[]"@) ==> r.deep_view() == Seq::<Seq<char>>::empty(),
{
    let none: Vec<String> = Vec::new();
    assert(none.deep_view() =~= Seq::<Seq<char>>::empty());
    match file {
        Some(text) => match parse_list(text) {
            Some(list) => list,
            None => none,
        },
        None => none,
    }
}

fn push_request(file: Option<&str>, tab_id: &str) -> (r: String)
    ensures
        ({
            let before = requests_in(file.deep_view());
            let after = with_request(before, tab_id@);
            &&& r@ == requests_text(after)
            &&& requests_in(Some(r@)) == after
        }),
{
    let list = add_request(load_requests(file), tab_id);
    match render_list(&list) {
        Some(text) => text,
        None => "[]".to_owned(),
    }
}

/// The tabs that are to be thawed.
pub fn load_thaw_requests(file: Option<&str>) -> (r: Vec<String>)
    ensures
        r.deep_view() == requests_in(file.deep_view()),
{
    load_requests(file)
}

/// The file with one more tab that is to be thawed. It is read back as it was meant.
pub fn push_thaw_request(file: Option<&str>, tab_id: &str) -> (r: String)
    ensures
        ({
            let before = requests_in(file.deep_view());
            let after = with_request(before, tab_id@);
            &&& r@ == requests_text(after)
            &&& requests_in(Some(r@)) == after
        }),
{
    push_request(file, tab_id)
}

/// The tabs that are to be thawed, and the file without them. From that file
/// nothing is read.
pub fn drain_thaw_requests(file: Option<&str>) -> (r: (Vec<String>, String))
    ensures
        r.0.deep_view() == requests_in(file.deep_view()),
        r.1@ == "[]"@,
        file.deep_view() == Some("[]"@) ==> r.0.deep_view() == Seq::<Seq<char>>::empty(),
{
    (load_requests(file), "[]".to_owned())
}

/// The file with one more tab that is to be frozen at once. It is read back as it
/// was meant.
pub fn push_freeze_now_request(file: Option<&str>, tab_id: &str) -> (r: String)
    ensures
        ({
            let before = requests_in(file.deep_view());
            let after = with_request(before, tab_id@);
            &&& r@ == requests_text(after)
            &&& requests_in(Some(r@)) == after
        }),
{
    push_request(file, tab_id)
}

/// The tabs that are to be frozen at once, and the file without them. From that
/// file nothing is read.
pub fn drain_freeze_now_requests(file: Option<&str>) -> (r: (Vec<String>, String))
    ensures
        r.0.deep_view() == requests_in(file.deep_view()),
        r.1@ == "[]"@,
        file.deep_view() == Some("[]"@) ==> r.0.deep_view() == Seq::<Seq<char>>::empty(),
{
    (load_requests(file), "[]".to_owned())
}

/// To ask for a tab a second time changes nothing.
pub proof fn request_is_kept_once(list: Seq<Seq<char>>, tab_id: Seq<char>)
    ensures
        with_request(list, tab_id).contains(tab_id),
        with_request(with_request(list, tab_id), tab_id) == with_request(list, tab_id),
        list.no_duplicates() ==> with_request(list, tab_id).no_duplicates(),
        forall|other: Seq<char>|
            other != tab_id ==> (#[trigger] with_request(list, tab_id).contains(other)
                <==> list.contains(other)),
{
    if !list.contains(tab_id) {
        let more = list.push(tab_id);
        assert(more[list.len() as int] == tab_id);
        assert forall|other: Seq<char>| other != tab_id implies (#[trigger] more.contains(other)
            <==> list.contains(other)) by {
            if list.contains(other) {
                let i = choose|i: int| 0 <= i < list.len() && list[i] == other;
                assert(more[i] == other);
            }
        }
    }
}

/// A request is put behind those that are there already, which stay in their order.
pub proof fn requests_keep_their_order(list: Seq<Seq<char>>, tab_id: Seq<char>, i: int)
    requires
        0 <= i < list.len(),
    ensures
        with_request(list, tab_id)[i] == list[i],
        with_request(list, tab_id).len() <= list.len() + 1,
        list.contains(tab_id) ==> with_request(list, tab_id) == list,
        !list.contains(tab_id) ==> with_request(list, tab_id)[list.len() as int] == tab_id,
{
}

/// A file that is not there, or makes no sense, holds no requests; any other holds those
/// that it lists.
pub proof fn requests_are_those_listed(text: Seq<char>)
    ensures
        requests_in(None).len() == 0,
        json::list_parsed(text) is None ==> requests_in(Some(text)).len() == 0,
        json::list_parsed(text) is Some ==> Some(requests_in(Some(text))) == json::list_parsed(
            text,
        ),
{
}

} // verus!
