//! The mark on the names of frozen panes.

use vstd::prelude::*;
use vstd::string::*;

use crate::text;
use crate::text::{chars_of, space};

verus! {

/// The sign of a frozen pane.
pub open spec fn is_sign(c: char) -> bool {
    c == '\u{2744}'
}

/// A name without its leading signs, and without white space before, between and
/// right after them.
pub open spec fn unmarked(label: Seq<char>) -> Seq<char> {
    text::drop_while(label, |c: char| text::is_space(c) || is_sign(c))
}

/// A name with one sign in front.
pub open spec fn marked(clean: Seq<char>) -> Seq<char> {
    seq!['\u{2744}', ' '] + clean
}

/// A name that may be empty: no name then.
pub open spec fn name_or_none(clean: Seq<char>) -> Option<Seq<char>> {
    if clean.len() == 0 {
        None
    } else {
        Some(clean)
    }
}

/// The name without its mark, however often it was set. Herdr cuts white space off
/// the end of a name, so that the sign may stand there alone.
pub fn strip_freeze_marker(label: &str) -> (r: &str)
    ensures
        r@ == unmarked(label@),
{
    let chars = chars_of(label);
    let mut from: usize = 0;
    while from < chars.len() && (space(chars[from]) || chars[from] == '\u{2744}')
        invariant
            chars@ == label@,
            from <= chars.len(),
            forall|i: int|
                0 <= i < from ==> text::is_space(#[trigger] label@[i]) || is_sign(label@[i]),
        decreases chars.len() - from,
    {
        from = from + 1;
    }
    proof {
        text::lemma_drop_while(
            label@,
            |c: char| text::is_space(c) || is_sign(c),
            from as int,
        );
        assert(label@.skip(from as int) == label@.subrange(from as int, label@.len() as int));
    }
    label.substring_char(from, chars.len())
}

/// Sets the mark on a name that has none.
pub fn add_freeze_marker(clean: &str) -> (r: String)
    ensures
        r@ == marked(clean@),
{
    let mut out = String::new();
    out.push('\u{2744}');
    out.push(' ');
    out.append(clean);
    assert(out@ =~= marked(clean@));
    out
}

/// The name itself, or none where it is empty.
pub fn name_of(clean: &str) -> (r: Option<String>)
    ensures
        r.deep_view() == name_or_none(clean@),
{
    if clean.is_empty() {
        None
    } else {
        Some(clean.to_owned())
    }
}

/// A mark is taken off in full, whatever it was set on: a name that has lost its
/// mark has none, and one that had none is as it was before.
pub proof fn mark_comes_off(label: Seq<char>)
    ensures
        unmarked(unmarked(label)) == unmarked(label),
        unmarked(marked(unmarked(label))) == unmarked(label),
        unmarked(marked(label)) == unmarked(label),
{
    let p = |c: char| text::is_space(c) || is_sign(c);
    text::lemma_drop_while_stops(label, p);
    let clean = unmarked(label);
    assert(unmarked(clean) == clean);
    lemma_unmark_marked(clean);
    lemma_unmark_marked(label);
}

proof fn lemma_unmark_marked(label: Seq<char>)
    ensures
        unmarked(marked(label)) == unmarked(label),
{
    let p = |c: char| text::is_space(c) || is_sign(c);
    let m = marked(label);
    assert(p(m[0]) && p(m[1]));
    assert(m.drop_first().drop_first() == label);
    assert(text::drop_while(m, p) == text::drop_while(m.drop_first(), p));
    assert(text::drop_while(m.drop_first(), p) == text::drop_while(label, p));
}

/// A name loses the signs in front of it and the white space among them, and nothing of
/// itself.
pub proof fn unmarking_leaves_the_name(front: Seq<char>, name: Seq<char>)
    requires
        forall|i: int|
            0 <= i < front.len() ==> (#[trigger] front[i] == '\u{2744}' || text::is_space(
                front[i],
            )),
        name.len() > 0 ==> name[0] != '\u{2744}' && !text::is_space(name[0]),
    ensures
        unmarked(front + name) == name,
{
    let p = |c: char| text::is_space(c) || is_sign(c);
    let all = front + name;
    assert forall|i: int| 0 <= i < front.len() implies p(#[trigger] all[i]) by {
        assert(all[i] == front[i]);
    }
    assert(name.len() > 0 ==> all[front.len() as int] == name[0]);
    text::lemma_drop_while(all, p, front.len() as int);
    assert(all.skip(front.len() as int) =~= name);
}

/// A mark is a sign and a blank before the whole name.
pub proof fn mark_stands_before_the_name(name: Seq<char>)
    ensures
        marked(name).len() == name.len() + 2,
        marked(name)[0] == '\u{2744}',
        marked(name)[1] == ' ',
        marked(name).skip(2) == name,
        name.len() == 0 ==> name_or_none(name) is None,
        name.len() > 0 ==> name_or_none(name) == Some(name),
{
    assert(marked(name).skip(2) =~= name);
}

} // verus!
