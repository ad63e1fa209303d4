//! The keyboard-driven selection and text-entry state machine: navigation
//! keys move the selection or request a deletion; in typing mode, key events
//! fill a text buffer until enter commits it as a new item.

use crate::todo::MutationRequest;
use crate::todo::Todo;
use vstd::prelude::*;
use vstd::string::StrSliceExecFns;
use vstd::string::StringExecFns;

verus! {

/// The currently highlighted row of the list, if any.
pub struct SelectedTodo(pub Option<usize>);

/// Free-text entry state: while `typing` is true, key events fill `text` and
/// every navigation key is suppressed.
pub struct TodoInputState {
    pub typing: bool,
    pub text: String,
}

/// The navigation-mode keys: start text entry, delete the selected item,
/// move the selection down or up.
pub enum NavKey {
    Add,
    Delete,
    Down,
    Up,
}

/// The logical keys observed while typing. A `Character` key carries the
/// text it produces, which may be more than one character.
pub enum TypedKey {
    Enter,
    Backspace,
    Space,
    Character(String),
    Other,
}

/// Whether a key event is a press or a release; releases are discarded.
pub enum KeyState {
    Pressed,
    Released,
}

/// The selection invariant: on an empty list there is no selection, and a
/// present selection is a valid index.
pub open spec fn selection_wf(sel: Option<usize>, len: nat) -> bool {
    match sel {
        Some(i) => i < len,
        None => true,
    }
}

/// Selection after pressing "down": first row when nothing was selected,
/// the next row otherwise, wrapping past the end; no selection on an empty
/// list.
pub open spec fn nav_down_of(sel: Option<usize>, len: usize) -> Option<usize> {
    if len == 0 {
        None
    } else {
        match sel {
            None => Some(0usize),
            Some(i) => if i + 1 >= len {
                Some(0usize)
            } else {
                Some((i + 1) as usize)
            },
        }
    }
}

/// Selection after pressing "up": last row when nothing was selected, the
/// previous row otherwise, wrapping past the start; no selection on an empty
/// list.
pub open spec fn nav_up_of(sel: Option<usize>, len: usize) -> Option<usize> {
    if len == 0 {
        None
    } else {
        match sel {
            None => Some((len - 1) as usize),
            Some(i) => if i == 0 {
                Some((len - 1) as usize)
            } else {
                Some((i - 1) as usize)
            },
        }
    }
}

/// Selection after deleting the selected row, adjusted in the same step as
/// the removal request: deleting the last valid index moves the selection to
/// the previous row (or clears it from row zero); deleting any other row
/// leaves the selection index unchanged.
pub open spec fn delete_sel_of(sel: Option<usize>, len: usize) -> Option<usize> {
    match sel {
        None => None,
        Some(i) => if i >= len - 1 {
            if i == 0 {
                None
            } else {
                Some((i - 1) as usize)
            }
        } else {
            Some(i)
        },
    }
}

/// Handle one navigation-mode key press against a list of `todos_len` items.
/// While typing, every such key is ignored. The returned request, if any, is
/// the removal the store is asked to apply in the same cycle.
pub fn handle_nav_key(
    key: NavKey,
    todos_len: usize,
    selected: &mut SelectedTodo,
    input: &mut TodoInputState,
) -> (req: Option<MutationRequest>)
    requires
        selection_wf(old(selected).0, todos_len as nat),
    ensures
        final (input).text@ == old(input).text@,
        final (input).typing == (old(input).typing || (!old(input).typing && key is Add)),
        old(input).typing ==> final (selected).0 == old(selected).0 && req is None,
        !old(input).typing ==> match key {
            NavKey::Add => final (selected).0 == old(selected).0 && req is None,
            NavKey::Delete => final (selected).0 == delete_sel_of(old(selected).0, todos_len)
                && req == (match old(selected).0 {
                Some(i) => Some(MutationRequest::Remove(i)),
                None => None::<MutationRequest>,
            }),
            NavKey::Down => final (selected).0 == nav_down_of(old(selected).0, todos_len)
                && req is None,
            NavKey::Up => final (selected).0 == nav_up_of(old(selected).0, todos_len)
                && req is None,
        },
        selection_wf(final (selected).0, todos_len as nat),
{
    if input.typing {
        return None;
    }
    match key {
        NavKey::Add => {
            input.typing = true;
            None
        },
        NavKey::Delete => {
            match selected.0 {
                Some(idx) => {
                    if idx >= todos_len - 1 {
                        if idx == 0 {
                            selected.0 = None;
                        } else {
                            selected.0 = Some(todos_len - 2);
                        }
                    }
                    Some(MutationRequest::Remove(idx))
                },
                None => None,
            }
        },
        NavKey::Down => {
            match selected.0 {
                Some(idx) => {
                    if todos_len < 1 {
                        selected.0 = None;
                    } else if todos_len <= idx + 1 {
                        selected.0 = Some(0);
                    } else {
                        selected.0 = Some(idx + 1);
                    }
                },
                None => {
                    if todos_len < 1 {
                        selected.0 = None;
                    } else {
                        selected.0 = Some(0);
                    }
                },
            }
            None
        },
        NavKey::Up => {
            match selected.0 {
                Some(idx) => {
                    if todos_len < 1 {
                        selected.0 = None;
                    } else if idx == 0 {
                        selected.0 = Some(todos_len - 1);
                    } else {
                        selected.0 = Some(idx - 1);
                    }
                },
                None => {
                    if todos_len < 1 {
                        selected.0 = None;
                    } else {
                        selected.0 = Some(todos_len - 1);
                    }
                },
            }
            None
        },
    }
}

/// A Unicode control character: the C0 range below space, delete, and the
/// C1 range.
pub open spec fn is_control_char(c: char) -> bool {
    (c as u32) < 32 || (127 <= c as u32 && c as u32 <= 159)
}

/// Whether any character of `s` is a control character.
pub open spec fn has_control_char(s: Seq<char>) -> bool {
    exists|i: int| 0 <= i < s.len() && is_control_char(s[i])
}

/// Scan a character key's text for control characters.
fn contains_control(s: &str) -> (r: bool)
    ensures
        r == has_control_char(s@),
{
    let n = s.unicode_len();
    let mut i: usize = 0;
    while i < n
        invariant
            i <= n,
            n == s@.len(),
            forall|j: int| 0 <= j < i ==> !is_control_char(s@[j]),
        decreases n - i,
    {
        let c = s.get_char(i);
        let v = c as u32;
        if v < 32 || (127 <= v && v <= 159) {
            return true;
        }
        i += 1;
    }
    false
}

/// The text buffer after one typed key: enter clears it, backspace drops the
/// last character (a no-op when empty), space appends a space, a character
/// key appends its text unless it holds a control character, and any other
/// key leaves it alone.
pub open spec fn typed_text_of(text: Seq<char>, key: TypedKey) -> Seq<char> {
    match key {
        TypedKey::Enter => Seq::empty(),
        TypedKey::Backspace => if text.len() == 0 {
            text
        } else {
            text.drop_last()
        },
        TypedKey::Space => text.push(' '),
        TypedKey::Character(s) => if has_control_char(s@) {
            text
        } else {
            text + s@
        },
        TypedKey::Other => text,
    }
}

/// Handle one key event while in typing mode. Outside typing mode, and for
/// key releases, nothing is observed. Enter commits the buffer: it queues an
/// add of a not-yet-completed item named by the accumulated text, clears the
/// buffer and leaves typing mode.
pub fn handle_typed_key(state: KeyState, key: TypedKey, input: &mut TodoInputState) -> (req:
    Option<MutationRequest>)
    ensures
        !(old(input).typing && state is Pressed) ==> final (input).typing == old(input).typing
            && final (input).text@ == old(input).text@ && req is None,
        (old(input).typing && state is Pressed) ==> {
            &&& final (input).text@ == typed_text_of(old(input).text@, key)
            &&& final (input).typing == !(key is Enter)
            &&& (key is Enter ==> (req matches Some(MutationRequest::Add(t)) && !t@.completed
                && t@.name == old(input).text@))
            &&& (!(key is Enter) ==> req is None)
        },
{
    if !input.typing {
        return None;
    }
    match state {
        KeyState::Released => None,
        KeyState::Pressed => {
            match key {
                TypedKey::Enter => {
                    let name = input.text.clone();
                    input.text = String::new();
                    input.typing = false;
                    Some(MutationRequest::Add(Todo::new(false, name)))
                },
                TypedKey::Backspace => {
                    let n = input.text.as_str().unicode_len();
                    if n > 0 {
                        let shorter = String::from_str(
                            input.text.as_str().substring_char(0, n - 1),
                        );
                        input.text = shorter;
                        proof {
                            assert(final (input).text@ =~= old(input).text@.drop_last());
                        }
                    }
                    None
                },
                TypedKey::Space => {
                    input.text.append(" ");
                    proof {
                        reveal_strlit(" ");
                        assert(final (input).text@ =~= old(input).text@.push(' '));
                    }
                    None
                },
                TypedKey::Character(s) => {
                    if !contains_control(s.as_str()) {
                        input.text.append(s.as_str());
                    }
                    None
                },
                TypedKey::Other => None,
            }
        },
    }
}

/// Law: the selection invariant survives every operation. Navigation keeps
/// the list as it is; a delete removes one item and adjusts the selection in
/// the same step; an add appends one item and leaves the selection alone.
pub proof fn lemma_selection_wf_preserved(sel: Option<usize>, len: usize)
    requires
        selection_wf(sel, len as nat),
    ensures
        selection_wf(nav_down_of(sel, len), len as nat),
        selection_wf(nav_up_of(sel, len), len as nat),
        sel is Some ==> len > 0 && selection_wf(delete_sel_of(sel, len), (len - 1) as nat),
        sel is None ==> delete_sel_of(sel, len) is None,
        selection_wf(sel, len as nat + 1),
{
}

} // verus!
