//! The presentational text the list is drawn from: the selection status line
//! and the choice of highlighted row. Positioning and drawing stay with the
//! host.

use crate::todo_input::SelectedTodo;
use vstd::prelude::*;
use vstd::string::StringExecFns;

verus! {

/// The decimal digit character for `d`.
pub open spec fn dec_digit(d: nat) -> char {
    if d == 0 {
        '0'
    } else if d == 1 {
        '1'
    } else if d == 2 {
        '2'
    } else if d == 3 {
        '3'
    } else if d == 4 {
        '4'
    } else if d == 5 {
        '5'
    } else if d == 6 {
        '6'
    } else if d == 7 {
        '7'
    } else if d == 8 {
        '8'
    } else {
        '9'
    }
}

/// The decimal digits of `n`, most significant first, without leading zeros
/// (a single `0` for zero).
pub open spec fn dec_chars_of(n: nat) -> Seq<char>
    decreases n,
{
    if n < 10 {
        seq![dec_digit(n)]
    } else {
        dec_chars_of(n / 10).push(dec_digit(n % 10))
    }
}

/// The one-character string for a decimal digit.
fn dec_digit_str(d: usize) -> (r: &'static str)
    requires
        d < 10,
    ensures
        r@ == seq![dec_digit(d as nat)],
{
    proof {
        reveal_strlit("0");
        reveal_strlit("1");
        reveal_strlit("2");
        reveal_strlit("3");
        reveal_strlit("4");
        reveal_strlit("5");
        reveal_strlit("6");
        reveal_strlit("7");
        reveal_strlit("8");
        reveal_strlit("9");
    }
    let r = if d == 0 {
        "0"
    } else if d == 1 {
        "1"
    } else if d == 2 {
        "2"
    } else if d == 3 {
        "3"
    } else if d == 4 {
        "4"
    } else if d == 5 {
        "5"
    } else if d == 6 {
        "6"
    } else if d == 7 {
        "7"
    } else if d == 8 {
        "8"
    } else {
        "9"
    };
    proof {
        assert(r@ =~= seq![dec_digit(d as nat)]);
    }
    r
}

/// Render an index in decimal.
pub fn usize_to_string(n: usize) -> (r: String)
    ensures
        r@ == dec_chars_of(n as nat),
    decreases n,
{
    if n < 10 {
        String::from_str(dec_digit_str(n))
    } else {
        let mut s = usize_to_string(n / 10);
        s.append(dec_digit_str(n % 10));
        proof {
            assert(s@ =~= dec_chars_of(n as nat / 10).push(dec_digit(n as nat % 10)));
        }
        s
    }
}

/// The status line: `Selected: <idx>` for a selected row, `Selected: None`
/// otherwise.
pub open spec fn selected_label_of(sel: Option<usize>) -> Seq<char> {
    match sel {
        Some(i) => "Selected: "@ + dec_chars_of(i as nat),
        None => "Selected: None"@,
    }
}

/// Render the status line for the current selection.
pub fn selected_label(selected: &SelectedTodo) -> (r: String)
    ensures
        r@ == selected_label_of(selected.0),
{
    match selected.0 {
        Some(idx) => {
            let mut s = String::from_str("Selected: ");
            let num = usize_to_string(idx);
            s.append(num.as_str());
            s
        },
        None => String::from_str("Selected: None"),
    }
}

/// Whether row `i` is the one drawn highlighted.
pub fn row_is_selected(i: usize, selected: &SelectedTodo) -> (r: bool)
    ensures
        r == (selected.0 == Some(i)),
{
    match selected.0 {
        Some(x) => i == x,
        None => false,
    }
}

} // verus!
