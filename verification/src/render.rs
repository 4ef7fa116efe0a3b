//! How accounts and their credentials are shown.

use vstd::prelude::*;
use vstd::string::*;
use crate::account::{Account, AccountView, Group, account_views};
use crate::term_graphics::{
    repeated, repeat, line_views, box_views, list_lines, list_of_boxes, longest_line,
    lemma_longest_line_at_most, lemma_longest_of_boxes_at_most,
};

verus! {

/// The longest text that is shown in full, in characters.
pub const MAX_SHOWN: usize = 32;

/// A text cut to 32 characters: a text that is longer is shown as its first
/// 31 characters and an ellipsis.
pub open spec fn truncated(s: Seq<char>) -> Seq<char> {
    if s.len() > MAX_SHOWN {
        s.take(MAX_SHOWN - 1).push('⋯')
    } else {
        s
    }
}

/// The two lines of a credential. Where the password is not to be shown,
/// every character of it is replaced by a shade and both lines are cut.
pub open spec fn cred_lines(a: AccountView, show_pass: bool) -> Seq<Seq<char>> {
    if show_pass {
        seq!["user: "@ + a.username, "pass: "@ + a.password]
    } else {
        seq!["user: "@ + truncated(a.username), "pass: "@ + truncated(repeated('░', a.password.len()))]
    }
}

/// The boxes of the credentials of a group, with the passwords hidden.
pub open spec fn hidden_boxes(accounts: Seq<AccountView>) -> Seq<Seq<Seq<char>>> {
    Seq::new(accounts.len(), |i: int| cred_lines(accounts[i], false))
}

/// The lines of an account: its name, cut, and under it, where the
/// credentials are asked for and there are any, their boxes in one frame.
pub open spec fn account_lines(name: Seq<char>, accounts: Seq<AccountView>, all: bool) -> Seq<Seq<char>> {
    if all && accounts.len() > 0 {
        seq![truncated(name)] + list_lines(hidden_boxes(accounts), 1)
    } else {
        seq![truncated(name)]
    }
}

/// The text cut to 32 characters.
pub fn truncate(s: &str) -> (r: String)
    ensures
        r@ == truncated(s@),
        r@.len() <= MAX_SHOWN,
{
    if s.unicode_len() > MAX_SHOWN {
        proof {
            reveal_strlit("⋯");
        }
        let mut r = s.substring_char(0, MAX_SHOWN - 1).to_owned();
        r.append("⋯");
        assert(r@ =~= truncated(s@));
        r
    } else {
        s.to_owned()
    }
}

/// The two lines that show a credential.
pub fn format_cred(cred: &Account, show_pass: bool) -> (lines: Vec<String>)
    ensures
        line_views(lines@) == cred_lines(cred@, show_pass),
        !show_pass ==> longest_line(line_views(lines@)) <= MAX_SHOWN + 6,
{
    proof {
        reveal_strlit("░");
        reveal_strlit("user: ");
        reveal_strlit("pass: ");
    }
    let pass = if show_pass {
        cred.password.clone()
    } else {
        let shades = repeat("░", cred.password.as_str().unicode_len());
        truncate(shades.as_str())
    };
    let user = if !show_pass {
        truncate(cred.username.as_str())
    } else {
        cred.username.clone()
    };
    let mut user_line = "user: ".to_owned();
    user_line.append(user.as_str());
    let mut pass_line = "pass: ".to_owned();
    pass_line.append(pass.as_str());
    let mut lines: Vec<String> = Vec::new();
    lines.push(user_line);
    lines.push(pass_line);
    proof {
        assert(line_views(lines@) =~= cred_lines(cred@, show_pass));
        if !show_pass {
            let views = line_views(lines@);
            assert forall|i: int| 0 <= i < views.len() implies (#[trigger] views[i]).len() <= MAX_SHOWN + 6 by {
                assert(i == 0 || i == 1);
            }
            lemma_longest_line_at_most(views, (MAX_SHOWN + 6) as nat);
        }
    }
    lines
}

/// The lines that show an account of the given name.
pub fn format_account(name: &str, group: &Group, all: bool) -> (lines: Vec<String>)
    ensures
        line_views(lines@) == account_lines(name@, group@.accounts, all),
{
    let mut boxes: Vec<Vec<String>> = Vec::new();
    if all {
        let mut i: usize = 0;
        while i < group.accounts.len()
            invariant
                0 <= i <= group.accounts.len(),
                boxes@.len() == i,
                forall|j: int|
                    0 <= j < i ==> line_views((#[trigger] boxes@[j])@) == cred_lines(group.accounts@[j]@, false)
                        && longest_line(line_views(boxes@[j]@)) <= MAX_SHOWN + 6,
            decreases group.accounts.len() - i,
        {
            boxes.push(format_cred(&group.accounts[i], false));
            i += 1;
        }
    }
    let mut lines: Vec<String> = Vec::new();
    let title = truncate(name);
    proof {
        assert(line_views(lines@.push(title)) =~= seq![title@]);
    }
    lines.push(title);
    if boxes.len() > 0 {
        proof {
            let views = box_views(boxes@);
            assert forall|j: int| 0 <= j < views.len() implies longest_line(#[trigger] views[j]) <= MAX_SHOWN
                + 6 by {
                assert(views[j] == line_views(boxes@[j]@));
            }
            lemma_longest_of_boxes_at_most(views, (MAX_SHOWN + 6) as nat);
            assert(views =~= hidden_boxes(group@.accounts)) by {
                assert forall|j: int| 0 <= j < views.len() implies views[j] == hidden_boxes(group@.accounts)[j] by {
                    assert(views[j] == line_views(boxes@[j]@));
                    assert(account_views(group.accounts@)[j] == group.accounts@[j]@);
                }
            }
        }
        let framed = list_of_boxes(&boxes, 1);
        let ghost head = line_views(lines@);
        let mut k: usize = 0;
        while k < framed.len()
            invariant
                0 <= k <= framed.len(),
                line_views(lines@) == head + line_views(framed@).take(k as int),
            decreases framed.len() - k,
        {
            let row = framed[k].clone();
            proof {
                assert(line_views(lines@.push(row)) =~= line_views(lines@).push(row@));
                assert(line_views(framed@).take(k + 1) =~= line_views(framed@).take(k as int).push(framed@[k as int]@));
            }
            lines.push(row);
            k += 1;
        }
        proof {
            assert(line_views(framed@).take(framed@.len() as int) =~= line_views(framed@));
        }
    }
    lines
}

} // verus!
