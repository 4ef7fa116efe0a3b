//! Lines of text inside a frame, for the terminal.

use vstd::prelude::*;
use vstd::string::*;

verus! {

/// `n` times the character `c`.
pub open spec fn repeated(c: char, n: nat) -> Seq<char> {
    Seq::new(n, |i: int| c)
}

/// The length of the longest of the lines, in characters; 0 where there is
/// no line.
pub open spec fn longest_line(lines: Seq<Seq<char>>) -> nat
    decreases lines.len(),
{
    if lines.len() == 0 {
        0
    } else if longest_line(lines.drop_last()) >= lines.last().len() {
        longest_line(lines.drop_last())
    } else {
        lines.last().len()
    }
}

/// The length of the longest line of all the boxes.
pub open spec fn longest_of_boxes(boxes: Seq<Seq<Seq<char>>>) -> nat
    decreases boxes.len(),
{
    if boxes.len() == 0 {
        0
    } else if longest_of_boxes(boxes.drop_last()) >= longest_line(boxes.last()) {
        longest_of_boxes(boxes.drop_last())
    } else {
        longest_line(boxes.last())
    }
}

/// A line of the frame: a corner, `width` strokes, a corner.
pub open spec fn frame_line(left: char, right: char, width: nat) -> Seq<char> {
    seq![left] + repeated('─', width) + seq![right]
}

/// A line of text in the frame: the side, the padding, the text, blanks up
/// to the longest line, the padding, the side.
pub open spec fn text_line(text: Seq<char>, longest: nat, pad: nat) -> Seq<char> {
    seq!['│'] + repeated(' ', pad) + text + repeated(' ', (longest - text.len()) as nat) + repeated(' ', pad)
        + seq!['│']
}

/// The lines of text of one box.
pub open spec fn text_lines(lines: Seq<Seq<char>>, longest: nat, pad: nat) -> Seq<Seq<char>> {
    Seq::new(lines.len(), |i: int| text_line(lines[i], longest, pad))
}

/// The lines in a frame: the top, one line for each text, the bottom.
pub open spec fn boxed_lines(lines: Seq<Seq<char>>, pad: nat) -> Seq<Seq<char>> {
    let longest = longest_line(lines);
    seq![frame_line('╭', '╮', longest + 2 * pad)] + text_lines(lines, longest, pad) + seq![
        frame_line('╰', '╯', longest + 2 * pad),
    ]
}

/// The lines of the boxes, with a dividing line between one box and the
/// next.
pub open spec fn box_rows(boxes: Seq<Seq<Seq<char>>>, longest: nat, pad: nat) -> Seq<Seq<char>>
    decreases boxes.len(),
{
    if boxes.len() == 0 {
        Seq::empty()
    } else if boxes.len() == 1 {
        text_lines(boxes[0], longest, pad)
    } else {
        box_rows(boxes.drop_last(), longest, pad) + seq![frame_line('├', '┤', longest + 2 * pad)] + text_lines(
            boxes.last(),
            longest,
            pad,
        )
    }
}

/// The boxes in one frame: the top, the boxes with their dividing lines, the
/// bottom.
pub open spec fn list_lines(boxes: Seq<Seq<Seq<char>>>, pad: nat) -> Seq<Seq<char>> {
    let longest = longest_of_boxes(boxes);
    seq![frame_line('╭', '╮', longest + 2 * pad)] + box_rows(boxes, longest, pad) + seq![
        frame_line('╰', '╯', longest + 2 * pad),
    ]
}

/// The views of a list of texts.
pub open spec fn line_views(lines: Seq<String>) -> Seq<Seq<char>> {
    Seq::new(lines.len(), |i: int| lines[i]@)
}

/// The views of a list of lists of texts.
pub open spec fn box_views(boxes: Seq<Vec<String>>) -> Seq<Seq<Seq<char>>> {
    Seq::new(boxes.len(), |i: int| line_views(boxes[i]@))
}

/// Where no line is longer than `bound`, the longest is not.
pub proof fn lemma_longest_line_at_most(lines: Seq<Seq<char>>, bound: nat)
    requires
        forall|i: int| 0 <= i < lines.len() ==> (#[trigger] lines[i]).len() <= bound,
    ensures
        longest_line(lines) <= bound,
    decreases lines.len(),
{
    if lines.len() > 0 {
        assert forall|i: int| 0 <= i < lines.drop_last().len() implies (#[trigger] lines.drop_last()[i]).len()
            <= bound by {
            assert(lines.drop_last()[i] == lines[i]);
        }
        lemma_longest_line_at_most(lines.drop_last(), bound);
    }
}

/// Where no line of any box is longer than `bound`, the longest is not.
pub proof fn lemma_longest_of_boxes_at_most(boxes: Seq<Seq<Seq<char>>>, bound: nat)
    requires
        forall|i: int| 0 <= i < boxes.len() ==> longest_line(#[trigger] boxes[i]) <= bound,
    ensures
        longest_of_boxes(boxes) <= bound,
    decreases boxes.len(),
{
    if boxes.len() > 0 {
        assert forall|i: int| 0 <= i < boxes.drop_last().len() implies longest_line(
            #[trigger] boxes.drop_last()[i],
        ) <= bound by {
            assert(boxes.drop_last()[i] == boxes[i]);
        }
        lemma_longest_of_boxes_at_most(boxes.drop_last(), bound);
    }
}

proof fn lemma_longest_line_bounds(lines: Seq<Seq<char>>, i: int)
    requires
        0 <= i < lines.len(),
    ensures
        lines[i].len() <= longest_line(lines),
    decreases lines.len(),
{
    if i < lines.len() - 1 {
        lemma_longest_line_bounds(lines.drop_last(), i);
    }
}

proof fn lemma_longest_of_boxes_bounds(boxes: Seq<Seq<Seq<char>>>, i: int)
    requires
        0 <= i < boxes.len(),
    ensures
        longest_line(boxes[i]) <= longest_of_boxes(boxes),
    decreases boxes.len(),
{
    if i < boxes.len() - 1 {
        lemma_longest_of_boxes_bounds(boxes.drop_last(), i);
    }
}

/// `n` times the one character of `unit`.
pub fn repeat(unit: &str, n: usize) -> (r: String)
    requires
        unit@.len() == 1,
    ensures
        r@ == repeated(unit@[0], n as nat),
{
    let mut r = String::new();
    let mut i: usize = 0;
    while i < n
        invariant
            0 <= i <= n,
            unit@.len() == 1,
            r@ == repeated(unit@[0], i as nat),
        decreases n - i,
    {
        r.append(unit);
        assert(r@ =~= repeated(unit@[0], (i + 1) as nat));
        i += 1;
    }
    r
}

/// The length of the longest of the lines, in characters.
fn longest(lines: &Vec<String>) -> (n: usize)
    ensures
        n == longest_line(line_views(lines@)),
{
    let mut n: usize = 0;
    let mut i: usize = 0;
    while i < lines.len()
        invariant
            0 <= i <= lines.len(),
            n == longest_line(line_views(lines@).take(i as int)),
        decreases lines.len() - i,
    {
        let len = lines[i].as_str().unicode_len();
        proof {
            let views = line_views(lines@);
            assert(views.take(i + 1).drop_last() =~= views.take(i as int));
            assert(views.take(i + 1).last() == lines@[i as int]@);
        }
        if len > n {
            n = len;
        }
        i += 1;
    }
    proof {
        assert(line_views(lines@).take(lines@.len() as int) =~= line_views(lines@));
    }
    n
}

fn frame(left: &str, right: &str, width: usize) -> (r: String)
    requires
        left@.len() == 1,
        right@.len() == 1,
    ensures
        r@ == frame_line(left@[0], right@[0], width as nat),
{
    proof {
        reveal_strlit("─");
    }
    let mut r = left.to_owned();
    let strokes = repeat("─", width);
    r.append(strokes.as_str());
    r.append(right);
    assert(r@ =~= frame_line(left@[0], right@[0], width as nat));
    r
}

fn line(text: &String, longest: usize, pad: usize) -> (r: String)
    requires
        text@.len() <= longest,
    ensures
        r@ == text_line(text@, longest as nat, pad as nat),
{
    proof {
        reveal_strlit("│");
        reveal_strlit(" ");
    }
    let chars = text.as_str().unicode_len();
    let suffix = repeat(" ", longest - chars);
    let space = repeat(" ", pad);
    let mut r = "│".to_owned();
    r.append(space.as_str());
    r.append(text.as_str());
    r.append(suffix.as_str());
    r.append(space.as_str());
    r.append("│");
    assert(r@ =~= text_line(text@, longest as nat, pad as nat));
    r
}

/// Adds the lines of text of one box to `out`.
fn push_lines(out: &mut Vec<String>, lines: &Vec<String>, longest: usize, pad: usize)
    requires
        longest_line(line_views(lines@)) <= longest,
    ensures
        line_views(final(out)@) == line_views(old(out)@) + text_lines(
            line_views(lines@),
            longest as nat,
            pad as nat,
        ),
{
    let ghost start = line_views(out@);
    let ghost views = line_views(lines@);
    let mut i: usize = 0;
    while i < lines.len()
        invariant
            0 <= i <= lines.len(),
            views == line_views(lines@),
            longest_line(views) <= longest,
            line_views(out@) == start + text_lines(views, longest as nat, pad as nat).take(i as int),
        decreases lines.len() - i,
    {
        proof {
            lemma_longest_line_bounds(views, i as int);
        }
        let row = line(&lines[i], longest, pad);
        proof {
            let all = text_lines(views, longest as nat, pad as nat);
            assert(all.take(i + 1) =~= all.take(i as int).push(all[i as int]));
            assert(line_views(out@.push(row)) =~= line_views(out@).push(row@));
        }
        out.push(row);
        i += 1;
    }
    proof {
        let all = text_lines(views, longest as nat, pad as nat);
        assert(all.take(lines@.len() as int) =~= all);
    }
}

/// The lines in a frame: the top, one line for each text, padded on both
/// sides by `pad` blanks and filled up to the longest line, and the bottom.
pub fn boxed(strs: &Vec<String>, pad: usize) -> (lines: Vec<String>)
    requires
        longest_line(line_views(strs@)) + 2 * pad <= usize::MAX,
    ensures
        line_views(lines@) == boxed_lines(line_views(strs@), pad as nat),
{
    proof {
        reveal_strlit("╭");
        reveal_strlit("╮");
        reveal_strlit("╰");
        reveal_strlit("╯");
    }
    let longest_line = longest(strs);
    let width = longest_line + 2 * pad;
    let mut lines: Vec<String> = Vec::new();
    let top = frame("╭", "╮", width);
    proof {
        assert(line_views(lines@.push(top)) =~= seq![top@]);
    }
    lines.push(top);
    push_lines(&mut lines, strs, longest_line, pad);
    let bottom = frame("╰", "╯", width);
    proof {
        assert(line_views(lines@.push(bottom)) =~= line_views(lines@).push(bottom@));
    }
    lines.push(bottom);
    proof {
        assert(line_views(lines@) =~= boxed_lines(line_views(strs@), pad as nat));
    }
    lines
}

/// The length of the longest line of all the boxes.
fn longest_of(boxes: &Vec<Vec<String>>) -> (n: usize)
    ensures
        n == longest_of_boxes(box_views(boxes@)),
{
    let mut n: usize = 0;
    let mut i: usize = 0;
    while i < boxes.len()
        invariant
            0 <= i <= boxes.len(),
            n == longest_of_boxes(box_views(boxes@).take(i as int)),
        decreases boxes.len() - i,
    {
        let len = longest(&boxes[i]);
        proof {
            let views = box_views(boxes@);
            assert(views.take(i + 1).drop_last() =~= views.take(i as int));
            assert(views.take(i + 1).last() == line_views(boxes@[i as int]@));
        }
        if len > n {
            n = len;
        }
        i += 1;
    }
    proof {
        assert(box_views(boxes@).take(boxes@.len() as int) =~= box_views(boxes@));
    }
    n
}

/// The boxes in one frame, one under the other, with a dividing line between
/// one box and the next; every line is filled up to the longest line of all
/// the boxes.
pub fn list_of_boxes(boxes: &Vec<Vec<String>>, pad: usize) -> (lines: Vec<String>)
    requires
        longest_of_boxes(box_views(boxes@)) + 2 * pad <= usize::MAX,
    ensures
        line_views(lines@) == list_lines(box_views(boxes@), pad as nat),
{
    proof {
        reveal_strlit("╭");
        reveal_strlit("╮");
        reveal_strlit("╰");
        reveal_strlit("╯");
        reveal_strlit("├");
        reveal_strlit("┤");
    }
    let longest_line = longest_of(boxes);
    let width = longest_line + 2 * pad;
    let ghost views = box_views(boxes@);
    let mut lines: Vec<String> = Vec::new();
    let top = frame("╭", "╮", width);
    proof {
        assert(line_views(lines@.push(top)) =~= seq![top@]);
    }
    lines.push(top);
    let mut i: usize = 0;
    while i < boxes.len()
        invariant
            0 <= i <= boxes.len(),
            views == box_views(boxes@),
            longest_line == longest_of_boxes(views),
            width == longest_line + 2 * pad,
            line_views(lines@) == seq![frame_line('╭', '╮', width as nat)] + box_rows(
                views.take(i as int),
                longest_line as nat,
                pad as nat,
            ),
        decreases boxes.len() - i,
    {
        let ghost head = seq![frame_line('╭', '╮', width as nat)];
        let ghost done = box_rows(views.take(i as int), longest_line as nat, pad as nat);
        let ghost these = text_lines(line_views(boxes@[i as int]@), longest_line as nat, pad as nat);
        proof {
            reveal_strlit("├");
            reveal_strlit("┤");
            lemma_longest_of_boxes_bounds(views, i as int);
            assert(views.take(i + 1).drop_last() =~= views.take(i as int));
            assert(views.take(i + 1).last() == line_views(boxes@[i as int]@));
            assert(views.take(i + 1)[0] == views[0]);
            assert(views[i as int] == line_views(boxes@[i as int]@));
        }
        if i > 0 {
            let divider = frame("├", "┤", width);
            proof {
                assert(line_views(lines@.push(divider)) =~= line_views(lines@).push(divider@));
            }
            lines.push(divider);
        }
        push_lines(&mut lines, &boxes[i], longest_line, pad);
        proof {
            let next = box_rows(views.take(i + 1), longest_line as nat, pad as nat);
            if i == 0 {
                assert(done =~= Seq::<Seq<char>>::empty());
                assert(next == these);
                assert(line_views(lines@) =~= head + next);
            } else {
                assert(next == done + seq![frame_line('├', '┤', width as nat)] + these);
                assert(line_views(lines@) =~= head + next);
            }
        }
        i += 1;
    }
    let bottom = frame("╰", "╯", width);
    proof {
        assert(views.take(boxes@.len() as int) =~= views);
        assert(line_views(lines@.push(bottom)) =~= line_views(lines@).push(bottom@));
    }
    lines.push(bottom);
    proof {
        assert(line_views(lines@) =~= list_lines(views, pad as nat));
    }
    lines
}

} // verus!
