//! The caption of an item: its description and the lines of its comments.

use crate::civil::CivilTime;
use crate::text::push_char;
use vstd::string::StringExecFns;
use vstd::prelude::*;

verus! {

/// A comment left on an item.
#[derive(Debug)]
pub struct Comment {
    pub timestamp: CivilTime,
    pub text: Option<String>,
    pub author: String,
}

/// The caption line of a comment with text `text`:
/// `"<text>" -<author> (<date> <time> <AM/PM>)`.
pub open spec fn comment_line(text: Seq<char>, author: Seq<char>, at: CivilTime) -> Seq<char> {
    seq!['"'] + text + seq!['"', ' ', '-'] + author + seq![' ', '('] + at.display_text() + seq![')']
}

/// One line per comment that has text, in order.
pub open spec fn comment_lines(cs: Seq<Comment>) -> Seq<Seq<char>>
    decreases cs.len(),
{
    if cs.len() == 0 {
        seq![]
    } else {
        let rest = comment_lines(cs.drop_last());
        match cs.last().text {
            Some(t) => rest.push(comment_line(t@, cs.last().author@, cs.last().timestamp)),
            None => rest,
        }
    }
}

/// The lines joined with a newline between each two.
pub open spec fn join_lines(ls: Seq<Seq<char>>) -> Seq<char>
    decreases ls.len(),
{
    if ls.len() == 0 {
        seq![]
    } else if ls.len() == 1 {
        ls[0]
    } else {
        join_lines(ls.drop_last()) + seq!['\n'] + ls.last()
    }
}

/// The description, if any, as the first line.
pub open spec fn description_lines(description: Option<String>) -> Seq<Seq<char>> {
    match description {
        Some(d) => seq![d@],
        None => seq![],
    }
}

/// The caption of an item: its description and the lines of its comments.
pub open spec fn combined(description: Option<String>, cs: Seq<Comment>) -> Seq<char> {
    join_lines(description_lines(description) + comment_lines(cs))
}

pub open spec fn comments_wf(cs: Seq<Comment>) -> bool {
    forall|i: int| 0 <= i < cs.len() ==> (#[trigger] cs[i]).timestamp.wf()
}

/// Appends `line` to `s`, which holds the join of `done`.
fn append_line(s: &mut String, line: &String, first: bool, Ghost(done): Ghost<Seq<Seq<char>>>)
    requires
        old(s)@ == join_lines(done),
        first == (done.len() == 0),
    ensures
        final(s)@ == join_lines(done.push(line@)),
{
    if !first {
        push_char(s, '\n');
    }
    s.append(line.as_str());
    assert(done.push(line@).drop_last() =~= done);
}

/// Merges an item's description and the texts of its comments into one
/// caption, one line each, in order; comments without text are left out.
pub fn combine(description: &Option<String>, comments: &Vec<Comment>) -> (r: String)
    requires
        comments_wf(comments@),
    ensures
        r@ == combined(*description, comments@),
{
    let mut s = String::new();
    let mut first = true;
    match description {
        Some(d) => {
            s.append(d.as_str());
            first = false;
        },
        None => {},
    }
    assert(s@ =~= join_lines(description_lines(*description) + comment_lines(comments@.take(0))));
    let mut i: usize = 0;
    while i < comments.len()
        invariant
            i <= comments@.len(),
            comments_wf(comments@),
            s@ == join_lines(description_lines(*description) + comment_lines(comments@.take(i as int))),
            first == ((description_lines(*description) + comment_lines(comments@.take(i as int))).len() == 0),
        decreases comments@.len() - i,
    {
        let c = &comments[i];
        let ghost done = description_lines(*description) + comment_lines(comments@.take(i as int));
        assert(comments@.take(i as int + 1).drop_last() =~= comments@.take(i as int));
        match &c.text {
            Some(t) => {
                let mut line = String::new();
                push_char(&mut line, '"');
                line.append(t.as_str());
                line.append("\" -");
                line.append(c.author.as_str());
                line.append(" (");
                let when = c.timestamp.display_string();
                line.append(when.as_str());
                push_char(&mut line, ')');
                proof {
                    reveal_strlit("\" -");
                    reveal_strlit(" (");
                }
                assert(line@ =~= comment_line(t@, c.author@, c.timestamp));
                append_line(&mut s, &line, first, Ghost(done));
                first = false;
                assert(done.push(line@) =~= description_lines(*description) + comment_lines(
                    comments@.take(i as int + 1),
                ));
            },
            None => {
                assert(done =~= description_lines(*description) + comment_lines(
                    comments@.take(i as int + 1),
                ));
            },
        }
        i = i + 1;
    }
    assert(comments@.take(comments@.len() as int) =~= comments@);
    s
}

} // verus!
