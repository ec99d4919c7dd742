//! The spool file: violations that could not be sent, one to a line.

use vstd::prelude::*;
use vstd::string::StringExecFns;

verus! {

/// `String::push`. Claimed: the character is appended.
pub assume_specification[ String::push ](text: &mut String, c: char)
    ensures
        final(text)@ == old(text)@.push(c),
;

/// The characters of each text.
pub open spec fn texts(lines: Seq<String>) -> Seq<Seq<char>> {
    lines.map_values(|line: String| line@)
}

/// How far it is to the first line feed, or to the end.
pub open spec fn line_length(content: Seq<char>) -> int
    decreases content.len(),
{
    if content.len() == 0 || content[0] == '\n' {
        0
    } else {
        1 + line_length(content.drop_first())
    }
}

/// A line that ended in a line feed, without a carriage return before it.
pub open spec fn without_return(line: Seq<char>) -> Seq<char> {
    if line.len() > 0 && line.last() == '\r' {
        line.drop_last()
    } else {
        line
    }
}

/// One line, unless it is empty.
pub open spec fn unless_empty(line: Seq<char>) -> Seq<Seq<char>> {
    if line.len() > 0 {
        seq![line]
    } else {
        seq![]
    }
}

/// The lines of a text that are not empty. A line ends with a line feed, which a
/// carriage return may precede; the last one may end with the text.
pub open spec fn lines_in(content: Seq<char>) -> Seq<Seq<char>>
    decreases content.len(),
{
    let n = line_length(content);
    if n < 0 || n >= content.len() {
        unless_empty(content)
    } else {
        unless_empty(without_return(content.take(n))) + lines_in(content.skip(n + 1))
    }
}

/// A text of lines, each with its line feed.
pub open spec fn spill_text(lines: Seq<Seq<char>>) -> Seq<char>
    decreases lines.len(),
{
    if lines.len() == 0 {
        seq![]
    } else {
        spill_text(lines.drop_last()) + lines.last().push('\n')
    }
}

/// Whether a line is read back as it was written.
pub open spec fn clean(line: Seq<char>) -> bool {
    &&& line.len() > 0
    &&& !line.contains('\n')
    &&& line.last() != '\r'
}

/// A first part without a line feed belongs to the first line.
proof fn lemma_within_line(first: Seq<char>, rest: Seq<char>)
    requires
        !first.contains('\n'),
    ensures
        line_length(first + rest) == first.len() + line_length(rest),
    decreases first.len(),
{
    if first.len() == 0 {
        assert(first + rest =~= rest);
    } else {
        assert(first[0] != '\n');
        assert forall|c: char| first.drop_first().contains(c) implies first.contains(c) by {
            let i = choose|i: int| 0 <= i < first.drop_first().len() && first.drop_first()[i] == c;
            assert(first[i + 1] == c);
        }
        lemma_within_line(first.drop_first(), rest);
        assert((first + rest).drop_first() =~= first.drop_first() + rest);
    }
}

/// The lines of a text that starts with a whole line.
proof fn lemma_first_line(first: Seq<char>, rest: Seq<char>)
    requires
        !first.contains('\n'),
    ensures
        lines_in(first.push('\n') + rest) == unless_empty(without_return(first)) + lines_in(rest),
{
    let content = first.push('\n') + rest;
    let tail = seq!['\n'] + rest;
    assert(content =~= first + tail);
    lemma_within_line(first, tail);
    assert(content.take(first.len() as int) =~= first);
    assert(content.skip(first.len() as int + 1) =~= rest);
}

/// The lines of a text without a line feed.
proof fn lemma_last_line(content: Seq<char>)
    requires
        !content.contains('\n'),
    ensures
        lines_in(content) == unless_empty(content),
{
    lemma_within_line(content, seq![]);
    assert(content + Seq::<char>::empty() =~= content);
}

/// Splits the spool's content into its lines.
pub fn spilled_lines(content: &str) -> (r: Vec<String>)
    ensures
        texts(r@) == lines_in(content@),
{
    let mut lines: Vec<String> = Vec::new();
    let mut line: String = String::new();
    // A carriage return that may belong to the line's end is held back.
    let mut held: bool = false;
    let ghost mut current: Seq<char> = seq![];
    proof {
        assert(current + content@.skip(0) =~= content@);
        assert(texts(lines@) + lines_in(content@) =~= lines_in(content@));
    }
    for c in it: content.chars()
        invariant
            it.seq() == content@,
            current == if held {
                line@.push('\r')
            } else {
                line@
            },
            !held ==> (line@.len() == 0 || line@.last() != '\r'),
            !current.contains('\n'),
            texts(lines@) + lines_in(current + content@.skip(it.index() as int)) == lines_in(
                content@,
            ),
    {
        let ghost rest = content@.skip(it.index() as int);
        let ghost after = content@.skip(it.index() + 1);
        let ghost before = current;
        let ghost found = texts(lines@);
        proof {
            assert(rest.len() > 0 && rest[0] == c);
            assert(rest =~= seq![c] + after);
        }
        if c == '\n' {
            proof {
                assert(before + rest =~= before.push('\n') + after);
                lemma_first_line(before, after);
                assert(without_return(before) =~= line@);
                current = seq![];
                assert(current + after =~= after);
            }
            let done: String = line;
            line = String::new();
            held = false;
            if !done.as_str().is_empty() {
                lines.push(done);
            }
            proof {
                assert(texts(lines@) =~= found + unless_empty(without_return(before)));
                assert(found + (unless_empty(without_return(before)) + lines_in(after))
                    =~= texts(lines@) + lines_in(after));
            }
        } else {
            if held {
                line.push('\r');
            }
            if c == '\r' {
                held = true;
            } else {
                held = false;
                line.push(c);
            }
            proof {
                current = before.push(c);
                assert(before + rest =~= current + after);
                assert forall|i: int| 0 <= i < current.len() implies current[i] != '\n' by {
                    if i < before.len() {
                        assert(before.contains(before[i]));
                    }
                }
            }
        }
    }
    proof {
        assert(current + content@.skip(content@.len() as int) =~= current);
        lemma_last_line(current);
    }
    let ghost found = texts(lines@);
    if held {
        line.push('\r');
    }
    if !line.as_str().is_empty() {
        lines.push(line);
    }
    proof {
        assert(texts(lines@) =~= found + unless_empty(current));
    }
    lines
}

/// The text that keeps the lines from `from` on.
pub fn remainder(lines: &Vec<String>, from: usize) -> (r: String)
    requires
        from <= lines@.len(),
    ensures
        r@ == spill_text(texts(lines@).skip(from as int)),
{
    let mut text: String = String::new();
    let mut i: usize = from;
    let ghost kept = texts(lines@).skip(from as int);
    while i < lines.len()
        invariant
            from <= i <= lines@.len(),
            kept == texts(lines@).skip(from as int),
            text@ == spill_text(kept.take(i - from)),
        decreases lines@.len() - i,
    {
        text.append(lines[i].as_str());
        text.push('\n');
        proof {
            let longer = kept.take(i + 1 - from);
            assert(longer.drop_last() =~= kept.take(i - from));
            assert(longer.last() == lines@[i as int]@);
            assert(text@ =~= spill_text(longer));
        }
        i = i + 1;
    }
    proof {
        assert(kept.take(i - from) =~= kept);
    }
    text
}

/// The text that one more violation appends.
pub fn spill_line(payload: &str) -> (r: String)
    ensures
        r@ == payload@.push('\n'),
        forall|lines: Seq<Seq<char>>| #[trigger]
            spill_text(lines.push(payload@)) == spill_text(lines) + r@,
{
    let mut text: String = payload.to_owned();
    text.push('\n');
    proof {
        assert forall|lines: Seq<Seq<char>>| #[trigger]
            spill_text(lines.push(payload@)) == spill_text(lines) + text@ by {
            assert(lines.push(payload@).drop_last() =~= lines);
        }
    }
    text
}

/// What was spilled is read back, line for line and in order.
pub proof fn law_spilled_lines_read_back(lines: Seq<Seq<char>>)
    requires
        forall|i: int| 0 <= i < lines.len() ==> clean(#[trigger] lines[i]),
    ensures
        lines_in(spill_text(lines)) == lines,
{
    lemma_read_back(lines, seq![]);
    assert(spill_text(lines) + Seq::<char>::empty() =~= spill_text(lines));
    lemma_last_line(seq![]);
    assert(lines + lines_in(seq![]) =~= lines);
}

proof fn lemma_read_back(lines: Seq<Seq<char>>, rest: Seq<char>)
    requires
        forall|i: int| 0 <= i < lines.len() ==> clean(#[trigger] lines[i]),
    ensures
        lines_in(spill_text(lines) + rest) == lines + lines_in(rest),
    decreases lines.len(),
{
    if lines.len() == 0 {
        assert(spill_text(lines) + rest =~= rest);
        assert(lines + lines_in(rest) =~= lines_in(rest));
    } else {
        let last = lines.last();
        let tail = last.push('\n') + rest;
        assert(clean(lines[lines.len() - 1]));
        lemma_read_back(lines.drop_last(), tail);
        assert(spill_text(lines) + rest =~= spill_text(lines.drop_last()) + tail);
        lemma_first_line(last, rest);
        assert(lines.drop_last() + (seq![last] + lines_in(rest)) =~= lines + lines_in(rest));
    }
}

/// No line is empty, and none spans two.
pub proof fn law_lines_are_lines(content: Seq<char>)
    ensures
        forall|i: int| 0 <= i < lines_in(content).len() ==> (#[trigger] lines_in(content)[i]).len()
            > 0 && !lines_in(content)[i].contains('\n'),
    decreases content.len(),
{
    let n = line_length(content);
    lemma_no_break_before(content);
    if n < content.len() {
        let first = without_return(content.take(n));
        let rest = lines_in(content.skip(n + 1));
        law_lines_are_lines(content.skip(n + 1));
        assert forall|i: int| 0 <= i < lines_in(content).len() implies (#[trigger] lines_in(
            content,
        )[i]).len() > 0 && !lines_in(content)[i].contains('\n') by {
            if i < unless_empty(first).len() {
                assert(lines_in(content)[i] == first);
                assert forall|j: int| 0 <= j < first.len() implies first[j] != '\n' by {
                    assert(content[j] != '\n');
                }
            } else {
                assert(lines_in(content)[i] == rest[i - unless_empty(first).len()]);
            }
        }
    }
}

proof fn lemma_no_break_before(content: Seq<char>)
    ensures
        0 <= line_length(content) <= content.len(),
        forall|i: int| 0 <= i < line_length(content) ==> content[i] != '\n',
    decreases content.len(),
{
    if content.len() > 0 && content[0] != '\n' {
        let rest = content.drop_first();
        lemma_no_break_before(rest);
        assert forall|i: int| 0 <= i < line_length(content) implies content[i] != '\n' by {
            if i > 0 {
                assert(rest[i - 1] != '\n');
            }
        }
    }
}

/// The texts of lines are theirs, one for each.
pub proof fn law_texts_are_those_of_the_lines(lines: Seq<String>, i: int)
    requires
        0 <= i < lines.len(),
    ensures
        texts(lines).len() == lines.len(),
        texts(lines)[i] == lines[i]@,
{
}

/// A text is read line by line. What stands before its first line feed is its first
/// line, without one carriage return at the end; an empty line is passed over; the
/// lines of the rest follow.
pub proof fn law_a_text_is_read_line_by_line(first: Seq<char>, rest: Seq<char>)
    requires
        !first.contains('\n'),
    ensures
        ({
            let line = if first.len() > 0 && first.last() == '\r' {
                first.drop_last()
            } else {
                first
            };
            lines_in(first + seq!['\n'] + rest) == if line.len() > 0 {
                seq![line] + lines_in(rest)
            } else {
                lines_in(rest)
            }
        }),
{
    lemma_first_line(first, rest);
    assert(first.push('\n') + rest =~= first + seq!['\n'] + rest);
    assert(Seq::<Seq<char>>::empty() + lines_in(rest) =~= lines_in(rest));
}

/// A text without a line feed is one line, or none where it is empty.
pub proof fn law_a_text_may_end_without_a_line_feed(content: Seq<char>)
    requires
        !content.contains('\n'),
    ensures
        content.len() > 0 ==> lines_in(content) == seq![content],
        content.len() == 0 ==> lines_in(content).len() == 0,
{
    lemma_last_line(content);
}

/// A spool grows by the line and a line feed for each violation.
pub proof fn law_a_spool_grows_line_by_line(lines: Seq<Seq<char>>, line: Seq<char>)
    ensures
        spill_text(seq![]).len() == 0,
        spill_text(lines.push(line)) == spill_text(lines) + line + seq!['\n'],
{
    assert(lines.push(line).drop_last() =~= lines);
    assert(spill_text(lines) + line.push('\n') =~= spill_text(lines) + line + seq!['\n']);
}

/// A line is clean where it is not empty, holds no line feed and ends in no carriage
/// return.
pub proof fn law_clean_lines(line: Seq<char>)
    ensures
        clean(line) <==> line.len() > 0 && line[line.len() - 1] != '\r' && forall|i: int|
            0 <= i < line.len() ==> line[i] != '\n',
{
    if line.len() > 0 {
        assert(line.contains('\n') <==> exists|i: int| 0 <= i < line.len() && line[i] == '\n');
    }
}

} // verus!
