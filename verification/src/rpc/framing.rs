//! The transport: one JSON text per line, each line ended by a newline.
use vstd::prelude::*;

use crate::json;
use crate::json::Json;
use crate::text;

verus! {

/// A character that ends lines.
pub open spec fn ends_line(c: char) -> bool {
    c == '\n' || c == '\r'
}

/// A line without the newlines and carriage returns at its end.
pub open spec fn line_body(buf: Seq<char>) -> Seq<char> {
    text::trimmed_end(buf, |c: char| ends_line(c))
}

/// What a line that was read holds, without its line end; `None` for a blank line,
/// which is skipped.
pub fn read_line(buf: &str) -> (r: Option<String>)
    ensures
        match r {
            Some(s) => s@ == line_body(buf@) && s@.len() > 0,
            None => line_body(buf@).len() == 0,
        },
{
    let v = text::chars_of(buf);
    let ghost ends = |c: char| ends_line(c);
    let mut k: usize = v.len();
    assert(buf@.take(k as int) =~= buf@);
    while k > 0 && (v[k - 1] == '\n' || v[k - 1] == '\r')
        invariant
            v@ == buf@,
            k <= v@.len(),
            ends == (|c: char| ends_line(c)),
            text::trimmed_end(buf@.take(k as int), ends) == text::trimmed_end(buf@, ends),
        decreases k,
    {
        assert(buf@.take(k as int).drop_last() =~= buf@.take(k - 1));
        k = k - 1;
    }
    if k == 0 {
        None
    } else {
        let s = text::string_of(&v, 0, k);
        assert(s@ =~= buf@.take(k as int));
        Some(s)
    }
}

/// The line that carries a text.
pub fn write_raw_line(line: &str) -> (r: String)
    ensures
        r@ == line@.push('\n'),
{
    let mut r = line.to_owned();
    r.push('\n');
    r
}

/// The line that carries a JSON value: what is read from it is the value.
pub fn write_line(value: &Json) -> (r: String)
    ensures
        r@ == json::json_text(value@).push('\n'),
        line_body(r@) == json::json_text(value@),
        line_body(r@).len() > 0,
        json::travels(value@) ==> json::reads_back(line_body(r@), value@),
{
    let text = json::render(value);
    proof {
        line_reads_back(text@);
    }
    write_raw_line(text.as_str())
}

/// Whether a line, whose end is gone already, is worth reading: it holds more than
/// white space.
pub fn has_content(line: &str) -> (r: bool)
    ensures
        r == (text::trimmed(line@).len() > 0),
{
    let t = text::trim(line);
    !t.as_str().is_empty()
}

/// A text without line ends comes back from its line as it was.
pub proof fn line_reads_back(line: Seq<char>)
    requires
        line.len() == 0 || !ends_line(line.last()),
    ensures
        line_body(line.push('\n')) == line,
{
    reveal_with_fuel(text::trimmed_end, 2);
    assert(line.push('\n').drop_last() =~= line);
}

/// The lines one after the other, as they stand in the stream.
pub open spec fn stream_of(lines: Seq<Seq<char>>) -> Seq<char>
    decreases lines.len(),
{
    if lines.len() == 0 {
        Seq::empty()
    } else {
        (stream_of(lines.drop_last()) + lines.last()).push('\n')
    }
}

/// Lines without newlines come apart again: cutting the stream at its newlines
/// gives the lines, in order, and nothing after the last one.
pub proof fn stream_comes_apart(lines: Seq<Seq<char>>)
    requires
        forall|i: int| 0 <= i < lines.len() ==> !(#[trigger] lines[i]).contains('\n'),
    ensures
        text::split_on(stream_of(lines), '\n') == lines.push(Seq::empty()),
    decreases lines.len(),
{
    let nothing = Seq::<char>::empty();
    if lines.len() == 0 {
        assert(text::split_on(nothing, '\n') =~= lines.push(nothing));
    } else {
        let before = lines.drop_last();
        let last = lines.last();
        assert(forall|i: int| 0 <= i < before.len() ==> before[i] == lines[i]);
        stream_comes_apart(before);
        assert(!last.contains('\n')) by {
            assert(lines[lines.len() - 1] == last);
        }
        let whole = stream_of(lines);
        let head = stream_of(before) + last;
        assert(whole.drop_last() =~= head);
        if before.len() == 0 {
            assert(head =~= last);
            text::split_without(last, '\n');
            assert(text::split_on(whole, '\n') =~= seq![last].push(nothing));
            assert(lines.push(nothing) =~= seq![last].push(nothing));
        } else {
            let stem = stream_of(before).drop_last();
            assert(stream_of(before) =~= stem.push('\n'));
            text::split_append(stem, '\n', last);
            assert(head =~= stem.push('\n') + last);
            let pieces = text::split_on(stem, '\n');
            assert(text::split_on(stream_of(before), '\n') == pieces.push(nothing));
            assert(pieces =~= before) by {
                assert(pieces.push(nothing).drop_last() =~= pieces);
                assert(before.push(nothing).drop_last() =~= before);
            }
            assert(text::split_on(head, '\n') == before.push(last));
            assert(before.push(last) =~= lines);
        }
    }
}

/// A line is read without its end, however many newlines and carriage returns that
/// has, and with everything before it; a line of these alone is blank.
pub proof fn lines_are_read_without_their_end(body: Seq<char>, end: Seq<char>)
    requires
        body.len() == 0 || (body.last() != '\n' && body.last() != '\r'),
        forall|i: int| 0 <= i < end.len() ==> (#[trigger] end[i] == '\n' || end[i] == '\r'),
    ensures
        line_body(body + end) == body,
{
    let ends = |c: char| ends_line(c);
    assert forall|i: int| 0 <= i < end.len() implies ends(#[trigger] end[i]) by {
        assert(end[i] == '\n' || end[i] == '\r');
    }
    text::trimming_cuts_the_end(body, end, ends);
}

} // verus!
