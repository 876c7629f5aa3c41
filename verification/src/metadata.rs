//! The framing of the metadata file.
//!
//! The file holds one record per line. A line ends at a line feed; a
//! carriage return just before that line feed belongs to the line ending.
//! What follows the last line feed is a line too, unless it is empty. Lines
//! that hold nothing but white space carry no record.

use vstd::prelude::*;
use crate::text::{char_is_whitespace, chars_of, is_blank, is_whitespace};

verus! {

/// The number of characters before the first line feed of `s`, or the
/// length of `s` where it has none.
pub open spec fn line_end(s: Seq<char>) -> int
    decreases s.len(),
{
    if s.len() == 0 || s[0] == '\n' {
        0
    } else {
        1 + line_end(s.drop_first())
    }
}

/// `line` without the carriage return at its end, if there is one.
pub open spec fn without_carriage_return(line: Seq<char>) -> Seq<char> {
    if line.len() > 0 && line.last() == '\r' {
        line.drop_last()
    } else {
        line
    }
}

/// The first line of a text that is not empty.
pub open spec fn first_line(s: Seq<char>) -> Seq<char> {
    if line_end(s) < s.len() {
        without_carriage_return(s.take(line_end(s)))
    } else {
        s
    }
}

/// What follows the first line and its line ending.
pub open spec fn after_first_line(s: Seq<char>) -> Seq<char> {
    if line_end(s) < s.len() {
        s.skip(line_end(s) + 1)
    } else {
        Seq::empty()
    }
}

/// The lines of `s` that carry a record: its lines in order, without those
/// that are blank.
pub open spec fn record_lines(s: Seq<char>) -> Seq<Seq<char>>
    decreases s.len(),
{
    if s.len() == 0 {
        Seq::empty()
    } else {
        proof {
            lemma_line_end(s);
        }
        let rest = record_lines(after_first_line(s));
        if is_blank(first_line(s)) {
            rest
        } else {
            seq![first_line(s)] + rest
        }
    }
}

/// The first line feed lies within `s`, and nothing before it is one.
pub proof fn lemma_line_end(s: Seq<char>)
    ensures
        0 <= line_end(s) <= s.len(),
        forall|i: int| 0 <= i < line_end(s) ==> #[trigger] s[i] != '\n',
        line_end(s) < s.len() ==> s[line_end(s)] == '\n',
    decreases s.len(),
{
    if s.len() > 0 && s[0] != '\n' {
        let rest = s.drop_first();
        lemma_line_end(rest);
        assert forall|i: int| 0 <= i < line_end(s) implies #[trigger] s[i] != '\n' by {
            if i > 0 {
                assert(s[i] == rest[i - 1]);
            }
        }
        if line_end(s) < s.len() {
            assert(s[line_end(s)] == rest[line_end(rest)]);
        }
    }
}

/// A line end that is known from what stands before and at it.
pub proof fn lemma_line_end_is(s: Seq<char>, n: int)
    requires
        0 <= n <= s.len(),
        forall|i: int| 0 <= i < n ==> #[trigger] s[i] != '\n',
        n == s.len() || s[n] == '\n',
    ensures
        line_end(s) == n,
    decreases n,
{
    if n > 0 {
        let rest = s.drop_first();
        assert forall|i: int| 0 <= i < n - 1 implies #[trigger] rest[i] != '\n' by {
            assert(rest[i] == s[i + 1]);
        }
        lemma_line_end_is(rest, n - 1);
    }
}

/// No record line is blank, and none holds a line feed.
pub proof fn lemma_record_lines_carry_text(s: Seq<char>)
    ensures
        forall|k: int|
            0 <= k < record_lines(s).len() ==> !is_blank(#[trigger] record_lines(s)[k])
                && forall|i: int|
                0 <= i < record_lines(s)[k].len() ==> #[trigger] record_lines(s)[k][i] != '\n',
    decreases s.len(),
{
    if s.len() > 0 {
        lemma_line_end(s);
        lemma_record_lines_carry_text(after_first_line(s));
        let rest = record_lines(after_first_line(s));
        let line = first_line(s);
        assert forall|i: int| 0 <= i < line.len() implies #[trigger] line[i] != '\n' by {
            assert(line[i] == s[i]);
        }
        assert forall|k: int| 0 <= k < record_lines(s).len() implies !is_blank(
            #[trigger] record_lines(s)[k],
        ) && forall|i: int|
            0 <= i < record_lines(s)[k].len() ==> #[trigger] record_lines(s)[k][i] != '\n' by {
            if is_blank(line) {
                assert(record_lines(s)[k] == rest[k]);
            } else if k == 0 {
                assert(record_lines(s)[0] == line);
            } else {
                assert(record_lines(s)[k] == rest[k - 1]);
            }
        }
    }
}

/// `String::push`: appends `c` to the end of `s`.
#[verifier::external_body]
fn push_char(s: &mut String, c: char)
    ensures
        final(s)@ == old(s)@.push(c),
{
    s.push(c)
}

fn blank_between(chars: &Vec<char>, from: usize, to: usize) -> (blank: bool)
    requires
        from <= to <= chars@.len(),
    ensures
        blank == is_blank(chars@.subrange(from as int, to as int)),
{
    let ghost line = chars@.subrange(from as int, to as int);
    let mut i: usize = from;
    while i < to
        invariant
            from <= i <= to,
            to <= chars@.len(),
            line == chars@.subrange(from as int, to as int),
            forall|m: int| from <= m < i ==> is_whitespace(#[trigger] chars@[m]),
        decreases to - i,
    {
        if !char_is_whitespace(chars[i]) {
            proof {
                assert(line[i - from] == chars@[i as int]);
            }
            return false;
        }
        i += 1;
    }
    proof {
        assert forall|m: int| 0 <= m < line.len() implies is_whitespace(#[trigger] line[m]) by {
            assert(line[m] == chars@[from + m]);
        }
    }
    true
}

fn string_between(chars: &Vec<char>, from: usize, to: usize) -> (line: String)
    requires
        from <= to <= chars@.len(),
    ensures
        line@ == chars@.subrange(from as int, to as int),
{
    let mut line: String = String::new();
    let mut i: usize = from;
    proof {
        assert(chars@.subrange(from as int, from as int) =~= Seq::<char>::empty());
    }
    while i < to
        invariant
            from <= i <= to,
            to <= chars@.len(),
            line@ == chars@.subrange(from as int, i as int),
        decreases to - i,
    {
        push_char(&mut line, chars[i]);
        proof {
            assert(chars@.subrange(from as int, i as int).push(chars@[i as int])
                =~= chars@.subrange(from as int, i + 1));
        }
        i += 1;
    }
    line
}

/// Splits the content of a metadata file into the lines that carry a record,
/// in order. Blank lines are passed over; nothing else is examined.
pub fn split_record_lines(content: &str) -> (lines: Vec<String>)
    ensures
        lines@.len() == record_lines(content@).len(),
        forall|k: int|
            0 <= k < lines@.len() ==> (#[trigger] lines@[k])@ == record_lines(content@)[k],
{
    let chars: Vec<char> = chars_of(content);
    let n: usize = chars.len();
    let mut lines: Vec<String> = Vec::new();
    let ghost mut found: Seq<Seq<char>> = Seq::empty();
    let mut start: usize = 0;
    proof {
        assert(chars@.skip(0) =~= chars@);
        assert(found + record_lines(chars@) =~= record_lines(chars@));
    }
    while start < n
        invariant
            n == chars@.len(),
            start <= n,
            lines@.len() == found.len(),
            forall|k: int| 0 <= k < lines@.len() ==> (#[trigger] lines@[k])@ == found[k],
            record_lines(chars@) == found + record_lines(chars@.skip(start as int)),
        decreases n - start,
    {
        let ghost rest = chars@.skip(start as int);
        let mut end: usize = start;
        while end < n && chars[end] != '\n'
            invariant
                n == chars@.len(),
                start <= end <= n,
                forall|m: int| start <= m < end ==> #[trigger] chars@[m] != '\n',
            decreases n - end,
        {
            end += 1;
        }
        proof {
            assert forall|m: int| 0 <= m < end - start implies #[trigger] rest[m] != '\n' by {
                assert(rest[m] == chars@[start + m]);
            }
            if end < n {
                assert(rest[end - start] == chars@[end as int]);
            }
            lemma_line_end_is(rest, end - start);
        }
        let mut stop: usize = end;
        if end < n && end > start && chars[end - 1] == '\r' {
            stop = end - 1;
        }
        proof {
            let whole = rest.take(end - start);
            assert(whole =~= chars@.subrange(start as int, end as int));
            if end < n {
                if end > start {
                    assert(whole.last() == chars@[end - 1]);
                }
                assert(without_carriage_return(whole) =~= chars@.subrange(
                    start as int,
                    stop as int,
                ));
                assert(rest.skip(end - start + 1) =~= chars@.skip(end + 1));
            } else {
                assert(rest =~= chars@.subrange(start as int, stop as int));
                assert(chars@.skip(n as int) =~= Seq::<char>::empty());
            }
            assert(first_line(rest) == chars@.subrange(start as int, stop as int));
        }
        if !blank_between(&chars, start, stop) {
            let line: String = string_between(&chars, start, stop);
            lines.push(line);
            proof {
                let old_found = found;
                found = found.push(line@);
                assert(old_found + (seq![line@] + record_lines(after_first_line(rest)))
                    =~= found + record_lines(after_first_line(rest)));
            }
        }
        if end < n {
            start = end + 1;
        } else {
            start = n;
        }
    }
    proof {
        assert(found + Seq::<Seq<char>>::empty() =~= found);
    }
    lines
}

} // verus!
