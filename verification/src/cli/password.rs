//! Where a password comes from, and which ones are refused. Nothing here leaves
//! a copy of it in memory that is not wiped.
use vstd::prelude::*;
use vstd::string::StrSliceExecFns;

use crate::container::key::WipedText;
use crate::container::key;
use crate::paths;
use crate::text::same_text;
use crate::text;

verus! {

/// Why a password is refused.
#[derive(Clone, Copy, Debug, PartialEq, Eq, Structural)]
pub enum Refused {
    Empty,
    Mismatch,
}

/// A line without the line feeds and carriage returns at its end.
pub open spec fn without_line_end(s: Seq<char>) -> Seq<char>
    decreases s.len(),
{
    if s.len() > 0 && (s.last() == '\n' || s.last() == '\r') {
        without_line_end(s.drop_last())
    } else {
        s
    }
}

/// What was typed, from a line that was read.
pub fn strip_line_end(line: &str) -> (r: WipedText)
    ensures
        key::wiped_text(r) == without_line_end(line@),
{
    let len: usize = line.unicode_len();
    let mut n: usize = 0;
    let mut keep: usize = 0;
    assert(line@.take(0) =~= Seq::empty());
    for c in it: line.chars()
        invariant
            it.seq() == line@,
            len == line@.len(),
            n == it.index(),
            keep <= n <= len,
            without_line_end(line@.take(n as int)) == line@.take(keep as int),
    {
        let ghost more = line@.take(n + 1);
        assert(more.drop_last() =~= line@.take(n as int));
        assert(more.last() == c);
        n += 1;
        if c != '\n' && c != '\r' {
            keep = n;
        }
    }
    assert(line@.take(len as int) =~= line@);
    WipedText::first_of(line, keep)
}

/// Why what was typed is refused, if it is.
pub open spec fn refusal_of(typed: Seq<char>, again: Option<Seq<char>>) -> Option<Refused> {
    if typed.len() == 0 {
        Some(Refused::Empty)
    } else if again is Some && again->Some_0 != typed {
        Some(Refused::Mismatch)
    } else {
        None
    }
}

/// Whether a password that was typed is taken. `again` is what was typed to
/// confirm it, where that was asked for.
pub fn read_password(typed: &str, again: Option<&str>) -> (r: Result<(), Refused>)
    ensures
        r == (if typed@.len() == 0 {
            Err(Refused::Empty)
        } else if again matches Some(a) && a@ != typed@ {
            Err(Refused::Mismatch)
        } else {
            Ok::<(), Refused>(())
        }),
        match refusal_of(typed@, paths::opt_view(again)) {
            Some(e) => r == Err::<(), Refused>(e),
            None => r is Ok,
        },
{
    if typed.is_empty() {
        return Err(Refused::Empty);
    }
    if let Some(a) = again {
        if !same_text(typed, a) {
            return Err(Refused::Mismatch);
        }
    }
    Ok(())
}

/// The first line of a text, or nothing.
pub open spec fn first_line(content: Seq<char>) -> Seq<char> {
    let all = text::lines(content);
    if all.len() > 0 {
        all[0]
    } else {
        Seq::empty()
    }
}

/// The password in a text, where there is one.
pub open spec fn password_of(content: Seq<char>) -> Option<Seq<char>> {
    if first_line(content).len() > 0 {
        Some(first_line(content))
    } else {
        None
    }
}

/// The password in a file, or in what a command printed: its first line, and
/// nothing of what may follow.
pub fn password_in(content: &str) -> (r: Result<WipedText, Refused>)
    ensures
        first_line(content@).len() == 0 ==> r matches Err(Refused::Empty),
        first_line(content@).len() > 0 ==> r is Ok && key::wiped_text(r->Ok_0) == first_line(
            content@,
        ),
        match password_of(content@) {
            Some(password) => r is Ok && key::wiped_text(r->Ok_0) == password,
            None => r matches Err(Refused::Empty),
        },
{
    let len: usize = content.unicode_len();
    let mut n: usize = 0;
    // Where the first line feed is, and whether a carriage return comes right
    // before it.
    let mut found = false;
    let mut end: usize = len;
    let mut after_return = false;
    for c in it: content.chars()
        invariant
            it.seq() == content@,
            len == content@.len(),
            n == it.index(),
            n <= len,
            !found ==> end == len && (forall|k: int| 0 <= k < n ==> content@[k] != '\n')
                && after_return == (n > 0 && content@[n - 1] == '\r'),
            found ==> end < n && content@[end as int] == '\n' && (forall|k: int|
                0 <= k < end ==> content@[k] != '\n') && after_return == (end > 0 && content@[end
                - 1] == '\r'),
    {
        if !found {
            if c == '\n' {
                found = true;
                end = n;
            } else {
                after_return = c == '\r';
            }
        }
        n += 1;
    }
    let keep: usize = if found && after_return {
        end - 1
    } else {
        end
    };
    proof {
        text::lemma_place(content@, '\n', 0);
        assert(text::place_of(content@, '\n', 0) == end);
        if found {
            assert(content@.take(keep as int) =~= text::without_return(content@.take(end as int)));
        } else {
            assert(content@.take(keep as int) =~= content@);
        }
        assert(first_line(content@) =~= content@.take(keep as int));
    }
    if keep == 0 {
        Err(Refused::Empty)
    } else {
        Ok(WipedText::first_of(content, keep))
    }
}

/// Whether permission bits let others than the owner at a file.
pub open spec fn open_to_others(mode: u32) -> bool {
    mode & 0o077 != 0
}

/// Whether a password file's permission bits let others than its owner at it.
pub fn readable_by_others(mode: u32) -> (r: bool)
    ensures
        r == (mode & 0o077 != 0),
        r == open_to_others(mode),
{
    mode & 0o077 != 0
}

/// A password is taken if it is not empty and was typed the same again, where it
/// was asked for again.
pub proof fn taken_if_the_same(typed: Seq<char>, again: Seq<char>)
    ensures
        refusal_of(typed, None) is None <==> typed.len() > 0,
        refusal_of(typed, Some(again)) is None <==> typed.len() > 0 && typed == again,
        typed.len() == 0 ==> refusal_of(typed, None) == Some(Refused::Empty) && refusal_of(
            typed,
            Some(again),
        ) == Some(Refused::Empty),
        typed.len() > 0 && typed != again ==> refusal_of(typed, Some(again)) == Some(
            Refused::Mismatch,
        ),
{
}

/// Only line ends are taken off what was typed, and only at its end: it is the
/// password with nothing but those behind it.
pub proof fn only_line_ends_are_taken(s: Seq<char>)
    ensures
        ({
            let r = without_line_end(s);
            &&& r.len() <= s.len()
            &&& r == s.take(r.len() as int)
            &&& r.len() > 0 ==> r.last() != '\n' && r.last() != '\r'
            &&& forall|i: int| r.len() <= i < s.len() ==> #[trigger] s[i] == '\n' || s[i] == '\r'
        }),
    decreases s.len(),
{
    if s.len() > 0 && (s.last() == '\n' || s.last() == '\r') {
        let front = s.drop_last();
        only_line_ends_are_taken(front);
        let n = without_line_end(s).len() as int;
        assert(front.take(n) =~= s.take(n));
        assert forall|i: int| n <= i < s.len() implies #[trigger] s[i] == '\n' || s[i] == '\r' by {
            if i < front.len() {
                assert(front[i] == s[i]);
            }
        }
    } else {
        assert(s.take(s.len() as int) =~= s);
    }
}

/// The password in a file is all that stands before its first line end, and all
/// of the file where there is none.
pub proof fn first_line_is_the_password(line: Seq<char>, rest: Seq<char>)
    requires
        forall|i: int| 0 <= i < line.len() ==> #[trigger] line[i] != '\n',
    ensures
        line.len() > 0 ==> password_of(line) == Some(line),
        line.len() > 0 && line.last() != '\r' ==> password_of(line.push('\n') + rest) == Some(line),
        line.len() > 0 ==> password_of(line.push('\r').push('\n') + rest) == Some(line),
        password_of(Seq::empty()) is None,
        password_of(seq!['\n'] + rest) is None,
        password_of(seq!['\r', '\n'] + rest) is None,
{
    text::returns_end_lines(line, rest);
    text::lemma_place(line, '\n', 0);
    if line.len() > 0 {
        assert(text::lines(line) == seq![line]);
    }
    let none = Seq::<char>::empty();
    text::returns_end_lines(none, rest);
    assert(none.push('\n') =~= seq!['\n']);
    assert(none.push('\r').push('\n') =~= seq!['\r', '\n']);
}

/// A file is open to others exactly where its group or anybody else may do
/// anything with it.
pub proof fn others_have_bits(mode: u32)
    ensures
        open_to_others(mode) <==> (mode / 8) % 8 != 0 || mode % 8 != 0,
{
    assert(mode & 0o077 != 0 <==> (mode / 8) % 8 != 0 || mode % 8 != 0) by (bit_vector);
}

} // verus!
