//! The text of the protocol: the lines the server sends, the names it
//! accepts, and the trimming of a received line.

use vstd::prelude::*;
use vstd::string::*;

verus! {

/// The prompt a client gets as soon as it has connected.
pub open spec fn welcome_line() -> Seq<char> {
    "Welcome to budgetchat! What shall I call you?"@
}

/// The notice the members get when `name` joins.
pub open spec fn entered_line(name: Seq<char>) -> Seq<char> {
    "* "@ + name + " has entered the room"@
}

/// The notice the remaining members get when `name` leaves.
pub open spec fn left_line(name: Seq<char>) -> Seq<char> {
    "* "@ + name + " has left the room"@
}

/// A chat message `text` from `name`, as the other members see it.
pub open spec fn post_line(name: Seq<char>, text: Seq<char>) -> Seq<char> {
    "["@ + name + "] "@ + text
}

/// `names` separated by a comma and a space.
pub open spec fn comma_separated(names: Seq<Seq<char>>) -> Seq<char>
    decreases names.len(),
{
    if names.len() == 0 {
        Seq::empty()
    } else if names.len() == 1 {
        names[0]
    } else {
        comma_separated(names.drop_last()) + ", "@ + names.last()
    }
}

/// The line that tells a new member who was in the room before it.
pub open spec fn roster_line(names: Seq<Seq<char>>) -> Seq<char> {
    "* The room contains: "@ + comma_separated(names)
}

/// An ASCII letter or digit.
pub open spec fn is_name_char(c: char) -> bool {
    ('a' <= c && c <= 'z') || ('A' <= c && c <= 'Z') || ('0' <= c && c <= '9')
}

/// A name is acceptable when it has at least one character and all of its
/// characters are ASCII letters or digits.
pub open spec fn valid_name(name: Seq<char>) -> bool {
    name.len() >= 1 && forall|i: int| 0 <= i < name.len() ==> is_name_char(#[trigger] name[i])
}

/// A character that ends a line: line feed or carriage return.
pub open spec fn is_line_terminator(c: char) -> bool {
    c == '\n' || c == '\r'
}

/// `line` without the line terminators at its end.
pub open spec fn trim_line_end(line: Seq<char>) -> Seq<char>
    decreases line.len(),
{
    if line.len() > 0 && is_line_terminator(line.last()) {
        trim_line_end(line.drop_last())
    } else {
        line
    }
}

/// The prompt, as a line to send.
pub fn welcome() -> (line: String)
    ensures
        line@ == welcome_line(),
{
    "Welcome to budgetchat! What shall I call you?".to_owned()
}

/// The notice that `name` has joined.
pub fn entered(name: &str) -> (line: String)
    ensures
        line@ == entered_line(name@),
{
    let mut line = "* ".to_owned();
    line.append(name);
    line.append(" has entered the room");
    line
}

/// The notice that `name` has left.
pub fn left(name: &str) -> (line: String)
    ensures
        line@ == left_line(name@),
{
    let mut line = "* ".to_owned();
    line.append(name);
    line.append(" has left the room");
    line
}

/// The chat message `text` under the name of its sender.
pub fn post(name: &str, text: &str) -> (line: String)
    ensures
        line@ == post_line(name@, text@),
{
    let mut line = "[".to_owned();
    line.append(name);
    line.append("] ");
    line.append(text);
    line
}

/// The roster line for `names`.
pub fn roster(names: &Vec<String>) -> (line: String)
    ensures
        line@ == roster_line(names.deep_view()),
{
    let mut line = "* The room contains: ".to_owned();
    let ghost shown = names.deep_view();
    let mut i: usize = 0;
    while i < names.len()
        invariant
            i <= names.len(),
            shown == names.deep_view(),
            line@ == "* The room contains: "@ + comma_separated(shown.take(i as int)),
        decreases names.len() - i,
    {
        if i > 0 {
            line.append(", ");
        }
        line.append(names[i].as_str());
        proof {
            let before = shown.take(i as int);
            let now = shown.take(i + 1);
            assert(now.drop_last() =~= before);
            assert(now.last() == names[i as int]@);
        }
        i += 1;
    }
    proof {
        assert(shown.take(names.len() as int) =~= shown);
    }
    line
}

/// Whether the byte `c` is an ASCII letter or digit.
pub fn name_char(c: u8) -> (ok: bool)
    ensures
        ok == is_name_char(c as char),
{
    (0x61 <= c && c <= 0x7a) || (0x41 <= c && c <= 0x5a) || (0x30 <= c && c <= 0x39)
}

/// Whether `name` is acceptable as a member's name.
pub fn is_valid_name(name: &str) -> (ok: bool)
    ensures
        ok == valid_name(name@),
{
    if !name.is_ascii() {
        return false;
    }
    let n = name.unicode_len();
    if n == 0 {
        return false;
    }
    let mut i: usize = 0;
    while i < n
        invariant
            i <= n,
            n == name@.len(),
            is_ascii(name),
            forall|j: int| 0 <= j < i ==> is_name_char(#[trigger] name@[j]),
        decreases n - i,
    {
        let b = name.get_ascii(i);
        if !name_char(b) {
            assert(!is_name_char(name@[i as int]));
            return false;
        }
        i += 1;
    }
    true
}

/// `line` without the line feeds and carriage returns at its end.
pub fn trim(line: &str) -> (trimmed: String)
    ensures
        trimmed@ == trim_line_end(line@),
{
    let mut end = line.unicode_len();
    let mut done = false;
    proof {
        assert(line@.take(end as int) =~= line@);
    }
    while !done && end > 0
        invariant
            end <= line@.len(),
            trim_line_end(line@) == trim_line_end(line@.take(end as int)),
            done ==> end > 0 && !is_line_terminator(line@[end - 1]),
        decreases end + if done { 0int } else { 1int },
    {
        let c = line.get_char(end - 1);
        if c == '\n' || c == '\r' {
            proof {
                assert(line@.take(end as int).drop_last() =~= line@.take(end - 1));
            }
            end -= 1;
        } else {
            done = true;
        }
    }
    line.substring_char(0, end).to_owned()
}

} // verus!
