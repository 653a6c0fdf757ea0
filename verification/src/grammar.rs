//! How a command is written.
//!
//! A message that holds a command begins with the command's name, up to
//! the first space. The name may be followed by `@` and the name of the
//! bot that is meant; a message meant for another bot is not for this one.
//! What stands after the first space is the command's text, as it is.

use crate::command::Command;
use crate::text::chars_of;
use vstd::prelude::*;
use vstd::string::StringExecFns;

verus! {

pub const TAG: &'static str = "/tag";

pub const REGISTER: &'static str = "/register";

pub const ALLOW: &'static str = "/allow";

pub const HELP: &'static str = "/help";

pub const UNTAG: &'static str = "/untag";

pub const LIST_TAGS: &'static str = "/listtags";

pub const TAG_DESCRIPTION: &'static str = "tag a sticker with text description";

pub const REGISTER_DESCRIPTION: &'static str = "register self as a tagger";

pub const ALLOW_DESCRIPTION: &'static str = "allow a user to tag";

pub const HELP_DESCRIPTION: &'static str = "get help message";

pub const UNTAG_DESCRIPTION: &'static str = "remove a tag from a sticker";

pub const LIST_TAGS_DESCRIPTION: &'static str = "list all tags associated with a sticker";

/// The first line of the list of commands.
pub const HEADLINE: &'static str = "Commands:";

/// What stands between a command's name and its description.
pub const DASH: &'static str = " - ";

/// What ends a line.
pub const NEWLINE: &'static str = "\n";

/// Why a message holds no command for this bot.
#[derive(Debug, PartialEq, Eq)]
pub enum ParseError {
    /// The message is meant for the bot of this name.
    WrongBotName(String),
    /// There is no command of this name.
    UnknownCommand(String),
}

/// The view of a [`Command`].
pub enum CommandView {
    Tag { text: Seq<char> },
    Register,
    Allow { text: Seq<char> },
    Help,
    Untag { text: Seq<char> },
    ListTags,
}

/// The view of a [`ParseError`].
pub enum ParseErrorView {
    WrongBotName(Seq<char>),
    UnknownCommand(Seq<char>),
}

impl View for Command {
    type V = CommandView;

    open spec fn view(&self) -> CommandView {
        match *self {
            Command::Tag { text } => CommandView::Tag { text: text@ },
            Command::Register => CommandView::Register,
            Command::Allow { text } => CommandView::Allow { text: text@ },
            Command::Help => CommandView::Help,
            Command::Untag { text } => CommandView::Untag { text: text@ },
            Command::ListTags => CommandView::ListTags,
        }
    }
}

impl View for ParseError {
    type V = ParseErrorView;

    open spec fn view(&self) -> ParseErrorView {
        match *self {
            ParseError::WrongBotName(name) => ParseErrorView::WrongBotName(name@),
            ParseError::UnknownCommand(name) => ParseErrorView::UnknownCommand(name@),
        }
    }
}

/// The view of what parsing returns.
pub open spec fn parsed_view(res: Result<Command, ParseError>) -> Result<
    CommandView,
    ParseErrorView,
> {
    match res {
        Ok(command) => Ok(command@),
        Err(e) => Err(e@),
    }
}

/// Where `c` stands first in `s`, or the length of `s` where it does not
/// stand in it.
pub open spec fn first_of(s: Seq<char>, c: char) -> int
    decreases s.len(),
{
    if s.len() == 0 {
        0
    } else {
        let before = first_of(s.drop_last(), c);
        if before < s.len() - 1 {
            before
        } else if s.last() == c {
            s.len() - 1
        } else {
            s.len() as int
        }
    }
}

/// `first_of` is a position in `s` or its length, `c` does not stand
/// before it, and `c` stands at it if it is a position.
pub proof fn lemma_first_of(s: Seq<char>, c: char)
    ensures
        0 <= first_of(s, c) <= s.len(),
        forall|i: int| 0 <= i < first_of(s, c) ==> #[trigger] s[i] != c,
        first_of(s, c) < s.len() ==> s[first_of(s, c)] == c,
    decreases s.len(),
{
    if s.len() > 0 {
        let init = s.drop_last();
        lemma_first_of(init, c);
        assert forall|i: int| 0 <= i < first_of(s, c) implies #[trigger] s[i] != c by {
            if i < init.len() {
                assert(s[i] == init[i]);
            }
        }
    }
}

/// The only position before which `c` does not stand and at which it
/// stands, or which is the length of `s`, is `first_of`.
pub proof fn lemma_first_of_is(s: Seq<char>, c: char, p: int)
    requires
        0 <= p <= s.len(),
        forall|i: int| 0 <= i < p ==> #[trigger] s[i] != c,
        p < s.len() ==> s[p] == c,
    ensures
        first_of(s, c) == p,
{
    lemma_first_of(s, c);
    let f = first_of(s, c);
    if f < p {
        assert(s[f] != c);
    }
}

/// The code of `c` with capital letters from `A` to `Z` made small.
pub open spec fn small(c: char) -> int {
    if 'A' <= c <= 'Z' {
        c as int + 32
    } else {
        c as int
    }
}

/// Whether two texts are the same but for the case of the letters from
/// `a` to `z`.
pub open spec fn same_ignoring_case(a: Seq<char>, b: Seq<char>) -> bool {
    &&& a.len() == b.len()
    &&& forall|i: int| 0 <= i < a.len() ==> small(#[trigger] a[i]) == small(b[i])
}

/// The parts of a message that holds a command.
pub struct Parts {
    /// The name of the command: what stands before the first space and
    /// before the first `@`.
    pub name: Seq<char>,
    /// The bot that is meant, where the message says so: what stands
    /// before the first space between the first `@` and the next.
    pub addressee: Option<Seq<char>>,
    /// The text of the command: what stands after the first space.
    pub text: Seq<char>,
}

/// The parts of the message `message`.
pub open spec fn parts_of(message: Seq<char>) -> Parts {
    let space = first_of(message, ' ');
    let head = message.take(space);
    let at = first_of(head, '@');
    let after = head.skip(at + 1);
    Parts {
        name: head.take(at),
        addressee: if at < head.len() {
            Some(after.take(first_of(after, '@')))
        } else {
            None
        },
        text: if space < message.len() {
            message.skip(space + 1)
        } else {
            Seq::empty()
        },
    }
}

/// The command that `message` holds for the bot `bot_name`.
///
/// A message meant for another bot holds none, whatever else it says.
/// The commands that take a text take all that stands after the first
/// space; the others take no notice of it.
pub open spec fn parsed(message: Seq<char>, bot_name: Seq<char>) -> Result<
    CommandView,
    ParseErrorView,
> {
    let parts = parts_of(message);
    if parts.addressee is Some && !same_ignoring_case(parts.addressee->0, bot_name) {
        Err(ParseErrorView::WrongBotName(parts.addressee->0))
    } else if parts.name == TAG@ {
        Ok(CommandView::Tag { text: parts.text })
    } else if parts.name == REGISTER@ {
        Ok(CommandView::Register)
    } else if parts.name == ALLOW@ {
        Ok(CommandView::Allow { text: parts.text })
    } else if parts.name == HELP@ {
        Ok(CommandView::Help)
    } else if parts.name == UNTAG@ {
        Ok(CommandView::Untag { text: parts.text })
    } else if parts.name == LIST_TAGS@ {
        Ok(CommandView::ListTags)
    } else {
        Err(ParseErrorView::UnknownCommand(parts.name))
    }
}

/// A line of the list of commands.
pub open spec fn help_line(name: Seq<char>, description: Seq<char>) -> Seq<char> {
    name + DASH@ + description + NEWLINE@
}

/// The list of commands: a headline, and a line for each command.
pub open spec fn help_text() -> Seq<char> {
    HEADLINE@ + NEWLINE@ + help_line(TAG@, TAG_DESCRIPTION@) + help_line(
        REGISTER@,
        REGISTER_DESCRIPTION@,
    ) + help_line(ALLOW@, ALLOW_DESCRIPTION@) + help_line(HELP@, HELP_DESCRIPTION@) + help_line(
        UNTAG@,
        UNTAG_DESCRIPTION@,
    ) + help_line(LIST_TAGS@, LIST_TAGS_DESCRIPTION@)
}

/// Finds where `c` stands first among the characters from `from` up to
/// `to`, or returns `to`.
fn find(chars: &Vec<char>, c: char, from: usize, to: usize) -> (at: usize)
    requires
        from <= to <= chars.len(),
    ensures
        from <= at <= to,
        at - from == first_of(chars@.subrange(from as int, to as int), c),
{
    let ghost part = chars@.subrange(from as int, to as int);
    let mut at: usize = from;
    while at < to
        invariant
            from <= at <= to,
            to <= chars.len(),
            part == chars@.subrange(from as int, to as int),
            forall|i: int| 0 <= i < at - from ==> #[trigger] part[i] != c,
        decreases to - at,
    {
        if chars[at] == c {
            proof {
                assert(part[at - from] == c);
                lemma_first_of_is(part, c, at - from);
            }
            return at;
        }
        at += 1;
    }
    proof {
        lemma_first_of_is(part, c, to - from);
    }
    at
}

/// The code of a character with capital letters from `A` to `Z` made
/// small.
fn small_code(c: char) -> (code: u32)
    ensures
        code == small(c),
{
    let code = c as u32;
    if 'A' <= c && c <= 'Z' {
        code + 32
    } else {
        code
    }
}

/// Tests whether two texts are the same but for the case of the letters
/// from `a` to `z`.
pub fn is_same_ignoring_case(a: &str, b: &str) -> (same: bool)
    ensures
        same == same_ignoring_case(a@, b@),
{
    let x = chars_of(a);
    let y = chars_of(b);
    if x.len() != y.len() {
        return false;
    }
    let mut i: usize = 0;
    while i < x.len()
        invariant
            i <= x.len(),
            x.len() == y.len(),
            x@ == a@,
            y@ == b@,
            forall|j: int| 0 <= j < i ==> small(#[trigger] x[j]) == small(y[j]),
        decreases x.len() - i,
    {
        if small_code(x[i]) != small_code(y[i]) {
            return false;
        }
        i += 1;
    }
    true
}

/// Tests whether two texts are the same.
fn is_text(a: &str, b: &str) -> (same: bool)
    ensures
        same == (a@ == b@),
{
    a.to_owned() == b.to_owned()
}

impl Command {
    /// Reads the command that a message holds for the bot `bot_name`.
    pub fn parse(message: &str, bot_name: &str) -> (res: Result<Command, ParseError>)
        ensures
            parsed_view(res) == parsed(message@, bot_name@),
    {
        let chars = chars_of(message);
        let n = chars.len();
        let space = find(&chars, ' ', 0, n);
        let at = find(&chars, '@', 0, space);
        let ghost head = message@.take(space as int);
        let ghost after = head.skip(at + 1);
        proof {
            assert(chars@.subrange(0, n as int) =~= message@);
            assert(chars@.subrange(0, space as int) =~= head);
        }
        let name = message.substring_char(0, at);
        assert(name@ =~= head.take(at as int));
        if at < space {
            let next = find(&chars, '@', at + 1, space);
            let addressee = message.substring_char(at + 1, next);
            proof {
                assert(chars@.subrange(at + 1, space as int) =~= after);
                assert(addressee@ =~= after.take(next - (at + 1)));
            }
            if !is_same_ignoring_case(addressee, bot_name) {
                return Err(ParseError::WrongBotName(addressee.to_owned()));
            }
        }
        let text = if space < n {
            message.substring_char(space + 1, n)
        } else {
            message.substring_char(n, n)
        };
        proof {
            if space < n {
                assert(text@ =~= message@.skip(space + 1));
            } else {
                assert(text@ =~= Seq::empty());
            }
        }
        if is_text(name, TAG) {
            Ok(Command::Tag { text: text.to_owned() })
        } else if is_text(name, REGISTER) {
            Ok(Command::Register)
        } else if is_text(name, ALLOW) {
            Ok(Command::Allow { text: text.to_owned() })
        } else if is_text(name, HELP) {
            Ok(Command::Help)
        } else if is_text(name, UNTAG) {
            Ok(Command::Untag { text: text.to_owned() })
        } else if is_text(name, LIST_TAGS) {
            Ok(Command::ListTags)
        } else {
            Err(ParseError::UnknownCommand(name.to_owned()))
        }
    }

    /// The list of commands, for people to read.
    pub fn descriptions() -> (text: String)
        ensures
            text@ == help_text(),
    {
        let mut text = HEADLINE.to_owned();
        text.append(NEWLINE);
        add_help_line(&mut text, TAG, TAG_DESCRIPTION);
        add_help_line(&mut text, REGISTER, REGISTER_DESCRIPTION);
        add_help_line(&mut text, ALLOW, ALLOW_DESCRIPTION);
        add_help_line(&mut text, HELP, HELP_DESCRIPTION);
        add_help_line(&mut text, UNTAG, UNTAG_DESCRIPTION);
        add_help_line(&mut text, LIST_TAGS, LIST_TAGS_DESCRIPTION);
        text
    }
}

/// Adds a line to the list of commands.
fn add_help_line(text: &mut String, name: &str, description: &str)
    ensures
        final(text)@ == old(text)@ + help_line(name@, description@),
{
    text.append(name);
    text.append(DASH);
    text.append(description);
    text.append(NEWLINE);
    assert(text@ =~= old(text)@ + help_line(name@, description@));
}

} // verus!
