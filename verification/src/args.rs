//! The command line: which operation a command asks for, and with which
//! arguments.

use crate::cargo::opt_text;
use crate::error::{Error, ErrorView};
use crate::text::{join, joined, str_eq, texts, trim, trimmed};
use vstd::prelude::*;

verus! {

/// The lower-case form that `str::to_lowercase` gives a text.
pub uninterp spec fn lowercased(s: Seq<char>) -> Seq<char>;

/// `str::to_lowercase`: the lower-case form of the text. It depends on the
/// text alone.
#[verifier::external_body]
pub(crate) fn to_lowercase(s: &str) -> (r: String)
    ensures
        r@ == lowercased(s@),
{
    s.to_lowercase()
}

/// What the user asks for.
#[derive(Debug)]
pub enum Request {
    /// List the mirrors.
    List,
    /// Switch to the default mirror.
    Default,
    /// Switch to a mirror.
    Use(Option<String>),
    /// Remove a mirror of the user's.
    Remove(Option<String>),
    /// Run `cargo publish` with these arguments.
    Publish(String),
    /// Run `cargo update` with these arguments.
    Update(String),
    /// Run `cargo install` with these arguments.
    Install(String),
    /// Probe a mirror, or all of them.
    Test(Option<String>),
    /// Show the active mirror.
    Current,
    /// Show the version of this program.
    Version,
    /// Look for a newer version of this program.
    CheckUpdate,
    /// Switch to the best mirror.
    Best(Option<String>),
    /// Add or overwrite a mirror of the user's: name, index address,
    /// download template.
    Save(Option<String>, Option<String>, Option<String>),
    /// Nothing that this program knows.
    Unknown(String),
}

/// A [`Request`] with its texts as character sequences.
pub enum RequestView {
    List,
    Default,
    Use(Option<Seq<char>>),
    Remove(Option<Seq<char>>),
    Publish(Seq<char>),
    Update(Seq<char>),
    Install(Seq<char>),
    Test(Option<Seq<char>>),
    Current,
    Version,
    CheckUpdate,
    Best(Option<Seq<char>>),
    Save(Option<Seq<char>>, Option<Seq<char>>, Option<Seq<char>>),
    Unknown(Seq<char>),
}

impl View for Request {
    type V = RequestView;

    open spec fn view(&self) -> RequestView {
        match self {
            Request::List => RequestView::List,
            Request::Default => RequestView::Default,
            Request::Use(n) => RequestView::Use(opt_text(*n)),
            Request::Remove(n) => RequestView::Remove(opt_text(*n)),
            Request::Publish(a) => RequestView::Publish(a@),
            Request::Update(a) => RequestView::Update(a@),
            Request::Install(a) => RequestView::Install(a@),
            Request::Test(n) => RequestView::Test(opt_text(*n)),
            Request::Current => RequestView::Current,
            Request::Version => RequestView::Version,
            Request::CheckUpdate => RequestView::CheckUpdate,
            Request::Best(f) => RequestView::Best(opt_text(*f)),
            Request::Save(n, a, d) => RequestView::Save(opt_text(*n), opt_text(*a), opt_text(*d)),
            Request::Unknown(c) => RequestView::Unknown(c@),
        }
    }
}

/// The argument at position `i`, if there is one.
pub open spec fn nth(args: Seq<Seq<char>>, i: int) -> Option<Seq<char>> {
    if 0 <= i < args.len() {
        Some(args[i])
    } else {
        None
    }
}

/// What the command `command`, in lower case and without white space around
/// it, asks for with the arguments `args`.
pub open spec fn request_of(command: Seq<char>, args: Seq<Seq<char>>) -> RequestView {
    if command == "list"@ {
        RequestView::List
    } else if command == "default"@ {
        RequestView::Default
    } else if command == "use"@ {
        RequestView::Use(nth(args, 0))
    } else if command == "remove"@ {
        RequestView::Remove(nth(args, 0))
    } else if command == "publish"@ {
        RequestView::Publish(joined(args, seq![' ']))
    } else if command == "update"@ {
        RequestView::Update(joined(args, seq![' ']))
    } else if command == "install"@ {
        RequestView::Install(joined(args, seq![' ']))
    } else if command == "test"@ {
        RequestView::Test(nth(args, 0))
    } else if command == "current"@ {
        RequestView::Current
    } else if command == "version"@ {
        RequestView::Version
    } else if command == "check-update"@ {
        RequestView::CheckUpdate
    } else if command == "best"@ {
        RequestView::Best(nth(args, 0))
    } else if command == "save"@ {
        RequestView::Save(nth(args, 0), nth(args, 1), nth(args, 2))
    } else {
        RequestView::Unknown(command)
    }
}

/// The argument at position `i`, if there is one.
fn arg(args: &Vec<String>, i: usize) -> (r: Option<String>)
    ensures
        opt_text(r) == nth(texts(args@), i as int),
{
    if i < args.len() {
        Some(args[i].clone())
    } else {
        None
    }
}

/// What the command `command`, in lower case and without white space around
/// it, asks for with the arguments `args`.
pub fn dispatch(command: &str, args: &Vec<String>) -> (r: Request)
    ensures
        r@ == request_of(command@, texts(args@)),
{
    proof {
        reveal_strlit(" ");
        assert(" "@ =~= seq![' ']);
    }
    if str_eq(command, "list") {
        Request::List
    } else if str_eq(command, "default") {
        Request::Default
    } else if str_eq(command, "use") {
        Request::Use(arg(args, 0))
    } else if str_eq(command, "remove") {
        Request::Remove(arg(args, 0))
    } else if str_eq(command, "publish") {
        Request::Publish(join(args, " "))
    } else if str_eq(command, "update") {
        Request::Update(join(args, " "))
    } else if str_eq(command, "install") {
        Request::Install(join(args, " "))
    } else if str_eq(command, "test") {
        Request::Test(arg(args, 0))
    } else if str_eq(command, "current") {
        Request::Current
    } else if str_eq(command, "version") {
        Request::Version
    } else if str_eq(command, "check-update") {
        Request::CheckUpdate
    } else if str_eq(command, "best") {
        Request::Best(arg(args, 0))
    } else if str_eq(command, "save") {
        Request::Save(arg(args, 0), arg(args, 1), arg(args, 2))
    } else {
        Request::Unknown(command.to_owned())
    }
}

/// What the command line asks for: the command is trimmed and taken in lower
/// case.
pub fn handle_command(command: &str, args: &Vec<String>) -> (r: Request)
    ensures
        r@ == request_of(lowercased(trimmed(command@)), texts(args@)),
{
    let command = trim(command);
    let command = to_lowercase(command.as_str());
    dispatch(command.as_str(), args)
}

/// The arguments of a command, each without white space around it.
pub open spec fn trimmed_all(args: Seq<Seq<char>>) -> Seq<Seq<char>> {
    args.map_values(|a: Seq<char>| trimmed(a))
}

/// Splits the words of the command line, of which the first is the program
/// itself: the command as it was typed, and its arguments, trimmed. A
/// command line without a command is the unknown command.
pub fn parse_args(words: &Vec<String>) -> (r: Result<(String, Vec<String>), Error>)
    ensures
        match r {
            Ok(p) => words@.len() >= 2 && p.0@ == words@[1]@ && texts(p.1@) == trimmed_all(
                texts(words@).skip(2),
            ),
            Err(e) => words@.len() < 2 && e@ == (ErrorView::UnknownCommand {
                command: Seq::empty(),
            }),
        },
{
    if words.len() < 2 {
        return Err(Error::UnknownCommand { command: String::new() });
    }
    let command = words[1].clone();
    let mut rest: Vec<String> = Vec::new();
    let mut i: usize = 2;
    let ghost all = texts(words@);
    assert(texts(rest@) =~= trimmed_all(all.skip(2).take(0)));
    while i < words.len()
        invariant
            2 <= i <= words.len(),
            all == texts(words@),
            texts(rest@) == trimmed_all(all.skip(2).take(i - 2)),
        decreases words.len() - i,
    {
        let ghost before = rest@;
        rest.push(trim(words[i].as_str()));
        proof {
            assert(all[i as int] == words@[i as int]@);
            assert(texts(rest@) =~= texts(before).push(trimmed(all[i as int])));
            assert(all.skip(2).take(i - 1) =~= all.skip(2).take(i - 2).push(all[i as int]));
            assert(texts(rest@) =~= trimmed_all(all.skip(2).take(i - 1)));
        }
        i = i + 1;
    }
    assert(all.skip(2).take(words.len() - 2) =~= all.skip(2));
    Ok((command, rest))
}

} // verus!
