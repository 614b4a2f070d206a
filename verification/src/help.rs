//! Help and version routing.
//!
//! Help is answered before the arguments are validated: `vendor install -h` prints help rather
//! than complaining about the missing operand. So it is resolved by scanning them up front.

use vstd::prelude::*;
use crate::cli::{first_operand, first_operand_from, locate_command, locate_spec};
use crate::grammar::{commands_spec, find, find_spec};
use crate::help_text::ROOT_HELP;
use crate::text;

verus! {

/// What a scan of the arguments decided before real parsing begins.
#[derive(Debug, PartialEq, Eq)]
pub enum Intercept {
    /// Print the text to stdout and exit 0.
    Print(&'static str),
    /// Print the version to stdout and exit 0.
    Version,
    /// Print the root help to stderr and exit 1: no command, or `help <unknown>`.
    UsageError,
    /// Nothing to intercept; hand over to the parser.
    Parse,
}

/// The decision, with the page as text.
pub ghost enum Answer {
    Print(Seq<char>),
    Version,
    UsageError,
    Parse,
}

impl View for Intercept {
    type V = Answer;

    open spec fn view(&self) -> Answer {
        match self {
            Intercept::Print(page) => Answer::Print(page@),
            Intercept::Version => Answer::Version,
            Intercept::UsageError => Answer::UsageError,
            Intercept::Parse => Answer::Parse,
        }
    }
}

/// `-h` or `--help`.
pub open spec fn help_flag(token: Seq<char>) -> bool {
    token == "-h"@ || token == "--help"@
}

/// `-v` or `--version`.
pub open spec fn version_flag(token: Seq<char>) -> bool {
    token == "-v"@ || token == "--version"@
}

/// A help flag stands between `from` and `to`.
pub open spec fn asks_for_help(args: Seq<Seq<char>>, from: int, to: int) -> bool {
    exists|i: int| from <= i < to && help_flag(#[trigger] args[i])
}

/// A version flag stands between `from` and `to`.
pub open spec fn asks_for_version(args: Seq<Seq<char>>, from: int, to: int) -> bool {
    exists|i: int| from <= i < to && version_flag(#[trigger] args[i])
}

/// The first position at or after `from` that holds the word `help`.
pub open spec fn help_word(args: Seq<Seq<char>>, from: int) -> Option<int>
    decreases args.len() - from,
{
    if from < 0 || from >= args.len() {
        None
    } else if args[from] == "help"@ {
        Some(from)
    } else {
        help_word(args, from + 1)
    }
}

/// What is answered where the word `help` stands at `at`: the page of its topic.
pub open spec fn topic_answer(args: Seq<Seq<char>>, at: int) -> Answer {
    if at + 1 >= args.len() {
        Answer::Print(ROOT_HELP@)
    } else {
        match find_spec(commands_spec(), args[at + 1], 0) {
            Some(command) => Answer::Print(command.help),
            None => Answer::UsageError,
        }
    }
}

/// How the arguments are answered before they are parsed. Flags before the subcommand belong to
/// the root command; `help` is a command; a help flag after a subcommand asks for its page.
pub open spec fn answer(args: Seq<Seq<char>>) -> Answer {
    let operand = first_operand_from(args, 0);
    let root_end = match operand {
        Some(index) => index,
        None => args.len() as int,
    };
    if asks_for_help(args, 0, root_end) {
        Answer::Print(ROOT_HELP@)
    } else if asks_for_version(args, 0, root_end) {
        Answer::Version
    } else if help_word(args, 0) is Some && (operand is None || help_word(args, 0)->0
        <= operand->0) {
        topic_answer(args, help_word(args, 0)->0)
    } else {
        match (operand, locate_spec(args)) {
            (None, _) => Answer::UsageError,
            (Some(_), None) => Answer::Parse,
            (Some(index), Some((_, command))) => if asks_for_help(
                args,
                index + 1,
                args.len() as int,
            ) {
                Answer::Print(command.help)
            } else {
                Answer::Parse
            },
        }
    }
}

/// Whether a help flag stands between `from` and `to`.
fn has_help_flag(args: &[String], from: usize, to: usize) -> (r: bool)
    requires
        to <= args@.len(),
    ensures
        r == asks_for_help(text::texts(args@), from as int, to as int),
{
    let ghost all = text::texts(args@);
    let mut i: usize = from;
    while i < to
        invariant
            from <= i,
            to <= args@.len(),
            all == text::texts(args@),
            forall|j: int| from <= j < i && j < to ==> !help_flag(#[trigger] all[j]),
        decreases to - i,
    {
        let token = args[i].as_str();
        assert(token@ == all[i as int]);
        if text::equal(token, "-h") || text::equal(token, "--help") {
            return true;
        }
        i += 1;
    }
    false
}

/// Whether a version flag stands between `from` and `to`.
fn has_version_flag(args: &[String], from: usize, to: usize) -> (r: bool)
    requires
        to <= args@.len(),
    ensures
        r == asks_for_version(text::texts(args@), from as int, to as int),
{
    let ghost all = text::texts(args@);
    let mut i: usize = from;
    while i < to
        invariant
            from <= i,
            to <= args@.len(),
            all == text::texts(args@),
            forall|j: int| from <= j < i && j < to ==> !version_flag(#[trigger] all[j]),
        decreases to - i,
    {
        let token = args[i].as_str();
        assert(token@ == all[i as int]);
        if text::equal(token, "-v") || text::equal(token, "--version") {
            return true;
        }
        i += 1;
    }
    false
}

/// Where the word `help` first stands.
fn find_help_word(args: &[String]) -> (r: Option<usize>)
    ensures
        match r {
            Some(at) => help_word(text::texts(args@), 0) == Some(at as int) && at < args@.len(),
            None => help_word(text::texts(args@), 0) is None,
        },
{
    let ghost all = text::texts(args@);
    let mut i: usize = 0;
    while i < args.len()
        invariant
            i <= args@.len(),
            all == text::texts(args@),
            help_word(all, 0) == help_word(all, i as int),
        decreases args@.len() - i,
    {
        assert(args@[i as int]@ == all[i as int]);
        if text::equal(args[i].as_str(), "help") {
            return Some(i);
        }
        i += 1;
    }
    None
}

/// Decides how to respond to the arguments (without the program name) before parsing them.
pub fn intercept(args: &[String]) -> (r: Intercept)
    ensures
        r@ == answer(text::texts(args@)),
{
    let total: usize = args.len();
    let operand = first_operand(args);
    let root_end: usize = match operand {
        Some(index) => index,
        None => total,
    };
    if has_help_flag(args, 0, root_end) {
        return Intercept::Print(ROOT_HELP);
    }
    if has_version_flag(args, 0, root_end) {
        return Intercept::Version;
    }
    if let Some(at) = find_help_word(args) {
        let before = match operand {
            Some(index) => at <= index,
            None => true,
        };
        if before {
            if at + 1 >= total {
                return Intercept::Print(ROOT_HELP);
            }
            assert(args@[at + 1]@ == text::texts(args@)[at + 1]);
            return match find(args[at + 1].as_str()) {
                Some(command) => Intercept::Print(command.help),
                None => Intercept::UsageError,
            };
        }
    }
    match operand {
        None => Intercept::UsageError,
        Some(index) => match locate_command(args) {
            None => Intercept::Parse,
            Some((_, command)) => if has_help_flag(args, index + 1, total) {
                Intercept::Print(command.help)
            } else {
                Intercept::Parse
            },
        },
    }
}

/// A help flag after a subcommand is answered with that command's page, whatever else the
/// arguments lack, unless a flag of the root command or the word `help` comes first.
pub proof fn subcommand_help_wins(args: Seq<Seq<char>>)
    requires
        locate_spec(args) is Some,
        asks_for_help(args, (locate_spec(args)->0).0 + 1, args.len() as int),
        !asks_for_help(args, 0, (locate_spec(args)->0).0),
        !asks_for_version(args, 0, (locate_spec(args)->0).0),
        help_word(args, 0) is None || help_word(args, 0)->0 > (locate_spec(args)->0).0,
    ensures
        answer(args) == Answer::Print((locate_spec(args)->0).1.help),
{
}

/// The word `help` is found where it first stands.
proof fn lemma_help_word(args: Seq<Seq<char>>, from: int)
    requires
        0 <= from,
    ensures
        match help_word(args, from) {
            Some(i) => from <= i < args.len() && args[i] == "help"@ && forall|j: int|
                from <= j < i ==> #[trigger] args[j] != "help"@,
            None => forall|j: int| from <= j < args.len() ==> #[trigger] args[j] != "help"@,
        },
    decreases args.len() - from,
{
    if from < args.len() && args[from] != "help"@ {
        lemma_help_word(args, from + 1);
    }
}

/// A help flag before the subcommand is answered with the tool's own page, whatever follows; a version
/// flag there with the version, unless help is asked for too.
pub proof fn a_flag_before_the_subcommand_is_the_tools(args: Seq<Seq<char>>, i: int)
    requires
        0 <= i < args.len(),
        first_operand_from(args, 0) is None || i < first_operand_from(args, 0)->0,
    ensures
        args[i] == "-h"@ || args[i] == "--help"@ ==> answer(args) == Answer::Print(ROOT_HELP@),
        (args[i] == "-v"@ || args[i] == "--version"@) && (forall|j: int|
            0 <= j < args.len() ==> #[trigger] args[j] != "-h"@ && args[j] != "--help"@) ==> answer(
            args,
        ) == Answer::Version,
{
    crate::cli::the_first_operand_is_the_first(args, 0);
    assert(help_flag(args[i]) || version_flag(args[i]) || !(args[i] == "-h"@ || args[i] == "--help"@
        || args[i] == "-v"@ || args[i] == "--version"@));
}

/// The word `help` in front is a command: alone it gives the tool's own page, and with a topic the page
/// of the command that the topic names, or a usage error where it names none.
pub proof fn the_word_help_gives_a_page(topic: Seq<char>, rest: Seq<Seq<char>>)
    ensures
        answer(seq!["help"@]) == Answer::Print(ROOT_HELP@),
        match find_spec(commands_spec(), topic, 0) {
            Some(command) => answer(seq!["help"@, topic] + rest) == Answer::Print(command.help),
            None => answer(seq!["help"@, topic] + rest) is UsageError,
        },
{
    reveal_strlit("help");
    reveal_strlit("--");
    let alone = seq!["help"@];
    let both = seq!["help"@, topic] + rest;
    assert("help"@[0] == 'h' && "help"@.len() == 4);
    assert("help"@ != "--"@) by {
        assert("--"@.len() == 2);
    }
    assert(alone[0] == "help"@ && both[0] == "help"@ && both[1] == topic);
    assert(first_operand_from(alone, 0) == Some(0int));
    assert(first_operand_from(both, 0) == Some(0int));
    lemma_help_word(alone, 0);
    lemma_help_word(both, 0);
    assert(help_word(alone, 0) == Some(0int));
    assert(help_word(both, 0) == Some(0int));
}

/// Without a subcommand there is nothing to parse, and what asks for no help is parsed.
pub proof fn no_subcommand_is_a_usage_error(args: Seq<Seq<char>>)
    requires
        forall|j: int|
            0 <= j < args.len() ==> #[trigger] args[j] != "-h"@ && args[j] != "--help"@ && args[j]
                != "-v"@ && args[j] != "--version"@ && args[j] != "help"@,
    ensures
        first_operand_from(args, 0) is None ==> answer(args) is UsageError,
        first_operand_from(args, 0) is Some ==> answer(args) is Parse,
{
    crate::cli::the_first_operand_is_the_first(args, 0);
    lemma_help_word(args, 0);
}

} // verus!
