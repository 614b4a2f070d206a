//! Finding the subcommand in the arguments, and the wording of what is wrong with them.

use vstd::prelude::*;
use vstd::slice::slice_subrange;
use crate::grammar::{
    commands_spec, display_spec, find, find_spec, is_option_like, names_option, operands_from,
    option_display, option_like, root_options, root_options_spec, strip_dashes, without_dashes,
    Arity, CommandSpec, CommandView,
};
use crate::text;

verus! {

/// `token` is a root option that takes the next token as its value.
pub open spec fn root_option_with_value(token: Seq<char>) -> bool {
    !token.contains('=') && exists|i: int|
        0 <= i < root_options_spec().len() && names_option(#[trigger] root_options_spec()[i], token)
            && root_options_spec()[i].arity != Arity::Flag
}

/// The first position at or after `from` that holds neither a root option nor a value of one.
pub open spec fn first_operand_from(args: Seq<Seq<char>>, from: int) -> Option<int>
    decreases args.len() - from,
{
    if from < 0 || from >= args.len() {
        None
    } else if args[from] == "--"@ {
        first_operand_from(args, from + 1)
    } else if option_like(args[from]) {
        if root_option_with_value(args[from]) && from + 1 < args.len() && !option_like(
            args[from + 1],
        ) {
            first_operand_from(args, from + 2)
        } else {
            first_operand_from(args, from + 1)
        }
    } else {
        Some(from)
    }
}

/// Where the subcommand stands and what it is, where the first operand names a known one.
pub open spec fn locate_spec(args: Seq<Seq<char>>) -> Option<(int, CommandView)> {
    match first_operand_from(args, 0) {
        Some(index) => match find_spec(commands_spec(), args[index], 0) {
            Some(command) => Some((index, command)),
            None => None,
        },
        None => None,
    }
}

/// Whether `token` is a root option that takes the next token as its value.
fn takes_value(token: &str) -> (r: bool)
    ensures
        r == root_option_with_value(token@),
{
    if text::contains_char(token, '=') {
        return false;
    }
    let options = root_options();
    let ghost views = crate::grammar::option_views(options@);
    let mut i: usize = 0;
    while i < options.len()
        invariant
            i <= options@.len(),
            views == crate::grammar::option_views(options@),
            views == root_options_spec(),
            !token@.contains('='),
            forall|j: int|
                0 <= j < i ==> !(names_option(#[trigger] root_options_spec()[j], token@)
                    && root_options_spec()[j].arity != Arity::Flag),
        decreases options@.len() - i,
    {
        assert(options@[i as int]@ == views[i as int]);
        if options[i].named_by(token) && options[i].arity != Arity::Flag {
            assert(names_option(root_options_spec()[i as int], token@));
            return true;
        }
        i += 1;
    }
    false
}

/// Index of the first token that is not a root option or one of its values.
///
/// That token is where the subcommand goes, whether or not it names a real one.
pub fn first_operand(args: &[String]) -> (r: Option<usize>)
    ensures
        match r {
            Some(index) => first_operand_from(text::texts(args@), 0) == Some(index as int) && index
                < args@.len(),
            None => first_operand_from(text::texts(args@), 0) is None,
        },
{
    let ghost all = text::texts(args@);
    let total: usize = args.len();
    let mut index: usize = 0;
    while index < args.len()
        invariant
            index <= args@.len() == total,
            all == text::texts(args@),
            first_operand_from(all, 0) == first_operand_from(all, index as int),
        decreases args@.len() - index,
    {
        let token = args[index].as_str();
        assert(token@ == all[index as int]);
        if text::equal(token, "--") {
            index += 1;
            continue;
        }
        if is_option_like(token) {
            let with_value = takes_value(token);
            index += 1;
            if with_value && index < args.len() && !is_option_like(args[index].as_str()) {
                index += 1;
            }
            continue;
        }
        return Some(index);
    }
    None
}

/// Resolves the subcommand named in the arguments, if it names a known one.
pub fn locate_command(args: &[String]) -> (r: Option<(usize, CommandSpec)>)
    ensures
        match r {
            Some(found) => locate_spec(text::texts(args@)) == Some((found.0 as int, found.1@))
                && found.0 < args@.len(),
            None => locate_spec(text::texts(args@)) is None,
        },
{
    match first_operand(args) {
        Some(index) => {
            assert(args@[index as int]@ == text::texts(args@)[index as int]);
            match find(args[index].as_str()) {
                Some(command) => Some((index, command)),
                None => None,
            }
        },
        None => None,
    }
}

/// What the parser found wrong.
#[derive(Debug, Clone, Copy, PartialEq, Eq, Structural)]
pub enum ParseFailure {
    /// The subcommand is none that exists.
    InvalidSubcommand,
    /// An argument that nothing takes.
    UnknownArgument,
    /// More values than there is room for.
    TooManyValues,
    /// A required argument is not there.
    MissingRequiredArgument,
    /// A value that is not accepted.
    InvalidValue,
    /// An option has fewer values than it needs.
    TooFewValues,
    /// An option's value is not attached with `=`.
    NoEquals,
    /// Anything else.
    Other,
}

/// One of the brackets that usage lines put around a value's name.
pub open spec fn is_bracket(c: char) -> bool {
    c == '<' || c == '>' || c == '[' || c == ']'
}

/// `s` without the brackets around it.
pub open spec fn unbracketed(s: Seq<char>) -> Seq<char> {
    text::trimmed(s, |c: char| is_bracket(c))
}

/// What is said where the failure names nothing to speak of.
pub open spec fn fallback_spec() -> Seq<char> {
    "invalid arguments"@
}

/// The wording of an argument that is one too many.
pub open spec fn too_many_spec(token: Seq<char>, args: Seq<Seq<char>>) -> Seq<char> {
    match locate_spec(args) {
        Some((index, command)) => {
            let provided = operands_from(
                command.options + root_options_spec(),
                args.skip(index + 1),
                0,
            );
            let expected = match command.max_operands {
                Some(n) => n as int,
                None => provided,
            };
            "too many arguments for '"@ + command.name + "'. Expected "@ + text::decimal_spec(
                expected,
            ) + " arguments but got "@ + text::decimal_spec(provided) + "."@
        },
        None => "unknown command '"@ + token + "'"@,
    }
}

/// The wording of a failure. `subcommand` and `argument` are what the parser says the failure is
/// about, brackets included.
pub open spec fn message_spec(
    kind: ParseFailure,
    subcommand: Option<Seq<char>>,
    argument: Option<Seq<char>>,
    args: Seq<Seq<char>>,
) -> Seq<char> {
    match kind {
        ParseFailure::InvalidSubcommand => match subcommand {
            Some(name) => "unknown command '"@ + unbracketed(name) + "'"@,
            None => fallback_spec(),
        },
        ParseFailure::UnknownArgument | ParseFailure::TooManyValues => match argument {
            Some(raw) => {
                let token = unbracketed(raw);
                if token.len() > 0 && token[0] == '-' {
                    "unknown option '"@ + token + "'"@
                } else {
                    too_many_spec(token, args)
                }
            },
            None => fallback_spec(),
        },
        ParseFailure::MissingRequiredArgument => match argument {
            Some(raw) => "missing required argument '"@ + unbracketed(
                text::without_suffix(text::first_line_spec(unbracketed(raw)), "..."@),
            ) + "'"@,
            None => fallback_spec(),
        },
        ParseFailure::InvalidValue | ParseFailure::TooFewValues | ParseFailure::NoEquals => {
            let id = match argument {
                Some(raw) => unbracketed(raw),
                None => Seq::empty(),
            };
            let options = match locate_spec(args) {
                Some((_, command)) => command.options,
                None => root_options_spec(),
            };
            let key = without_dashes(text::first_word_or_all(id));
            match display_spec(options + root_options_spec(), key, 0) {
                Some(display) => "option '"@ + display + "' argument missing"@,
                None => fallback_spec(),
            }
        },
        ParseFailure::Other => fallback_spec(),
    }
}

/// `s` without the brackets around it.
fn unbracket(s: &str) -> (r: String)
    ensures
        r@ == unbracketed(s@),
{
    let cs = text::chars_of(s);
    let ghost bracket = |c: char| is_bracket(c);
    let mut from: usize = 0;
    while from < cs.len() && (cs[from] == '<' || cs[from] == '>' || cs[from] == '[' || cs[from]
        == ']')
        invariant
            from <= cs@.len(),
            cs@ == s@,
            bracket == |c: char| is_bracket(c),
            text::skip_while(s@, bracket, 0) == text::skip_while(s@, bracket, from as int),
        decreases cs@.len() - from,
    {
        from += 1;
    }
    let mut end: usize = cs.len();
    while end > from && (cs[end - 1] == '<' || cs[end - 1] == '>' || cs[end - 1] == '[' || cs[end
        - 1] == ']')
        invariant
            from <= end <= cs@.len(),
            cs@ == s@,
            bracket == |c: char| is_bracket(c),
            text::back_while(s@, bracket, from as int, s@.len() as int) == text::back_while(
                s@,
                bracket,
                from as int,
                end as int,
            ),
        decreases end - from,
    {
        end -= 1;
    }
    text::string_of(&cs, from, end)
}

/// What is said where the failure names nothing to speak of.
fn fallback_usage() -> (r: String)
    ensures
        r@ == fallback_spec(),
{
    "invalid arguments".to_owned()
}

/// `before`, `what` and `after`, one after the other.
fn quoted(before: &str, what: &str, after: &str) -> (r: String)
    ensures
        r@ == before@ + what@ + after@,
{
    let mut r = before.to_owned();
    r.append(what);
    r.append(after);
    r
}

/// The wording of an argument that is one too many.
fn too_many(token: &str, args: &[String]) -> (r: String)
    ensures
        r@ == too_many_spec(token@, text::texts(args@)),
{
    match locate_command(args) {
        Some((index, command)) => {
            let total: usize = args.len();
            let rest = slice_subrange(args, index + 1, total);
            assert(text::texts(rest@) =~= text::texts(args@).skip(index + 1));
            let provided: usize = command.count_operands(rest);
            let expected: usize = match command.max_operands {
                Some(n) => n,
                None => provided,
            };
            let mut r = quoted("too many arguments for '", command.name, "'. Expected ");
            r.append(text::decimal(expected as u64).as_str());
            r.append(" arguments but got ");
            r.append(text::decimal(provided as u64).as_str());
            r.append(".");
            r
        },
        None => quoted("unknown command '", token, "'"),
    }
}

/// Words a parse failure. `subcommand` and `argument` are what the parser says the failure is
/// about.
pub fn commander_message(
    kind: ParseFailure,
    subcommand: Option<&str>,
    argument: Option<&str>,
    args: &[String],
) -> (r: String)
    ensures
        r@ == message_spec(
            kind,
            text::str_of(subcommand),
            text::str_of(argument),
            text::texts(args@),
        ),
{
    match kind {
        ParseFailure::InvalidSubcommand => match subcommand {
            Some(raw) => quoted("unknown command '", unbracket(raw).as_str(), "'"),
            None => fallback_usage(),
        },
        ParseFailure::UnknownArgument | ParseFailure::TooManyValues => match argument {
            Some(raw) => {
                let token = unbracket(raw);
                let cs = text::chars_of(token.as_str());
                if cs.len() > 0 && cs[0] == '-' {
                    quoted("unknown option '", token.as_str(), "'")
                } else {
                    too_many(token.as_str(), args)
                }
            },
            None => fallback_usage(),
        },
        ParseFailure::MissingRequiredArgument => match argument {
            Some(raw) => {
                let names = unbracket(raw);
                // Every missing argument is named, one to a line; only the first is reported. Dots
                // behind it say that it may be repeated.
                let first = text::first_line(names.as_str());
                let first = unbracket(text::strip_suffix(first.as_str(), "...").as_str());
                quoted("missing required argument '", first.as_str(), "'")
            },
            None => fallback_usage(),
        },
        ParseFailure::InvalidValue | ParseFailure::TooFewValues | ParseFailure::NoEquals => {
            let id = match argument {
                Some(raw) => unbracket(raw),
                None => String::new(),
            };
            let word = text::first_word(id.as_str());
            let key = if word.as_str().is_empty() {
                strip_dashes(id.as_str())
            } else {
                strip_dashes(word.as_str())
            };
            let display = match locate_command(args) {
                Some((_, command)) => option_display(Some(&command), key.as_str()),
                None => option_display(None, key.as_str()),
            };
            match display {
                Some(display) => quoted("option '", display, "' argument missing"),
                None => fallback_usage(),
            }
        },
        ParseFailure::Other => fallback_usage(),
    }
}

/// A token that is passed over in the search for a subcommand: an option, a bare `--`, or the value of
/// a root option that takes one.
pub open spec fn passed_over(args: Seq<Seq<char>>, i: int) -> bool {
    ||| option_like(args[i])
    ||| args[i] == "--"@
    ||| i > 0 && option_like(args[i - 1]) && root_option_with_value(args[i - 1])
}

/// The first operand is no option and no bare `--`, and everything before it is passed over; where
/// there is none, everything is.
pub proof fn the_first_operand_is_the_first(args: Seq<Seq<char>>, from: int)
    requires
        0 <= from,
    ensures
        match first_operand_from(args, from) {
            Some(i) => from <= i < args.len() && !option_like(args[i]) && args[i] != "--"@
                && forall|j: int| from <= j < i ==> passed_over(args, j),
            None => forall|j: int| from <= j < args.len() ==> passed_over(args, j),
        },
    decreases args.len() - from,
{
    if from < args.len() {
        if args[from] == "--"@ {
            the_first_operand_is_the_first(args, from + 1);
        } else if option_like(args[from]) {
            if root_option_with_value(args[from]) && from + 1 < args.len() && !option_like(
                args[from + 1],
            ) {
                the_first_operand_is_the_first(args, from + 2);
                assert(passed_over(args, from + 1));
            } else {
                the_first_operand_is_the_first(args, from + 1);
            }
            assert(passed_over(args, from));
        }
    }
}

/// The subcommand is what the first operand names, whatever options come before it.
pub proof fn the_subcommand_is_the_first_operand(args: Seq<Seq<char>>)
    ensures
        match locate_spec(args) {
            Some((index, command)) => first_operand_from(args, 0) == Some(index) && find_spec(
                commands_spec(),
                args[index],
                0,
            ) == Some(command),
            None => first_operand_from(args, 0) is None || find_spec(
                commands_spec(),
                args[first_operand_from(args, 0)->0],
                0,
            ) is None,
        },
        args.len() > 0 && !option_like(args[0]) && args[0] != "--"@ ==> first_operand_from(args, 0)
            == Some(0int),
{
}

/// Brackets around a text are dropped, and only those.
pub proof fn brackets_around_a_text_are_dropped(open: char, s: Seq<char>, close: char)
    requires
        open == '<' || open == '[',
        close == '>' || close == ']',
        s.len() > 0,
        s[0] != '<' && s[0] != '[' && s[0] != '>' && s[0] != ']',
        s.last() != '<' && s.last() != '[' && s.last() != '>' && s.last() != ']',
    ensures
        unbracketed(seq![open] + s + seq![close]) == s,
        unbracketed(s) == s,
{
    let bracket = |c: char| is_bracket(c);
    let whole = seq![open] + s + seq![close];
    let n = whole.len() as int;
    let m = s.len() as int;
    assert(whole[0] == open && whole[1] == s[0] && whole[n - 1] == close && whole[n - 2] == s[m
        - 1]);
    text::lemma_skip_to(whole, bracket, 0, 1);
    text::lemma_skip_to(s, bracket, 0, 0);
    reveal_with_fuel(text::back_while, 2);
    assert(text::back_while(whole, bracket, 1, n) == n - 1);
    assert(text::back_while(s, bracket, 0, m) == m);
    assert(whole.subrange(1, n - 1) =~= s);
    assert(s.subrange(0, m) =~= s);
}

/// What is said of a failure names what it is about: the command that is unknown, the option that is,
/// the argument that is missing. What names nothing is said to be invalid.
pub proof fn a_failure_names_what_it_is_about(
    name: Seq<char>,
    option: Seq<char>,
    args: Seq<Seq<char>>,
)
    ensures
        message_spec(ParseFailure::InvalidSubcommand, Some(name), None, args)
            == "unknown command '"@ + unbracketed(name) + "'"@,
        unbracketed(option).len() > 0 && unbracketed(option)[0] == '-' ==> message_spec(
            ParseFailure::UnknownArgument,
            None,
            Some(option),
            args,
        ) == "unknown option '"@ + unbracketed(option) + "'"@,
        (unbracketed(option).len() == 0 || unbracketed(option)[0] != '-') && locate_spec(args) is None
            ==> message_spec(ParseFailure::UnknownArgument, None, Some(option), args)
            == "unknown command '"@ + unbracketed(option) + "'"@,
        message_spec(ParseFailure::TooManyValues, None, Some(option), args) == message_spec(
            ParseFailure::UnknownArgument,
            None,
            Some(option),
            args,
        ),
        message_spec(ParseFailure::InvalidSubcommand, None, Some(option), args)
            == "invalid arguments"@,
        message_spec(ParseFailure::UnknownArgument, Some(name), None, args) == "invalid arguments"@,
        message_spec(ParseFailure::MissingRequiredArgument, Some(name), None, args)
            == "invalid arguments"@,
        message_spec(ParseFailure::Other, Some(name), Some(option), args) == "invalid arguments"@,
{
}

/// What is said of an argument too many counts the operands the command takes, and those it was given.
pub proof fn an_argument_too_many_is_counted(token: Seq<char>, args: Seq<Seq<char>>)
    requires
        locate_spec(args) is Some,
        (locate_spec(args)->0).1.max_operands is Some,
    ensures
        ({
            let (index, command) = locate_spec(args)->0;
            too_many_spec(token, args) == "too many arguments for '"@ + command.name
                + "'. Expected "@ + text::decimal_spec(command.max_operands->0 as int)
                + " arguments but got "@ + text::decimal_spec(
                operands_from(command.options + root_options_spec(), args.skip(index + 1), 0),
            ) + "."@
        }),
{
}

} // verus!
