//! The command grammar, described once and used for help lookup, operand counting and error
//! wording.

use vstd::prelude::*;
use crate::help_text;
use crate::text;

verus! {

/// How many values an option consumes.
#[derive(Debug, Clone, Copy, PartialEq, Eq, Structural)]
pub enum Arity {
    /// A boolean flag.
    Flag,
    /// `[value]`: takes the next token unless it looks like an option.
    Optional,
    /// `<value...>`: takes every following token until one looks like an option.
    Many,
}

/// One option.
#[derive(Debug, Clone, Copy)]
pub struct OptionSpec {
    /// The letter of its short form.
    pub short: Option<char>,
    /// Its long form, dashes included.
    pub long: &'static str,
    /// How many values it consumes.
    pub arity: Arity,
    /// How it is written in `option '...' argument missing`.
    pub display: &'static str,
}

/// One subcommand.
#[derive(Debug, Clone)]
pub struct CommandSpec {
    /// Its name.
    pub name: &'static str,
    /// The other names it goes by.
    pub aliases: Vec<&'static str>,
    /// Maximum positional operands, or `None` when variadic.
    pub max_operands: Option<usize>,
    /// Its own options.
    pub options: Vec<OptionSpec>,
    /// Its help page.
    pub help: &'static str,
}

/// An option, as text.
pub ghost struct OptionView {
    pub short: Option<char>,
    pub long: Seq<char>,
    pub arity: Arity,
    pub display: Seq<char>,
}

/// A subcommand, as text.
pub ghost struct CommandView {
    pub name: Seq<char>,
    pub aliases: Seq<Seq<char>>,
    pub max_operands: Option<usize>,
    pub options: Seq<OptionView>,
    pub help: Seq<char>,
}

impl View for OptionSpec {
    type V = OptionView;

    open spec fn view(&self) -> OptionView {
        OptionView {
            short: self.short,
            long: self.long@,
            arity: self.arity,
            display: self.display@,
        }
    }
}

/// The options, as text.
pub open spec fn option_views(options: Seq<OptionSpec>) -> Seq<OptionView> {
    Seq::new(options.len(), |i: int| options[i]@)
}

/// The names, as text.
pub open spec fn name_views(names: Seq<&'static str>) -> Seq<Seq<char>> {
    Seq::new(names.len(), |i: int| names[i]@)
}

impl View for CommandSpec {
    type V = CommandView;

    open spec fn view(&self) -> CommandView {
        CommandView {
            name: self.name@,
            aliases: name_views(self.aliases@),
            max_operands: self.max_operands,
            options: option_views(self.options@),
            help: self.help@,
        }
    }
}

/// The commands, as text.
pub open spec fn command_views(commands: Seq<CommandSpec>) -> Seq<CommandView> {
    Seq::new(commands.len(), |i: int| commands[i]@)
}

/// A token that would be read as an option rather than a value.
pub open spec fn option_like(token: Seq<char>) -> bool {
    token.len() > 1 && token[0] == '-'
}

/// `token` is how `option` is written: its long form, or a dash and its letter.
pub open spec fn names_option(option: OptionView, token: Seq<char>) -> bool {
    token == option.long || (option.short is Some && (option.short->0 as u32) < 128 && token
        == seq!['-', option.short->0])
}

/// The first of the options from `from` on that `token` names.
pub open spec fn find_option(options: Seq<OptionView>, token: Seq<char>, from: int) -> Option<
    OptionView,
>
    decreases options.len() - from,
{
    if from < 0 || from >= options.len() {
        None
    } else if names_option(options[from], token) {
        Some(options[from])
    } else {
        find_option(options, token, from + 1)
    }
}

/// What stands before the first `=` of a token.
pub open spec fn before_equals(token: Seq<char>) -> Seq<char> {
    match text::first_index(token, '=', 0) {
        Some(at) => token.take(at),
        None => token,
    }
}

/// The first position at or after `from` that does not hold a plain value.
pub open spec fn after_values(args: Seq<Seq<char>>, from: int) -> int
    decreases args.len() - from,
{
    if from < 0 || from >= args.len() || option_like(args[from]) {
        from
    } else {
        after_values(args, from + 1)
    }
}

/// The position after the option at `at` and the values it consumes.
pub open spec fn after_option(options: Seq<OptionView>, args: Seq<Seq<char>>, at: int) -> int {
    if args[at].contains('=') {
        at + 1
    } else {
        match find_option(options, before_equals(args[at]), 0) {
            Some(option) => match option.arity {
                Arity::Flag => at + 1,
                Arity::Optional => if at + 1 < args.len() && !option_like(args[at + 1]) {
                    at + 2
                } else {
                    at + 1
                },
                Arity::Many => after_values(args, at + 1),
            },
            None => at + 1,
        }
    }
}

/// `after_values` stays between its start and the end.
pub proof fn lemma_after_values(args: Seq<Seq<char>>, from: int)
    requires
        0 <= from <= args.len(),
    ensures
        from <= after_values(args, from) <= args.len(),
    decreases args.len() - from,
{
    if from < args.len() && !option_like(args[from]) {
        lemma_after_values(args, from + 1);
    }
}

/// The positional operands at or after `from`: what is neither an option nor a value of one.
/// After a bare `--` everything is an operand.
pub open spec fn operands_from(
    options: Seq<OptionView>,
    args: Seq<Seq<char>>,
    from: int,
) -> int
    decreases args.len() - from,
{
    if from < 0 || from >= args.len() {
        0
    } else if args[from] == "--"@ {
        args.len() - from - 1
    } else if !option_like(args[from]) {
        1 + operands_from(options, args, from + 1)
    } else {
        proof {
            lemma_after_values(args, from + 1);
        }
        operands_from(options, args, after_option(options, args, from))
    }
}

/// The root command's own options, which are accepted after a subcommand too.
pub open spec fn root_options_spec() -> Seq<OptionView> {
    seq![
        OptionView {
            short: Some('c'),
            long: "--config"@,
            arity: Arity::Optional,
            display: "-c, --config <file/folder path>"@,
        },
        OptionView {
            short: Some('p'),
            long: "--plain"@,
            arity: Arity::Flag,
            display: "-p, --plain"@,
        },
    ]
}

/// `sync`.
pub open spec fn sync_spec() -> CommandView {
    CommandView {
        name: "sync"@,
        aliases: seq!["s"@],
        max_operands: Some(0),
        options: seq![
            OptionView {
                short: Some('f'),
                long: "--force"@,
                arity: Arity::Flag,
                display: "-f, --force"@,
            },
        ],
        help: help_text::SYNC_HELP@,
    }
}

/// `update`. Its option has no letter: `-p` means `--plain` everywhere.
pub open spec fn update_spec() -> CommandView {
    CommandView {
        name: "update"@,
        aliases: seq!["upgrade"@, "bump"@, "up"@, "u"@],
        max_operands: None,
        options: seq![
            OptionView { short: None, long: "--pr"@, arity: Arity::Flag, display: "--pr"@ },
        ],
        help: help_text::UPDATE_HELP@,
    }
}

/// `outdated`.
pub open spec fn outdated_spec() -> CommandView {
    CommandView {
        name: "outdated"@,
        aliases: seq!["o"@],
        max_operands: Some(0),
        options: seq![],
        help: help_text::OUTDATED_HELP@,
    }
}

/// `install`.
pub open spec fn install_spec() -> CommandView {
    CommandView {
        name: "install"@,
        aliases: seq!["add"@, "i"@, "a"@],
        max_operands: None,
        options: seq![
            OptionView {
                short: Some('n'),
                long: "--name"@,
                arity: Arity::Optional,
                display: "-n, --name [name]"@,
            },
            OptionView {
                short: Some('f'),
                long: "--files"@,
                arity: Arity::Many,
                display: "-f, --files <files...>"@,
            },
            OptionView {
                short: None,
                long: "--refresh"@,
                arity: Arity::Flag,
                display: "--refresh"@,
            },
            OptionView {
                short: None,
                long: "--dry-run"@,
                arity: Arity::Flag,
                display: "--dry-run"@,
            },
        ],
        help: help_text::INSTALL_HELP@,
    }
}

/// `uninstall`.
pub open spec fn uninstall_spec() -> CommandView {
    CommandView {
        name: "uninstall"@,
        aliases: seq!["remove"@, "delete"@, "del"@, "rm"@, "un"@, "r"@],
        max_operands: None,
        options: seq![],
        help: help_text::UNINSTALL_HELP@,
    }
}

/// `list`.
pub open spec fn list_spec() -> CommandView {
    CommandView {
        name: "list"@,
        aliases: seq!["ls"@],
        max_operands: Some(0),
        options: seq![],
        help: help_text::LIST_HELP@,
    }
}

/// `config`, whose operands are a subcommand of its own and that one's operand.
pub open spec fn config_spec() -> CommandView {
    CommandView {
        name: "config"@,
        aliases: seq!["cfg"@],
        max_operands: Some(2),
        options: seq![],
        help: help_text::CONFIG_HELP@,
    }
}

/// `login`.
pub open spec fn login_spec() -> CommandView {
    CommandView {
        name: "login"@,
        aliases: seq!["auth"@],
        max_operands: Some(1),
        options: seq![],
        help: help_text::LOGIN_HELP@,
    }
}

/// `completions`.
pub open spec fn completions_spec() -> CommandView {
    CommandView {
        name: "completions"@,
        aliases: seq![],
        max_operands: Some(1),
        options: seq![],
        help: help_text::COMPLETIONS_HELP@,
    }
}

/// Every subcommand, in the order the root help lists them.
pub open spec fn commands_spec() -> Seq<CommandView> {
    seq![
        sync_spec(),
        update_spec(),
        outdated_spec(),
        install_spec(),
        uninstall_spec(),
        list_spec(),
        config_spec(),
        login_spec(),
        completions_spec(),
    ]
}

/// `token` is the command's name or one of its aliases.
pub open spec fn names_command(command: CommandView, token: Seq<char>) -> bool {
    command.name == token || command.aliases.contains(token)
}

/// The first command from `from` on that `token` names.
pub open spec fn find_spec(commands: Seq<CommandView>, token: Seq<char>, from: int) -> Option<
    CommandView,
>
    decreases commands.len() - from,
{
    if from < 0 || from >= commands.len() {
        None
    } else if names_command(commands[from], token) {
        Some(commands[from])
    } else {
        find_spec(commands, token, from + 1)
    }
}

/// `s` without its leading dashes.
pub open spec fn without_dashes(s: Seq<char>) -> Seq<char> {
    s.skip(text::skip_while(s, |c: char| c == '-', 0))
}

/// How the first option from `from` on whose long form is `id` (dashes aside) is written.
pub open spec fn display_spec(options: Seq<OptionView>, id: Seq<char>, from: int) -> Option<
    Seq<char>,
>
    decreases options.len() - from,
{
    if from < 0 || from >= options.len() {
        None
    } else if without_dashes(options[from].long) == id {
        Some(options[from].display)
    } else {
        display_spec(options, id, from + 1)
    }
}

/// Whether a token would be read as an option rather than a value.
pub fn is_option_like(token: &str) -> (r: bool)
    ensures
        r == option_like(token@),
{
    let cs = text::chars_of(token);
    cs.len() > 1 && cs[0] == '-'
}

impl OptionSpec {
    /// Whether `token` is how this option is written.
    pub fn named_by(&self, token: &str) -> (r: bool)
        ensures
            r == names_option(self@, token@),
    {
        if text::equal(token, self.long) {
            return true;
        }
        match self.short {
            Some(short) => {
                let cs = text::chars_of(token);
                let r = (short as u32) < 128 && cs.len() == 2 && cs[0] == '-' && cs[1] == short;
                assert(r ==> cs@ =~= seq!['-', short]);
                r
            },
            None => false,
        }
    }
}

/// What stands before the first `=` of a token.
fn option_name(token: &str) -> (r: String)
    ensures
        r@ == before_equals(token@),
{
    let cs = text::chars_of(token);
    match text::find_char(&cs, '=', 0) {
        Some(at) => {
            assert(cs@.subrange(0, at as int) == cs@.take(at as int));
            text::string_of(&cs, 0, at)
        },
        None => token.to_owned(),
    }
}

/// The options of `own` followed by the root command's.
fn with_root_options(own: &Vec<OptionSpec>) -> (r: Vec<OptionSpec>)
    ensures
        option_views(r@) == option_views(own@) + root_options_spec(),
{
    let mut all: Vec<OptionSpec> = Vec::new();
    let mut i: usize = 0;
    while i < own.len()
        invariant
            i <= own@.len(),
            all@ == own@.take(i as int),
        decreases own@.len() - i,
    {
        all.push(own[i]);
        i += 1;
        assert(all@ == own@.take(i as int));
    }
    let root = root_options();
    let mut i: usize = 0;
    while i < root.len()
        invariant
            i <= root@.len(),
            all@ == own@ + root@.take(i as int),
        decreases root@.len() - i,
    {
        all.push(root[i]);
        i += 1;
        assert(all@ == own@ + root@.take(i as int));
    }
    assert(option_views(all@) =~= option_views(own@) + option_views(root@));
    all
}

/// How many values the first of `options` that `token` names consumes, from none to many.
fn arity_of(options: &Vec<OptionSpec>, token: &str) -> (r: Arity)
    ensures
        r == match find_option(option_views(options@), token@, 0) {
            Some(option) => option.arity,
            None => Arity::Flag,
        },
{
    let mut i: usize = 0;
    while i < options.len()
        invariant
            i <= options@.len(),
            find_option(option_views(options@), token@, 0) == find_option(
                option_views(options@),
                token@,
                i as int,
            ),
        decreases options@.len() - i,
    {
        if options[i].named_by(token) {
            return options[i].arity;
        }
        i += 1;
    }
    Arity::Flag
}

impl CommandSpec {
    /// Whether `token` names this command.
    pub fn matches(&self, token: &str) -> (r: bool)
        ensures
            r == names_command(self@, token@),
    {
        if text::equal(self.name, token) {
            return true;
        }
        let mut i: usize = 0;
        while i < self.aliases.len()
            invariant
                i <= self.aliases@.len(),
                self.name@ != token@,
                forall|j: int| 0 <= j < i ==> (#[trigger] self.aliases@[j])@ != token@,
            decreases self.aliases@.len() - i,
        {
            if text::equal(self.aliases[i], token) {
                assert(self@.aliases[i as int] == token@);
                return true;
            }
            i += 1;
        }
        assert(!self@.aliases.contains(token@));
        false
    }

    /// Counts positional operands in the arguments after the command.
    ///
    /// Root options are global, so `vendor sync -c path` has none.
    pub fn count_operands(&self, args: &[String]) -> (r: usize)
        ensures
            r == operands_from(self@.options + root_options_spec(), text::texts(args@), 0),
    {
        let options = with_root_options(&self.options);
        let ghost views = self@.options + root_options_spec();
        let ghost all = text::texts(args@);
        let total: usize = args.len();
        let mut operands: usize = 0;
        let mut index: usize = 0;
        while index < args.len()
            invariant
                index <= args@.len() == all.len() == total,
                operands <= index,
                views == option_views(options@),
                views == self@.options + root_options_spec(),
                all == text::texts(args@),
                operands + operands_from(views, all, index as int) == operands_from(views, all, 0),
            decreases args@.len() - index,
        {
            let token = args[index].as_str();
            assert(token@ == all[index as int]);
            if text::equal(token, "--") {
                return operands + (args.len() - index - 1);
            }
            if !is_option_like(token) {
                operands += 1;
                index += 1;
                continue;
            }
            proof {
                lemma_after_values(all, index + 1);
            }
            let ghost at = index as int;
            let has_value = text::contains_char(token, '=');
            let name = option_name(token);
            let arity = arity_of(&options, name.as_str());
            index += 1;
            if has_value {
                continue;
            }
            match arity {
                Arity::Flag => {},
                Arity::Optional => {
                    if index < args.len() && !is_option_like(args[index].as_str()) {
                        index += 1;
                    }
                },
                Arity::Many => {
                    while index < args.len() && !is_option_like(args[index].as_str())
                        invariant
                            at < index <= args@.len() == all.len(),
                            all == text::texts(args@),
                            after_values(all, at + 1) == after_values(all, index as int),
                        decreases args@.len() - index,
                    {
                        index += 1;
                    }
                },
            }
            assert(index == after_option(views, all, at));
        }
        operands
    }
}

/// The root command's own options.
pub fn root_options() -> (r: Vec<OptionSpec>)
    ensures
        option_views(r@) == root_options_spec(),
{
    // `-c` needs a value, but a missing one is the parser's to reject.
    let r = vec![
        OptionSpec {
            short: Some('c'),
            long: "--config",
            arity: Arity::Optional,
            display: "-c, --config <file/folder path>",
        },
        OptionSpec {
            short: Some('p'),
            long: "--plain",
            arity: Arity::Flag,
            display: "-p, --plain",
        },
    ];
    assert(option_views(r@) =~= root_options_spec());
    r
}

/// `sync`.
fn sync_command() -> (r: CommandSpec)
    ensures
        r@ == sync_spec(),
{
    let r = CommandSpec {
        name: "sync",
        aliases: vec!["s"],
        max_operands: Some(0),
        options: vec![
            OptionSpec {
                short: Some('f'),
                long: "--force",
                arity: Arity::Flag,
                display: "-f, --force",
            },
        ],
        help: help_text::SYNC_HELP,
    };
    assert(r@.aliases =~= sync_spec().aliases);
    assert(r@.options =~= sync_spec().options);
    r
}

/// `update`.
fn update_command() -> (r: CommandSpec)
    ensures
        r@ == update_spec(),
{
    let r = CommandSpec {
        name: "update",
        aliases: vec!["upgrade", "bump", "up", "u"],
        max_operands: None,
        options: vec![
            OptionSpec {
                short: None,
                long: "--pr",
                arity: Arity::Flag,
                display: "--pr",
            },
        ],
        help: help_text::UPDATE_HELP,
    };
    assert(r@.aliases =~= update_spec().aliases);
    assert(r@.options =~= update_spec().options);
    r
}

/// `outdated`.
fn outdated_command() -> (r: CommandSpec)
    ensures
        r@ == outdated_spec(),
{
    let r = CommandSpec {
        name: "outdated",
        aliases: vec!["o"],
        max_operands: Some(0),
        options: Vec::new(),
        help: help_text::OUTDATED_HELP,
    };
    assert(r@.aliases =~= outdated_spec().aliases);
    assert(r@.options =~= outdated_spec().options);
    r
}

/// `install`.
fn install_command() -> (r: CommandSpec)
    ensures
        r@ == install_spec(),
{
    let r = CommandSpec {
        name: "install",
        aliases: vec!["add", "i", "a"],
        max_operands: None,
        options: vec![
            OptionSpec {
                short: Some('n'),
                long: "--name",
                arity: Arity::Optional,
                display: "-n, --name [name]",
            },
            OptionSpec {
                short: Some('f'),
                long: "--files",
                arity: Arity::Many,
                display: "-f, --files <files...>",
            },
            OptionSpec {
                short: None,
                long: "--refresh",
                arity: Arity::Flag,
                display: "--refresh",
            },
            OptionSpec {
                short: None,
                long: "--dry-run",
                arity: Arity::Flag,
                display: "--dry-run",
            },
        ],
        help: help_text::INSTALL_HELP,
    };
    assert(r@.aliases =~= install_spec().aliases);
    assert(r@.options =~= install_spec().options);
    r
}

/// `uninstall`.
fn uninstall_command() -> (r: CommandSpec)
    ensures
        r@ == uninstall_spec(),
{
    let r = CommandSpec {
        name: "uninstall",
        aliases: vec!["remove", "delete", "del", "rm", "un", "r"],
        max_operands: None,
        options: Vec::new(),
        help: help_text::UNINSTALL_HELP,
    };
    assert(r@.aliases =~= uninstall_spec().aliases);
    assert(r@.options =~= uninstall_spec().options);
    r
}

/// `list`.
fn list_command() -> (r: CommandSpec)
    ensures
        r@ == list_spec(),
{
    let r = CommandSpec {
        name: "list",
        aliases: vec!["ls"],
        max_operands: Some(0),
        options: Vec::new(),
        help: help_text::LIST_HELP,
    };
    assert(r@.aliases =~= list_spec().aliases);
    assert(r@.options =~= list_spec().options);
    r
}

/// `config`.
fn config_command() -> (r: CommandSpec)
    ensures
        r@ == config_spec(),
{
    let r = CommandSpec {
        name: "config",
        aliases: vec!["cfg"],
        max_operands: Some(2),
        options: Vec::new(),
        help: help_text::CONFIG_HELP,
    };
    assert(r@.aliases =~= config_spec().aliases);
    assert(r@.options =~= config_spec().options);
    r
}

/// `login`.
fn login_command() -> (r: CommandSpec)
    ensures
        r@ == login_spec(),
{
    let r = CommandSpec {
        name: "login",
        aliases: vec!["auth"],
        max_operands: Some(1),
        options: Vec::new(),
        help: help_text::LOGIN_HELP,
    };
    assert(r@.aliases =~= login_spec().aliases);
    assert(r@.options =~= login_spec().options);
    r
}

/// `completions`.
fn completions_command() -> (r: CommandSpec)
    ensures
        r@ == completions_spec(),
{
    let r = CommandSpec {
        name: "completions",
        aliases: Vec::new(),
        max_operands: Some(1),
        options: Vec::new(),
        help: help_text::COMPLETIONS_HELP,
    };
    assert(r@.aliases =~= completions_spec().aliases);
    assert(r@.options =~= completions_spec().options);
    r
}

/// Every subcommand, in the order the root help lists them.
pub fn commands() -> (r: Vec<CommandSpec>)
    ensures
        command_views(r@) == commands_spec(),
{
    let r = vec![
        sync_command(),
        update_command(),
        outdated_command(),
        install_command(),
        uninstall_command(),
        list_command(),
        config_command(),
        login_command(),
        completions_command(),
    ];
    assert(command_views(r@) =~= commands_spec());
    r
}

/// Looks a command up by name or alias.
pub fn find(token: &str) -> (r: Option<CommandSpec>)
    ensures
        match r {
            Some(command) => find_spec(commands_spec(), token@, 0) == Some(command@),
            None => find_spec(commands_spec(), token@, 0) is None,
        },
{
    let mut all = commands();
    let ghost views = command_views(all@);
    let mut i: usize = 0;
    while i < all.len()
        invariant
            i <= all@.len(),
            views == command_views(all@),
            views == commands_spec(),
            find_spec(views, token@, 0) == find_spec(views, token@, i as int),
        decreases all@.len() - i,
    {
        if all[i].matches(token) {
            assert(all@[i as int]@ == views[i as int]);
            return Some(all.swap_remove(i));
        }
        i += 1;
    }
    None
}

/// `s` without its leading dashes.
pub fn strip_dashes(s: &str) -> (r: String)
    ensures
        r@ == without_dashes(s@),
{
    let cs = text::chars_of(s);
    let ghost dash = |c: char| c == '-';
    let mut from: usize = 0;
    while from < cs.len() && cs[from] == '-'
        invariant
            from <= cs@.len(),
            cs@ == s@,
            dash == |c: char| c == '-',
            text::skip_while(s@, dash, 0) == text::skip_while(s@, dash, from as int),
        decreases cs@.len() - from,
    {
        from += 1;
    }
    assert(cs@.subrange(from as int, cs@.len() as int) == cs@.skip(from as int));
    text::string_of(&cs, from, cs.len())
}

/// Looks an option up across a command and the root, for `argument missing` wording.
pub fn option_display(command: Option<&CommandSpec>, id: &str) -> (r: Option<&'static str>)
    ensures
        ({
            let own = match command {
                Some(c) => c@.options,
                None => root_options_spec(),
            };
            match r {
                Some(display) => display_spec(own + root_options_spec(), id@, 0) == Some(display@),
                None => display_spec(own + root_options_spec(), id@, 0) is None,
            }
        }),
{
    let options = match command {
        Some(c) => with_root_options(&c.options),
        None => with_root_options(&root_options()),
    };
    let ghost views = option_views(options@);
    let ghost own = match command {
        Some(c) => c@.options,
        None => root_options_spec(),
    };
    let mut i: usize = 0;
    while i < options.len()
        invariant
            i <= options@.len(),
            views == option_views(options@),
            views == own + root_options_spec(),
            own == match command {
                Some(c) => c@.options,
                None => root_options_spec(),
            },
            display_spec(views, id@, 0) == display_spec(views, id@, i as int),
        decreases options@.len() - i,
    {
        let long = strip_dashes(options[i].long);
        if text::equal(long.as_str(), id) {
            return Some(options[i].display);
        }
        i += 1;
    }
    None
}

/// Everything after the first bare `--` is an operand, wherever it stands: what is in front of it
/// counts as though nothing came behind.
pub proof fn everything_after_a_double_dash_is_an_operand(
    options: Seq<OptionView>,
    args: Seq<Seq<char>>,
    from: int,
    at: int,
)
    requires
        0 <= from <= at < args.len(),
        args[at] == "--"@,
        forall|i: int| from <= i < at ==> args[i] != "--"@,
    ensures
        operands_from(options, args, from) == operands_from(options, args.take(at), from) + (
        args.len() - at - 1),
    decreases at - from,
{
    reveal_strlit("--");
    if from < at {
        let front = args.take(at);
        assert(front[from] == args[from]);
        if option_like(args[from]) {
            lemma_values_before(args, from + 1, at);
            lemma_after_values(args, from + 1);
            assert(from + 1 < at ==> front[from + 1] == args[from + 1]);
            everything_after_a_double_dash_is_an_operand(
                options,
                args,
                after_option(options, args, from),
                at,
            );
        } else {
            everything_after_a_double_dash_is_an_operand(options, args, from + 1, at);
        }
    }
}

/// The values from `from` on end before an option at `at`, with or without what follows it.
proof fn lemma_values_before(args: Seq<Seq<char>>, from: int, at: int)
    requires
        0 <= from <= at < args.len(),
        option_like(args[at]),
    ensures
        after_values(args, from) <= at,
        after_values(args.take(at), from) == after_values(args, from),
    decreases at - from,
{
    if from < at {
        assert(args.take(at)[from] == args[from]);
        if !option_like(args[from]) {
            lemma_values_before(args, from + 1, at);
        }
    }
}

/// No name and no alias belongs to two commands.
pub proof fn a_name_belongs_to_one_command(token: Seq<char>, i: int, j: int)
    requires
        0 <= i < commands_spec().len(),
        0 <= j < commands_spec().len(),
        names_command(commands_spec()[i], token),
        names_command(commands_spec()[j], token),
    ensures
        i == j,
{
    lemma_place(token, i);
    lemma_place(token, j);
}

/// Where the command that `token` names stands among the commands, told by the token's first two
/// letters and its length.
spec fn place(token: Seq<char>) -> int {
    let first = token[0];
    let second = if token.len() > 1 {
        token[1]
    } else {
        ' '
    };
    if first == 's' {
        0
    } else if first == 'b' || (first == 'u' && second != 'n') {
        1
    } else if first == 'o' {
        2
    } else if first == 'i' || (first == 'a' && second != 'u') {
        3
    } else if first == 'u' || first == 'r' || first == 'd' {
        4
    } else if first == 'l' && second != 'o' {
        5
    } else if first == 'c' && token.len() < 7 {
        6
    } else if first == 'l' || first == 'a' {
        7
    } else {
        8
    }
}

/// A command that `token` names stands in that token's place.
proof fn lemma_place(token: Seq<char>, i: int)
    requires
        0 <= i < commands_spec().len(),
        names_command(commands_spec()[i], token),
    ensures
        place(token) == i,
{
    reveal_strlit("sync");
    reveal_strlit("s");
    reveal_strlit("update");
    reveal_strlit("upgrade");
    reveal_strlit("bump");
    reveal_strlit("up");
    reveal_strlit("u");
    reveal_strlit("outdated");
    reveal_strlit("o");
    reveal_strlit("install");
    reveal_strlit("add");
    reveal_strlit("i");
    reveal_strlit("a");
    reveal_strlit("uninstall");
    reveal_strlit("remove");
    reveal_strlit("delete");
    reveal_strlit("del");
    reveal_strlit("rm");
    reveal_strlit("un");
    reveal_strlit("r");
    reveal_strlit("list");
    reveal_strlit("ls");
    reveal_strlit("config");
    reveal_strlit("cfg");
    reveal_strlit("login");
    reveal_strlit("auth");
    reveal_strlit("completions");
    let command = commands_spec()[i];
    if command.name != token {
        assert(command.aliases[command.aliases.index_of(token)] == token);
    }
    if i == 0 {
        assert(command == sync_spec());
    } else if i == 1 {
        assert(command == update_spec());
    } else if i == 2 {
        assert(command == outdated_spec());
    } else if i == 3 {
        assert(command == install_spec());
    } else if i == 4 {
        assert(command == uninstall_spec());
    } else if i == 5 {
        assert(command == list_spec());
    } else if i == 6 {
        assert(command == config_spec());
    } else if i == 7 {
        assert(command == login_spec());
    } else {
        assert(command == completions_spec());
    }
}

/// A root option is global, so `-c` and its value are no operands wherever a command stands,
/// unless the command gives that letter or name to an option of its own.
pub proof fn the_config_option_and_its_value_are_no_operands(
    options: Seq<OptionView>,
    args: Seq<Seq<char>>,
    at: int,
)
    requires
        0 <= at,
        at + 1 < args.len(),
        args[at] == "-c"@ || args[at] == "--config"@,
        !option_like(args[at + 1]),
        find_option(options, args[at], 0) is None,
    ensures
        operands_from(options + root_options_spec(), args, at) == operands_from(
            options + root_options_spec(),
            args,
            at + 2,
        ),
{
    reveal_strlit("-c");
    reveal_strlit("--config");
    reveal_strlit("--");
    reveal_strlit("--plain");
    let all = options + root_options_spec();
    let token = args[at];
    lemma_find_in_root(options, token, 0);
    assert(token.len() == 2 ==> token =~= seq!['-', 'c']);
    text::lemma_first_index(token, '=', 0);
    assert(!token.contains('='));
    assert(find_option(root_options_spec(), token, 0) == Some(root_options_spec()[0]));
}

/// A token that none of the command's own options claims is looked up among the root's.
proof fn lemma_find_in_root(options: Seq<OptionView>, token: Seq<char>, from: int)
    requires
        0 <= from <= options.len(),
        find_option(options, token, from) is None,
    ensures
        find_option(options + root_options_spec(), token, from) == find_option(
            root_options_spec(),
            token,
            0,
        ),
    decreases options.len() - from,
{
    let all = options + root_options_spec();
    if from < options.len() {
        assert(all[from] == options[from]);
        lemma_find_in_root(options, token, from + 1);
    } else {
        let n = options.len() as int;
        assert(all[n] == root_options_spec()[0]);
        assert(all[n + 1] == root_options_spec()[1]);
        reveal_with_fuel(find_option, 4);
    }
}

/// A command is found by its name and by each of its aliases, and by nothing else.
pub proof fn a_command_is_found_by_its_names(token: Seq<char>, i: int)
    requires
        0 <= i < commands_spec().len(),
    ensures
        token == commands_spec()[i].name || commands_spec()[i].aliases.contains(token) ==> find_spec(
            commands_spec(),
            token,
            0,
        ) == Some(commands_spec()[i]),
        find_spec(commands_spec(), token, 0) matches Some(command) ==> command.name == token
            || command.aliases.contains(token),
{
    lemma_find_spec(commands_spec(), token, 0);
    if names_command(commands_spec()[i], token) {
        let k = choose|k: int|
            0 <= k < commands_spec().len() && #[trigger] names_command(commands_spec()[k], token)
                && find_spec(commands_spec(), token, 0) == Some(commands_spec()[k]);
        a_name_belongs_to_one_command(token, i, k);
    }
}

/// What is found is named, and what is named is found.
proof fn lemma_find_spec(commands: Seq<CommandView>, token: Seq<char>, from: int)
    requires
        0 <= from <= commands.len(),
    ensures
        match find_spec(commands, token, from) {
            Some(command) => exists|k: int|
                from <= k < commands.len() && #[trigger] names_command(commands[k], token) && command
                    == commands[k],
            None => forall|k: int|
                from <= k < commands.len() ==> !#[trigger] names_command(commands[k], token),
        },
    decreases commands.len() - from,
{
    if from < commands.len() && !names_command(commands[from], token) {
        lemma_find_spec(commands, token, from + 1);
    }
}

/// An operand counts once, a flag and a value that is attached to its option count for nothing, and an
/// option that takes one value takes the next token with it unless that is an option itself.
pub proof fn operands_are_what_no_option_takes(
    options: Seq<OptionView>,
    args: Seq<Seq<char>>,
    at: int,
    option: OptionView,
)
    requires
        0 <= at < args.len(),
        args[at] != "--"@,
    ensures
        args[at].len() < 2 || args[at][0] != '-' ==> operands_from(options, args, at) == 1
            + operands_from(options, args, at + 1),
        option_like(args[at]) && args[at].contains('=') ==> operands_from(options, args, at)
            == operands_from(options, args, at + 1),
        option_like(args[at]) && !args[at].contains('=') && find_option(options, args[at], 0)
            == Some(option) ==> {
            &&& option.arity == Arity::Flag ==> operands_from(options, args, at) == operands_from(
                options,
                args,
                at + 1,
            )
            &&& option.arity == Arity::Optional && at + 1 < args.len() && (args[at + 1].len() < 2
                || args[at + 1][0] != '-') ==> operands_from(options, args, at) == operands_from(
                options,
                args,
                at + 2,
            )
            &&& option.arity == Arity::Optional && at + 1 < args.len() && args[at + 1].len() >= 2
                && args[at + 1][0] == '-' ==> operands_from(options, args, at) == operands_from(
                options,
                args,
                at + 1,
            )
        },
        option_like(args[at]) && !args[at].contains('=') && find_option(options, args[at], 0) is None
            ==> operands_from(options, args, at) == operands_from(options, args, at + 1),
{
    text::lemma_first_index(args[at], '=', 0);
    if let Some(i) = text::first_index(args[at], '=', 0) {
        assert(args[at].contains(args[at][i]));
    }
}

/// An option that takes many values takes all that follow, up to the next option.
pub proof fn many_values_end_at_the_next_option(
    options: Seq<OptionView>,
    args: Seq<Seq<char>>,
    at: int,
    end: int,
    option: OptionView,
)
    requires
        0 <= at < end <= args.len(),
        args[at] != "--"@,
        option_like(args[at]),
        !args[at].contains('='),
        find_option(options, args[at], 0) == Some(option),
        option.arity == Arity::Many,
        forall|i: int| at < i < end ==> !option_like(#[trigger] args[i]),
        end < args.len() ==> option_like(args[end]),
    ensures
        operands_from(options, args, at) == operands_from(options, args, end),
{
    text::lemma_first_index(args[at], '=', 0);
    if let Some(i) = text::first_index(args[at], '=', 0) {
        assert(args[at].contains(args[at][i]));
    }
    lemma_values_end(args, at + 1, end);
}

/// Values run up to the next option.
proof fn lemma_values_end(args: Seq<Seq<char>>, from: int, end: int)
    requires
        0 <= from <= end <= args.len(),
        forall|i: int| from <= i < end ==> !option_like(#[trigger] args[i]),
        end < args.len() ==> option_like(args[end]),
    ensures
        after_values(args, from) == end,
    decreases end - from,
{
    if from < end {
        assert(!option_like(args[from]));
        lemma_values_end(args, from + 1, end);
    }
}

/// An option is written in full, or as a dash and its letter, and in no other way.
pub proof fn an_option_has_two_forms(option: OptionView, token: Seq<char>)
    ensures
        names_option(option, option.long),
        option.short is Some && (option.short->0 as u32) < 128 ==> names_option(
            option,
            seq!['-', option.short->0],
        ),
        names_option(option, token) ==> token == option.long || (option.short is Some && token
            == seq!['-', option.short->0]),
        option.short is None && token != option.long ==> !names_option(option, token),
{
}

/// An option is shown by the first whose long form, dashes aside, is asked for.
pub proof fn an_option_is_shown_by_its_name(options: Seq<OptionView>, id: Seq<char>, from: int)
    requires
        0 <= from <= options.len(),
    ensures
        match display_spec(options, id, from) {
            Some(display) => exists|i: int|
                from <= i < options.len() && without_dashes((#[trigger] options[i]).long) == id
                    && options[i].display == display,
            None => forall|i: int|
                from <= i < options.len() ==> without_dashes((#[trigger] options[i]).long) != id,
        },
    decreases options.len() - from,
{
    if from < options.len() && without_dashes(options[from].long) != id {
        an_option_is_shown_by_its_name(options, id, from + 1);
    }
}

/// Dashes in front are dropped, and nothing else.
pub proof fn leading_dashes_are_dropped(name: Seq<char>)
    requires
        name.len() > 0,
        name[0] != '-',
    ensures
        without_dashes("--"@ + name) == name,
        without_dashes("-"@ + name) == name,
        without_dashes(name) == name,
{
    reveal_strlit("--");
    reveal_strlit("-");
    let dash = |c: char| c == '-';
    let two = "--"@ + name;
    let one = "-"@ + name;
    assert(two[0] == '-' && two[1] == '-' && two[2] == name[0]);
    assert(one[0] == '-' && one[1] == name[0]);
    text::lemma_skip_to(two, dash, 0, 2);
    text::lemma_skip_to(one, dash, 0, 1);
    text::lemma_skip_to(name, dash, 0, 0);
    assert(two.skip(2) =~= name);
    assert(one.skip(1) =~= name);
    assert(name.skip(0) =~= name);
}

} // verus!
