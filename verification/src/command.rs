//! The commands of the prompt and the grammar that reads them.
//!
//! A command line is a list of arguments. The first names the command; the
//! others are its options:
//!
//! | command  | options                                           |
//! |----------|---------------------------------------------------|
//! | `init`   | none                                              |
//! | `view`   | none                                              |
//! | `search` | `--filter TEXT` or `-f TEXT`                      |
//! | `get`    | `--ids CSV` or `-i CSV`                           |
//! | `delete` | `--ids CSV` or `-i CSV`                           |
//! | `update` | `--ids CSV` or `-i CSV`; `--all`, `-a`; `--force`, `-f` |
//! | `exit`   | none                                              |
//!
//! Options come in any order, each at most once. The value of an option is
//! the argument after it, which may not itself look like an option, or
//! stands in the argument of the option: behind an equals sign
//! (`--ids=1,2`, `-i=1,2`) or right behind the short name (`-i1,2`). Short
//! switches may stand in one group (`-af`), and an option with a value may
//! end the group (`-afi1,2`). Two hyphens alone end the options, and
//! nothing may follow them.

use crate::text::{
    copy_range, enclose, from_chars, parse_u32, parsed_u32, pieces, split_on, text_is, to_chars,
    trim, trimmed, views,
};
use vstd::prelude::*;

verus! {

/// One command of the prompt, with what the user gave it.
#[derive(Debug)]
pub enum Command {
    /// Set up the game installation.
    Init,
    /// List the installed addons.
    View,
    /// Search the catalog for addons whose name matches a text.
    Search { name: Option<String> },
    /// Fetch and install the addons with the given identifiers.
    Get { ids: Option<String> },
    /// Remove the addons with the given identifiers.
    Delete { ids: Option<String> },
    /// Bring addons up to date: those with the given identifiers, or all.
    Update { ids: Option<String>, all: bool, force: bool },
    /// Leave the prompt.
    Exit,
}

/// What a [`Command`] is, over plain texts.
pub enum CommandModel {
    Init,
    View,
    Search { name: Option<Seq<char>> },
    Get { ids: Option<Seq<char>> },
    Delete { ids: Option<Seq<char>> },
    Update { ids: Option<Seq<char>>, all: bool, force: bool },
    Exit,
}

/// The text of an optional string.
pub open spec fn optional_text(s: Option<String>) -> Option<Seq<char>> {
    match s {
        Some(text) => Some(text@),
        None => None,
    }
}

impl View for Command {
    type V = CommandModel;

    open spec fn view(&self) -> CommandModel {
        match *self {
            Command::Init => CommandModel::Init,
            Command::View => CommandModel::View,
            Command::Search { name } => CommandModel::Search { name: optional_text(name) },
            Command::Get { ids } => CommandModel::Get { ids: optional_text(ids) },
            Command::Delete { ids } => CommandModel::Delete { ids: optional_text(ids) },
            Command::Update { ids, all, force } => CommandModel::Update {
                ids: optional_text(ids),
                all,
                force,
            },
            Command::Exit => CommandModel::Exit,
        }
    }
}

/// Why a list of arguments is no command.
#[derive(Debug)]
pub enum ParseError {
    /// There is no argument at all.
    MissingCommand,
    /// The first argument names no command.
    UnknownCommand(String),
    /// An argument is no option of the command.
    UnexpectedArgument(String),
    /// An option that takes a value is the last argument, or the argument
    /// after it looks like an option.
    MissingValue(String),
    /// An option is given a second time.
    RepeatedOption(String),
    /// A switch is given a value.
    UnexpectedValue(String),
}

/// What a [`ParseError`] is, over plain texts.
pub enum ParseErrorModel {
    MissingCommand,
    UnknownCommand(Seq<char>),
    UnexpectedArgument(Seq<char>),
    MissingValue(Seq<char>),
    RepeatedOption(Seq<char>),
    UnexpectedValue(Seq<char>),
}

impl View for ParseError {
    type V = ParseErrorModel;

    open spec fn view(&self) -> ParseErrorModel {
        match *self {
            ParseError::MissingCommand => ParseErrorModel::MissingCommand,
            ParseError::UnknownCommand(name) => ParseErrorModel::UnknownCommand(name@),
            ParseError::UnexpectedArgument(arg) => ParseErrorModel::UnexpectedArgument(arg@),
            ParseError::MissingValue(option) => ParseErrorModel::MissingValue(option@),
            ParseError::RepeatedOption(option) => ParseErrorModel::RepeatedOption(option@),
            ParseError::UnexpectedValue(option) => ParseErrorModel::UnexpectedValue(option@),
        }
    }
}

/// What a fault says to the user.
pub open spec fn fault_text(fault: ParseErrorModel) -> Seq<char> {
    match fault {
        ParseErrorModel::MissingCommand => "no command given"@,
        ParseErrorModel::UnknownCommand(name) => "unrecognized command '"@ + name + "'"@,
        ParseErrorModel::UnexpectedArgument(arg) => "unexpected argument '"@ + arg + "'"@,
        ParseErrorModel::MissingValue(option) => "a value is required for '"@ + option + "'"@,
        ParseErrorModel::RepeatedOption(option) => "the option '"@ + option
            + "' cannot be used more than once"@,
        ParseErrorModel::UnexpectedValue(option) => "no value is taken by '"@ + option + "'"@,
    }
}

impl ParseError {
    /// What the fault says to the user.
    pub fn message(&self) -> (text: String)
        ensures
            text@ == fault_text(self@),
    {
        match self {
            ParseError::MissingCommand => "no command given".to_owned(),
            ParseError::UnknownCommand(name) => enclose(
                "unrecognized command '",
                name.as_str(),
                "'",
            ),
            ParseError::UnexpectedArgument(arg) => enclose(
                "unexpected argument '",
                arg.as_str(),
                "'",
            ),
            ParseError::MissingValue(option) => enclose(
                "a value is required for '",
                option.as_str(),
                "'",
            ),
            ParseError::RepeatedOption(option) => enclose(
                "the option '",
                option.as_str(),
                "' cannot be used more than once",
            ),
            ParseError::UnexpectedValue(option) => enclose(
                "no value is taken by '",
                option.as_str(),
                "'",
            ),
        }
    }
}

/// The commands by name, without their options.
#[derive(Debug, Clone, Copy)]
pub enum CommandKind {
    Init,
    View,
    Search,
    Get,
    Delete,
    Update,
    Exit,
}

/// The command that `name` names.
pub open spec fn keyword(name: Seq<char>) -> Option<CommandKind> {
    if name == "init"@ {
        Some(CommandKind::Init)
    } else if name == "view"@ {
        Some(CommandKind::View)
    } else if name == "search"@ {
        Some(CommandKind::Search)
    } else if name == "get"@ {
        Some(CommandKind::Get)
    } else if name == "delete"@ {
        Some(CommandKind::Delete)
    } else if name == "update"@ {
        Some(CommandKind::Update)
    } else if name == "exit"@ {
        Some(CommandKind::Exit)
    } else {
        None
    }
}

/// The options: one that carries a text, and two switches.
#[derive(Debug, Clone, Copy)]
pub enum OptionKind {
    /// The filter of `search`, the identifiers of `get`, `delete` and `update`.
    Text,
    /// `update`: every installed addon.
    All,
    /// `update`: install again even what is up to date.
    Force,
}

/// The option of the command `kind` with the long name `name`.
pub open spec fn long_option(kind: CommandKind, name: Seq<char>) -> Option<OptionKind> {
    match kind {
        CommandKind::Search => if name == "filter"@ {
            Some(OptionKind::Text)
        } else {
            None
        },
        CommandKind::Get | CommandKind::Delete => if name == "ids"@ {
            Some(OptionKind::Text)
        } else {
            None
        },
        CommandKind::Update => if name == "ids"@ {
            Some(OptionKind::Text)
        } else if name == "all"@ {
            Some(OptionKind::All)
        } else if name == "force"@ {
            Some(OptionKind::Force)
        } else {
            None
        },
        _ => None,
    }
}

/// The option of the command `kind` with the short name `c`.
pub open spec fn short_option(kind: CommandKind, c: char) -> Option<OptionKind> {
    match kind {
        CommandKind::Search => if c == 'f' {
            Some(OptionKind::Text)
        } else {
            None
        },
        CommandKind::Get | CommandKind::Delete => if c == 'i' {
            Some(OptionKind::Text)
        } else {
            None
        },
        CommandKind::Update => if c == 'i' {
            Some(OptionKind::Text)
        } else if c == 'a' {
            Some(OptionKind::All)
        } else if c == 'f' {
            Some(OptionKind::Force)
        } else {
            None
        },
        _ => None,
    }
}

/// An argument looks like an option when it starts with a hyphen and holds
/// more than the hyphen.
pub open spec fn looks_like_option(arg: Seq<char>) -> bool {
    arg.len() >= 2 && arg[0] == '-'
}

/// Two hyphens and nothing more end the options.
pub open spec fn is_escape(arg: Seq<char>) -> bool {
    arg == seq!['-', '-']
}

/// A long option starts with two hyphens and holds more than them.
pub open spec fn is_long(arg: Seq<char>) -> bool {
    arg.len() > 2 && arg[0] == '-' && arg[1] == '-'
}

/// A group of short options starts with one hyphen, followed by another character.
pub open spec fn is_short(arg: Seq<char>) -> bool {
    arg.len() >= 2 && arg[0] == '-' && arg[1] != '-'
}

/// The index of the first equals sign of `arg` at or after `from`; the
/// length of `arg` where there is none.
pub open spec fn equals_at(arg: Seq<char>, from: int) -> int
    decreases arg.len() - from,
{
    if from >= arg.len() {
        arg.len() as int
    } else if arg[from] == '=' {
        from
    } else {
        equals_at(arg, from + 1)
    }
}

/// The options read so far.
pub struct OptionsModel {
    pub text: Option<Seq<char>>,
    pub all: bool,
    pub force: bool,
}

impl OptionsModel {
    /// No option given.
    pub open spec fn none() -> OptionsModel {
        OptionsModel { text: None, all: false, force: false }
    }

    /// Whether the option `kind` was given.
    pub open spec fn has(self, kind: OptionKind) -> bool {
        match kind {
            OptionKind::Text => self.text is Some,
            OptionKind::All => self.all,
            OptionKind::Force => self.force,
        }
    }

    /// The options with the switch `kind` set.
    pub open spec fn with_switch(self, kind: OptionKind) -> OptionsModel {
        match kind {
            OptionKind::Text => self,
            OptionKind::All => OptionsModel { all: true, ..self },
            OptionKind::Force => OptionsModel { force: true, ..self },
        }
    }
}

/// What one argument gives: a fault, the options with what it sets, or the
/// options with the text still to come as the next argument.
pub enum ArgumentModel {
    Fault(ParseErrorModel),
    Done(OptionsModel),
    Pending(OptionsModel),
}

/// Reads the long option `arg`: its name stands behind the two hyphens, up
/// to the first equals sign, and a value may stand behind that sign. A
/// switch takes no value.
pub open spec fn read_long(kind: CommandKind, arg: Seq<char>, so_far: OptionsModel) -> ArgumentModel {
    let end = equals_at(arg, 2);
    match long_option(kind, arg.subrange(2, end)) {
        None => ArgumentModel::Fault(ParseErrorModel::UnexpectedArgument(arg)),
        Some(option) => if so_far.has(option) {
            ArgumentModel::Fault(ParseErrorModel::RepeatedOption(arg))
        } else if option is Text {
            if end < arg.len() {
                ArgumentModel::Done(
                    OptionsModel { text: Some(arg.subrange(end + 1, arg.len() as int)), ..so_far },
                )
            } else {
                ArgumentModel::Pending(so_far)
            }
        } else if end < arg.len() {
            ArgumentModel::Fault(ParseErrorModel::UnexpectedValue(arg))
        } else {
            ArgumentModel::Done(so_far.with_switch(option))
        },
    }
}

/// The value that stands behind a short option in its group: what follows
/// the option, without the equals sign that may start it.
pub open spec fn attached_value(rest: Seq<char>) -> Seq<char> {
    if rest.len() > 0 && rest[0] == '=' {
        rest.skip(1)
    } else {
        rest
    }
}

/// Reads the group of short options `arg` from index `at` on: each
/// character names an option; switches may follow each other, and the
/// option that takes a text takes the rest of the group as its value, or
/// the next argument where the group ends with it.
pub open spec fn read_group(kind: CommandKind, arg: Seq<char>, at: int, so_far: OptionsModel) -> ArgumentModel
    decreases arg.len() - at,
{
    if at < 0 || at >= arg.len() {
        ArgumentModel::Done(so_far)
    } else {
        match short_option(kind, arg[at]) {
            None => ArgumentModel::Fault(ParseErrorModel::UnexpectedArgument(arg)),
            Some(option) => if so_far.has(option) {
                ArgumentModel::Fault(ParseErrorModel::RepeatedOption(arg))
            } else if option is Text {
                if at + 1 < arg.len() {
                    ArgumentModel::Done(
                        OptionsModel { text: Some(attached_value(arg.skip(at + 1))), ..so_far },
                    )
                } else {
                    ArgumentModel::Pending(so_far)
                }
            } else {
                read_group(kind, arg, at + 1, so_far.with_switch(option))
            },
        }
    }
}

/// Reads one argument that is not the end of the options.
pub open spec fn read_argument(kind: CommandKind, arg: Seq<char>, so_far: OptionsModel) -> ArgumentModel {
    if is_long(arg) {
        read_long(kind, arg, so_far)
    } else if is_short(arg) {
        read_group(kind, arg, 1, so_far)
    } else {
        ArgumentModel::Fault(ParseErrorModel::UnexpectedArgument(arg))
    }
}

/// Reads the options `args` of the command `kind` from left to right, after
/// the options `so_far`: the options read, or the first fault met. Two
/// hyphens end the options, and nothing may follow them.
pub open spec fn read_options(kind: CommandKind, args: Seq<Seq<char>>, so_far: OptionsModel) -> Result<
    OptionsModel,
    ParseErrorModel,
>
    decreases args.len(),
{
    if args.len() == 0 {
        Ok(so_far)
    } else if is_escape(args[0]) {
        if args.len() == 1 {
            Ok(so_far)
        } else {
            Err(ParseErrorModel::UnexpectedArgument(args[1]))
        }
    } else {
        match read_argument(kind, args[0], so_far) {
            ArgumentModel::Fault(fault) => Err(fault),
            ArgumentModel::Done(options) => read_options(kind, args.skip(1), options),
            ArgumentModel::Pending(options) => if args.len() < 2 || looks_like_option(args[1]) {
                Err(ParseErrorModel::MissingValue(args[0]))
            } else {
                read_options(kind, args.skip(2), OptionsModel { text: Some(args[1]), ..options })
            },
        }
    }
}

/// The command `kind` with the options `options`.
pub open spec fn command_with(kind: CommandKind, options: OptionsModel) -> CommandModel {
    match kind {
        CommandKind::Init => CommandModel::Init,
        CommandKind::View => CommandModel::View,
        CommandKind::Search => CommandModel::Search { name: options.text },
        CommandKind::Get => CommandModel::Get { ids: options.text },
        CommandKind::Delete => CommandModel::Delete { ids: options.text },
        CommandKind::Update => CommandModel::Update {
            ids: options.text,
            all: options.all,
            force: options.force,
        },
        CommandKind::Exit => CommandModel::Exit,
    }
}

/// The command that the arguments `args` write, or why they write none.
pub open spec fn parsed_command(args: Seq<Seq<char>>) -> Result<CommandModel, ParseErrorModel> {
    if args.len() == 0 {
        Err(ParseErrorModel::MissingCommand)
    } else {
        match keyword(args[0]) {
            None => Err(ParseErrorModel::UnknownCommand(args[0])),
            Some(kind) => match read_options(kind, args.skip(1), OptionsModel::none()) {
                Ok(options) => Ok(command_with(kind, options)),
                Err(fault) => Err(fault),
            },
        }
    }
}

/// The view of a result of [`parse_command`].
pub open spec fn parse_outcome(r: Result<Command, ParseError>) -> Result<
    CommandModel,
    ParseErrorModel,
> {
    match r {
        Ok(command) => Ok(command@),
        Err(fault) => Err(fault@),
    }
}

fn keyword_of(name: &Vec<char>) -> (r: Option<CommandKind>)
    ensures
        r == keyword(name@),
{
    if text_is(name, "init") {
        Some(CommandKind::Init)
    } else if text_is(name, "view") {
        Some(CommandKind::View)
    } else if text_is(name, "search") {
        Some(CommandKind::Search)
    } else if text_is(name, "get") {
        Some(CommandKind::Get)
    } else if text_is(name, "delete") {
        Some(CommandKind::Delete)
    } else if text_is(name, "update") {
        Some(CommandKind::Update)
    } else if text_is(name, "exit") {
        Some(CommandKind::Exit)
    } else {
        None
    }
}

struct Options {
    text: Option<String>,
    all: bool,
    force: bool,
}

impl View for Options {
    type V = OptionsModel;

    closed spec fn view(&self) -> OptionsModel {
        OptionsModel { text: optional_text(self.text), all: self.all, force: self.force }
    }
}

enum Argument {
    Fault(ParseError),
    Done(Options),
    Pending(Options),
}

impl View for Argument {
    type V = ArgumentModel;

    closed spec fn view(&self) -> ArgumentModel {
        match *self {
            Argument::Fault(fault) => ArgumentModel::Fault(fault@),
            Argument::Done(options) => ArgumentModel::Done(options@),
            Argument::Pending(options) => ArgumentModel::Pending(options@),
        }
    }
}

fn long_option_of(kind: CommandKind, name: &Vec<char>) -> (r: Option<OptionKind>)
    ensures
        r == long_option(kind, name@),
{
    match kind {
        CommandKind::Search => if text_is(name, "filter") {
            Some(OptionKind::Text)
        } else {
            None
        },
        CommandKind::Get | CommandKind::Delete => if text_is(name, "ids") {
            Some(OptionKind::Text)
        } else {
            None
        },
        CommandKind::Update => if text_is(name, "ids") {
            Some(OptionKind::Text)
        } else if text_is(name, "all") {
            Some(OptionKind::All)
        } else if text_is(name, "force") {
            Some(OptionKind::Force)
        } else {
            None
        },
        _ => None,
    }
}

fn short_option_of(kind: CommandKind, c: char) -> (r: Option<OptionKind>)
    ensures
        r == short_option(kind, c),
{
    match kind {
        CommandKind::Search => if c == 'f' {
            Some(OptionKind::Text)
        } else {
            None
        },
        CommandKind::Get | CommandKind::Delete => if c == 'i' {
            Some(OptionKind::Text)
        } else {
            None
        },
        CommandKind::Update => if c == 'i' {
            Some(OptionKind::Text)
        } else if c == 'a' {
            Some(OptionKind::All)
        } else if c == 'f' {
            Some(OptionKind::Force)
        } else {
            None
        },
        _ => None,
    }
}

fn has_option(options: &Options, kind: OptionKind) -> (r: bool)
    ensures
        r == options@.has(kind),
{
    match kind {
        OptionKind::Text => options.text.is_some(),
        OptionKind::All => options.all,
        OptionKind::Force => options.force,
    }
}

fn set_switch(options: Options, kind: OptionKind) -> (r: Options)
    ensures
        r@ == options@.with_switch(kind),
{
    match kind {
        OptionKind::Text => options,
        OptionKind::All => Options { text: options.text, all: true, force: options.force },
        OptionKind::Force => Options { text: options.text, all: options.all, force: true },
    }
}

fn is_option_like(arg: &Vec<char>) -> (r: bool)
    ensures
        r == looks_like_option(arg@),
{
    arg.len() >= 2 && arg[0] == '-'
}

fn find_equals(arg: &Vec<char>, from: usize) -> (end: usize)
    requires
        from <= arg.len(),
    ensures
        end == equals_at(arg@, from as int),
        from <= end <= arg.len(),
{
    let mut at: usize = from;
    while at < arg.len() && arg[at] != '='
        invariant
            from <= at <= arg.len(),
            equals_at(arg@, from as int) == equals_at(arg@, at as int),
        decreases arg.len() - at,
    {
        at += 1;
    }
    at
}

fn read_long_of(kind: CommandKind, token: &String, arg: &Vec<char>, so_far: Options) -> (r: Argument)
    requires
        arg@ == token@,
        is_long(arg@),
    ensures
        r@ == read_long(kind, arg@, so_far@),
{
    let end = find_equals(arg, 2);
    let name = copy_range(arg, 2, end);
    match long_option_of(kind, &name) {
        None => Argument::Fault(ParseError::UnexpectedArgument(token.clone())),
        Some(option) => {
            if has_option(&so_far, option) {
                Argument::Fault(ParseError::RepeatedOption(token.clone()))
            } else {
                match option {
                    OptionKind::Text => {
                        if end < arg.len() {
                            let value = from_chars(&copy_range(arg, end + 1, arg.len()));
                            Argument::Done(
                                Options { text: Some(value), all: so_far.all, force: so_far.force },
                            )
                        } else {
                            Argument::Pending(so_far)
                        }
                    },
                    _ => {
                        if end < arg.len() {
                            Argument::Fault(ParseError::UnexpectedValue(token.clone()))
                        } else {
                            Argument::Done(set_switch(so_far, option))
                        }
                    },
                }
            }
        },
    }
}

fn read_group_of(kind: CommandKind, token: &String, arg: &Vec<char>, so_far: Options) -> (r: Argument)
    requires
        arg@ == token@,
    ensures
        r@ == read_group(kind, arg@, 1, so_far@),
{
    let ghost start = so_far@;
    let mut options = so_far;
    let mut at: usize = 1;
    while at < arg.len()
        invariant
            1 <= at,
            arg@ == token@,
            start == so_far@,
            read_group(kind, arg@, 1, start) == read_group(kind, arg@, at as int, options@),
        decreases arg.len() - at,
    {
        match short_option_of(kind, arg[at]) {
            None => {
                return Argument::Fault(ParseError::UnexpectedArgument(token.clone()));
            },
            Some(option) => {
                if has_option(&options, option) {
                    return Argument::Fault(ParseError::RepeatedOption(token.clone()));
                }
                match option {
                    OptionKind::Text => {
                        if at + 1 < arg.len() {
                            let from: usize = if arg[at + 1] == '=' {
                                at + 2
                            } else {
                                at + 1
                            };
                            let value = copy_range(arg, from, arg.len());
                            assert(value@ =~= attached_value(arg@.skip(at + 1)));
                            return Argument::Done(
                                Options {
                                    text: Some(from_chars(&value)),
                                    all: options.all,
                                    force: options.force,
                                },
                            );
                        } else {
                            return Argument::Pending(options);
                        }
                    },
                    _ => {
                        options = set_switch(options, option);
                        at += 1;
                    },
                }
            },
        }
    }
    Argument::Done(options)
}

fn read_argument_of(kind: CommandKind, token: &String, so_far: Options) -> (r: Argument)
    ensures
        r@ == read_argument(kind, token@, so_far@),
{
    let arg = to_chars(token.as_str());
    if arg.len() > 2 && arg[0] == '-' && arg[1] == '-' {
        read_long_of(kind, token, &arg, so_far)
    } else if arg.len() >= 2 && arg[0] == '-' && arg[1] != '-' {
        read_group_of(kind, token, &arg, so_far)
    } else {
        Argument::Fault(ParseError::UnexpectedArgument(token.clone()))
    }
}

fn is_end_of_options(token: &String) -> (r: bool)
    ensures
        r == is_escape(token@),
{
    let arg = to_chars(token.as_str());
    let r = arg.len() == 2 && arg[0] == '-' && arg[1] == '-';
    if r {
        assert(arg@ =~= seq!['-', '-']);
    }
    r
}

/// Reads a command from the arguments of a command line.
///
/// Returns the command that the grammar gives the arguments, or the first
/// fault that reading them from left to right meets.
pub fn parse_command(args: &Vec<String>) -> (r: Result<Command, ParseError>)
    ensures
        parse_outcome(r) == parsed_command(views(args@)),
{
    let ghost texts = views(args@);
    let n: usize = args.len();
    if n == 0 {
        return Err(ParseError::MissingCommand);
    }
    let name = to_chars(args[0].as_str());
    assert(texts[0] == name@);
    let kind = match keyword_of(&name) {
        Some(kind) => kind,
        None => {
            return Err(ParseError::UnknownCommand(args[0].clone()));
        },
    };
    let mut options = Options { text: None, all: false, force: false };
    let mut i: usize = 1;
    let ghost goal = read_options(kind, texts.skip(1), OptionsModel::none());
    while i < n
        invariant
            n == args.len(),
            texts == views(args@),
            1 <= i <= n,
            parsed_command(texts) == match goal {
                Ok(found) => Ok(command_with(kind, found)),
                Err(fault) => Err(fault),
            },
            goal == read_options(kind, texts.skip(i as int), options@),
        decreases n - i,
    {
        let ghost rest = texts.skip(i as int);
        assert(rest[0] == args[i as int]@);
        assert(rest.skip(1) =~= texts.skip(i + 1));
        if is_end_of_options(&args[i]) {
            if i + 1 < n {
                assert(rest[1] == args[i + 1]@);
                return Err(ParseError::UnexpectedArgument(args[i + 1].clone()));
            }
            assert(rest.len() == 1);
            i = n;
            assert(texts.skip(n as int).len() == 0);
        } else {
            match read_argument_of(kind, &args[i], options) {
                Argument::Fault(fault) => {
                    return Err(fault);
                },
                Argument::Done(found) => {
                    options = found;
                    i += 1;
                },
                Argument::Pending(found) => {
                    if i + 1 >= n {
                        return Err(ParseError::MissingValue(args[i].clone()));
                    }
                    let value = to_chars(args[i + 1].as_str());
                    assert(rest[1] == value@);
                    if is_option_like(&value) {
                        return Err(ParseError::MissingValue(args[i].clone()));
                    }
                    assert(rest.skip(2) =~= texts.skip(i + 2));
                    options = Options {
                        text: Some(args[i + 1].clone()),
                        all: found.all,
                        force: found.force,
                    };
                    i += 2;
                },
            }
        }
    }
    assert(texts.skip(n as int).len() == 0);
    let Options { text, all, force } = options;
    Ok(
        match kind {
            CommandKind::Init => Command::Init,
            CommandKind::View => Command::View,
            CommandKind::Search => Command::Search { name: text },
            CommandKind::Get => Command::Get { ids: text },
            CommandKind::Delete => Command::Delete { ids: text },
            CommandKind::Update => Command::Update { ids: text, all, force },
            CommandKind::Exit => Command::Exit,
        },
    )
}

/// No long name holds an equals sign, and no short name is a hyphen or an
/// equals sign.
pub proof fn lemma_names_are_plain(kind: CommandKind, name: Seq<char>, c: char)
    ensures
        long_option(kind, name) is Some ==> !name.contains('='),
        short_option(kind, c) is Some ==> c != '-' && c != '=',
{
    reveal_strlit("filter");
    reveal_strlit("ids");
    reveal_strlit("all");
    reveal_strlit("force");
}

/// The first equals sign at or after `from` is where one stands with none
/// before it.
pub proof fn lemma_equals_at_first(arg: Seq<char>, from: int, at: int)
    requires
        0 <= from <= at < arg.len(),
        arg[at] == '=',
        forall|j: int| from <= j < at ==> arg[j] != '=',
    ensures
        equals_at(arg, from) == at,
    decreases at - from,
{
    if from < at {
        lemma_equals_at_first(arg, from + 1, at);
    }
}

/// Where no equals sign stands at or after `from`, the search for one ends
/// at the end.
pub proof fn lemma_no_equals(arg: Seq<char>, from: int)
    requires
        0 <= from <= arg.len(),
        forall|j: int| from <= j < arg.len() ==> arg[j] != '=',
    ensures
        equals_at(arg, from) == arg.len(),
    decreases arg.len() - from,
{
    if from < arg.len() {
        lemma_no_equals(arg, from + 1);
    }
}

/// A long option reads its value from behind the equals sign, whatever the
/// value is, as it reads a value that does not look like an option from the
/// next argument: `--ids=1,2` is `--ids 1,2`.
pub proof fn lemma_long_option_with_value(
    kind: CommandKind,
    name: Seq<char>,
    value: Seq<char>,
    rest: Seq<Seq<char>>,
    so_far: OptionsModel,
)
    requires
        long_option(kind, name) == Some(OptionKind::Text),
        so_far.text is None,
    ensures
        read_options(kind, seq![seq!['-', '-'] + name + seq!['='] + value] + rest, so_far)
            == read_options(kind, rest, OptionsModel { text: Some(value), ..so_far }),
        !looks_like_option(value) ==> read_options(
            kind,
            seq![seq!['-', '-'] + name, value] + rest,
            so_far,
        ) == read_options(kind, rest, OptionsModel { text: Some(value), ..so_far }),
{
    lemma_names_are_plain(kind, name, ' ');
    reveal_strlit("filter");
    reveal_strlit("ids");
    let with = OptionsModel { text: Some(value), ..so_far };
    let attached = seq!['-', '-'] + name + seq!['='] + value;
    let end = 2 + name.len() as int;
    assert forall|j: int| 2 <= j < end implies attached[j] != '=' by {
        assert(attached[j] == name[j - 2]);
        assert(name.contains(name[j - 2]));
    }
    lemma_equals_at_first(attached, 2, end);
    assert(attached.subrange(2, end) =~= name);
    assert(attached.subrange(end + 1, attached.len() as int) =~= value);
    assert(read_long(kind, attached, so_far) == ArgumentModel::Done(with));
    assert((seq![attached] + rest).skip(1) =~= rest);
    assert(!is_escape(attached));

    let bare = seq!['-', '-'] + name;
    assert forall|j: int| 2 <= j < bare.len() implies bare[j] != '=' by {
        assert(bare[j] == name[j - 2]);
        assert(name.contains(name[j - 2]));
    }
    lemma_no_equals(bare, 2);
    assert(bare.subrange(2, bare.len() as int) =~= name);
    assert(read_long(kind, bare, so_far) == ArgumentModel::Pending(so_far));
    assert(!is_escape(bare));
    assert((seq![bare, value] + rest).skip(2) =~= rest);
}

/// A short option reads its value from behind its name, without the equals
/// sign that may stand between them: `-i1,2` and `-i=1,2` are `-i 1,2`.
pub proof fn lemma_short_option_with_value(
    kind: CommandKind,
    c: char,
    value: Seq<char>,
    rest: Seq<Seq<char>>,
    so_far: OptionsModel,
)
    requires
        short_option(kind, c) == Some(OptionKind::Text),
        so_far.text is None,
        value.len() > 0,
    ensures
        read_options(kind, seq![seq!['-', c] + value] + rest, so_far) == read_options(
            kind,
            rest,
            OptionsModel { text: Some(attached_value(value)), ..so_far },
        ),
        !looks_like_option(value) ==> read_options(kind, seq![seq!['-', c], value] + rest, so_far)
            == read_options(kind, rest, OptionsModel { text: Some(value), ..so_far }),
{
    let attached = seq!['-', c] + value;
    assert(attached.skip(2) =~= value);
    assert(!is_escape(attached));
    assert((seq![attached] + rest).skip(1) =~= rest);
    let bare = seq!['-', c];
    assert(!is_escape(bare));
    assert((seq![bare, value] + rest).skip(2) =~= rest);
}

/// Switches in one group are read one after the other: where the switch
/// `c` was not given before, a group that starts with it reads on behind it
/// with the switch set.
pub proof fn lemma_group_sets_its_switches(
    kind: CommandKind,
    arg: Seq<char>,
    at: int,
    so_far: OptionsModel,
)
    requires
        0 <= at < arg.len(),
        short_option(kind, arg[at]) matches Some(option) && !(option is Text) && !so_far.has(
            option,
        ),
    ensures
        read_group(kind, arg, at, so_far) == read_group(
            kind,
            arg,
            at + 1,
            so_far.with_switch(short_option(kind, arg[at])->Some_0),
        ),
{
}

/// What the prompt does for a command.
#[derive(Debug, Clone, Copy, PartialEq, Eq, Structural)]
pub enum Action {
    /// Set up the game installation.
    Initialize,
    /// Scan the installation directory and show what is installed.
    ListInstalled,
    /// Search the catalog with the filter of the command.
    Search,
    /// `search` came without a filter: ask for one.
    AskForFilter,
    /// Fetch the addons that the identifiers of the command name.
    Fetch,
    /// `get` came without identifiers: ask for them.
    AskForIdsToGet,
    /// Remove the addons that the identifiers of the command name.
    Remove,
    /// `delete` came without identifiers: ask for them.
    AskForIdsToDelete,
    /// Update every installed addon.
    UpdateAll,
    /// Update the addons that the identifiers of the command name.
    UpdateSome,
    /// `update` came with neither identifiers nor `--all`: ask for one.
    AskForUpdateTarget,
    /// Leave the prompt.
    Leave,
}

/// What the prompt does for `command`. With `--all`, `update` takes every
/// addon whether identifiers are given or not.
pub open spec fn planned_action(command: CommandModel) -> Action {
    match command {
        CommandModel::Init => Action::Initialize,
        CommandModel::View => Action::ListInstalled,
        CommandModel::Search { name } => if name is Some {
            Action::Search
        } else {
            Action::AskForFilter
        },
        CommandModel::Get { ids } => if ids is Some {
            Action::Fetch
        } else {
            Action::AskForIdsToGet
        },
        CommandModel::Delete { ids } => if ids is Some {
            Action::Remove
        } else {
            Action::AskForIdsToDelete
        },
        CommandModel::Update { ids, all, force } => if all {
            Action::UpdateAll
        } else if ids is Some {
            Action::UpdateSome
        } else {
            Action::AskForUpdateTarget
        },
        CommandModel::Exit => Action::Leave,
    }
}

impl Command {
    /// What the prompt does for this command.
    pub fn action(&self) -> (r: Action)
        ensures
            r == planned_action(self@),
    {
        match self {
            Command::Init => Action::Initialize,
            Command::View => Action::ListInstalled,
            Command::Search { name } => if name.is_some() {
                Action::Search
            } else {
                Action::AskForFilter
            },
            Command::Get { ids } => if ids.is_some() {
                Action::Fetch
            } else {
                Action::AskForIdsToGet
            },
            Command::Delete { ids } => if ids.is_some() {
                Action::Remove
            } else {
                Action::AskForIdsToDelete
            },
            Command::Update { ids, all, force } => if *all {
                Action::UpdateAll
            } else if ids.is_some() {
                Action::UpdateSome
            } else {
                Action::AskForUpdateTarget
            },
            Command::Exit => Action::Leave,
        }
    }
}

impl Action {
    /// Whether the prompt goes on after this action: it does after every
    /// action but [`Action::Leave`].
    pub fn continues(&self) -> (r: bool)
        ensures
            r == !(*self is Leave),
    {
        match self {
            Action::Leave => false,
            _ => true,
        }
    }
}

/// One entry of a comma-separated list of identifiers.
#[derive(Debug)]
pub enum IdEntry {
    /// The entry writes this identifier.
    Valid(u32),
    /// The entry, as it stands in the list, writes no identifier.
    Invalid(String),
}

/// What an [`IdEntry`] is, over plain texts.
pub enum IdEntryModel {
    Valid(u32),
    Invalid(Seq<char>),
}

impl View for IdEntry {
    type V = IdEntryModel;

    open spec fn view(&self) -> IdEntryModel {
        match *self {
            IdEntry::Valid(id) => IdEntryModel::Valid(id),
            IdEntry::Invalid(text) => IdEntryModel::Invalid(text@),
        }
    }
}

/// The entry that the piece `piece` of a list writes: the number that it
/// holds between white space, or the piece itself where it holds none.
pub open spec fn id_entry(piece: Seq<char>) -> IdEntryModel {
    match parsed_u32(trimmed(piece)) {
        Some(id) => IdEntryModel::Valid(id),
        None => IdEntryModel::Invalid(piece),
    }
}

/// The entries of the comma-separated list `ids`, one for each piece between
/// commas, in order.
pub open spec fn id_entries(ids: Seq<char>) -> Seq<IdEntryModel> {
    let parts = pieces(ids, ',', Seq::empty());
    Seq::new(parts.len(), |i: int| id_entry(parts[i]))
}

/// Reads a comma-separated list of identifiers.
pub fn parse_id_list(ids: &str) -> (r: Vec<IdEntry>)
    ensures
        views(r@) == id_entries(ids@),
{
    let list = to_chars(ids);
    let parts = split_on(&list, ',');
    let ghost texts = pieces(ids@, ',', Seq::empty());
    let mut out: Vec<IdEntry> = Vec::new();
    let mut i: usize = 0;
    while i < parts.len()
        invariant
            i <= parts.len(),
            views(parts@) == texts,
            out.len() == i,
            forall|k: int| 0 <= k < i ==> (#[trigger] out[k])@ == id_entry(texts[k]),
        decreases parts.len() - i,
    {
        assert(texts[i as int] == parts[i as int]@);
        let inner = trim(&parts[i]);
        let entry = match parse_u32(&inner) {
            Some(id) => IdEntry::Valid(id),
            None => IdEntry::Invalid(from_chars(&parts[i])),
        };
        out.push(entry);
        i += 1;
    }
    assert(views(out@) =~= id_entries(ids@));
    out
}

} // verus!
