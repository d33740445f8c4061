//! Resolution of the command line into a validated configuration.

use vstd::prelude::*;
use vstd::string::StringExecFns;
use crate::extensions::{
    extension_list, is_extension, lemma_extension_list_tokens, parse_extension_list,
};
use crate::text::texts;
use crate::output::FORMAT;
use crate::trusted::{path_exists, path_is_dir};
use crate::vocabulary::{is_option, lookup, standard_table, token_is_option, Flag, Vocabulary};

verus! {

/// What the file system holds at a path.
#[derive(Debug, Clone, Copy, PartialEq, Eq)]
pub enum PathKind {
    /// Nothing is there.
    Missing,
    /// Something that is not a directory.
    File,
    /// A directory.
    Directory,
}

/// The resolved plan of one invocation.
#[derive(Debug, PartialEq)]
pub struct Config {
    /// The target as it was given; empty where help is shown.
    pub path: String,
    /// Whether the target was a directory when it was looked at.
    pub path_is_directory: bool,
    /// The extensions to keep, each once and in lower case, in the order
    /// in which they were first listed; empty where nothing is filtered.
    pub extensions_to_filter_for: Vec<String>,
    /// How the result lines of a directory are rendered.
    pub output_format: FORMAT,
    /// Whether subdirectories are searched.
    pub search_subdirectories_recursively: bool,
    /// Whether only the help text is wanted. Where it is set, the other
    /// fields are not to be acted on.
    pub show_help: bool,
}

/// Why a command line could not be resolved.
#[derive(Debug, PartialEq, Eq)]
pub enum ConfigError {
    /// This token begins like an option and is not in the vocabulary.
    InvalidArgument(String),
    /// The filter option is there without a usable list behind it.
    MissingExtensionList,
    /// The target path names nothing in the file system.
    PathNotFound,
}

/// A `Config` as plain mathematical values.
pub struct ConfigModel {
    pub path: Seq<char>,
    pub path_is_directory: bool,
    pub extensions_to_filter_for: Seq<Seq<char>>,
    pub output_format: FORMAT,
    pub search_subdirectories_recursively: bool,
    pub show_help: bool,
}

/// A `ConfigError` as plain mathematical values.
pub enum ConfigErrorModel {
    InvalidArgument(Seq<char>),
    MissingExtensionList,
    PathNotFound,
}

impl View for Config {
    type V = ConfigModel;

    open spec fn view(&self) -> ConfigModel {
        ConfigModel {
            path: self.path@,
            path_is_directory: self.path_is_directory,
            extensions_to_filter_for: texts(self.extensions_to_filter_for@),
            output_format: self.output_format,
            search_subdirectories_recursively: self.search_subdirectories_recursively,
            show_help: self.show_help,
        }
    }
}

impl View for ConfigError {
    type V = ConfigErrorModel;

    open spec fn view(&self) -> ConfigErrorModel {
        match self {
            ConfigError::InvalidArgument(token) => ConfigErrorModel::InvalidArgument(token@),
            ConfigError::MissingExtensionList => ConfigErrorModel::MissingExtensionList,
            ConfigError::PathNotFound => ConfigErrorModel::PathNotFound,
        }
    }
}

impl ConfigErrorModel {
    /// The message that reports the error to the user. An invalid argument
    /// is named.
    pub open spec fn message(self) -> Seq<char> {
        match self {
            ConfigErrorModel::InvalidArgument(token) => "Invalid argument: "@ + token,
            ConfigErrorModel::MissingExtensionList => "Error finding extensions list: no list found"@,
            ConfigErrorModel::PathNotFound => "Invalid path given"@,
        }
    }
}

impl ConfigError {
    /// The message that reports this error to the user.
    pub fn message(&self) -> (text: String)
        ensures
            text@ == self@.message(),
    {
        match self {
            ConfigError::InvalidArgument(token) => {
                let mut text = "Invalid argument: ".to_owned();
                text.append(token.as_str());
                text
            },
            ConfigError::MissingExtensionList => {
                "Error finding extensions list: no list found".to_owned()
            },
            ConfigError::PathNotFound => "Invalid path given".to_owned(),
        }
    }
}

/// The outcome of a resolution as plain mathematical values.
pub open spec fn outcome(r: Result<Config, ConfigError>) -> Result<ConfigModel, ConfigErrorModel> {
    match r {
        Ok(config) => Ok(config@),
        Err(error) => Err(error@),
    }
}

impl ConfigModel {
    /// The invariants of a configuration: the path is empty exactly when
    /// help is shown, every extension is a non-empty run of lower-case
    /// ASCII letters, and no extension occurs twice.
    pub open spec fn well_formed(self) -> bool {
        &&& self.path.len() > 0 <==> !self.show_help
        &&& forall|i: int|
            0 <= i < self.extensions_to_filter_for.len() ==> is_extension(
                #[trigger] self.extensions_to_filter_for[i],
            )
        &&& self.extensions_to_filter_for.no_duplicates()
    }
}

/// The configuration that only asks for the help text.
pub open spec fn help_model() -> ConfigModel {
    ConfigModel {
        path: Seq::<char>::empty(),
        path_is_directory: false,
        extensions_to_filter_for: Seq::<Seq<char>>::empty(),
        output_format: FORMAT::Default,
        search_subdirectories_recursively: false,
        show_help: true,
    }
}

/// The effect of `token`, where it is an option that `table` holds.
pub open spec fn flag_of(table: Seq<(Seq<char>, Flag)>, token: Seq<char>) -> Option<Flag> {
    if is_option(token) {
        lookup(table, token)
    } else {
        None
    }
}

/// `token` begins like an option and `table` does not hold it.
pub open spec fn is_unknown(table: Seq<(Seq<char>, Flag)>, token: Seq<char>) -> bool {
    is_option(token) && lookup(table, token) is None
}

/// The first token of `args` that begins like an option and is not in
/// `table`.
pub open spec fn first_unknown(table: Seq<(Seq<char>, Flag)>, args: Seq<Seq<char>>) -> Option<
    Seq<char>,
>
    decreases args.len(),
{
    if args.len() == 0 {
        None
    } else if is_unknown(table, args[0]) {
        Some(args[0])
    } else {
        first_unknown(table, args.drop_first())
    }
}

/// Some argument is an option with the effect `flag`.
pub open spec fn asks(table: Seq<(Seq<char>, Flag)>, args: Seq<Seq<char>>, flag: Flag) -> bool {
    exists|i: int| 0 <= i < args.len() && #[trigger] flag_of(table, args[i]) == Some(flag)
}

/// The format that the last format option of `args` names, or the default
/// where there is none.
pub open spec fn chosen_format(table: Seq<(Seq<char>, Flag)>, args: Seq<Seq<char>>) -> FORMAT
    decreases args.len(),
{
    if args.len() == 0 {
        FORMAT::Default
    } else {
        match flag_of(table, args.last()) {
            Some(Flag::Format(format)) => format,
            _ => chosen_format(table, args.drop_last()),
        }
    }
}

/// The last filter option of `args`, as it is spelled there.
pub open spec fn filter_token(table: Seq<(Seq<char>, Flag)>, args: Seq<Seq<char>>) -> Option<
    Seq<char>,
>
    decreases args.len(),
{
    if args.len() == 0 {
        None
    } else if flag_of(table, args.last()) == Some(Flag::Filter) {
        Some(args.last())
    } else {
        filter_token(table, args.drop_last())
    }
}

/// The argument that follows the first occurrence of `option` in `args`.
pub open spec fn argument_after(args: Seq<Seq<char>>, option: Seq<char>) -> Option<Seq<char>>
    decreases args.len(),
{
    if args.len() == 0 {
        None
    } else if args[0] == option {
        if args.len() >= 2 {
            Some(args[1])
        } else {
            None
        }
    } else {
        argument_after(args.drop_first(), option)
    }
}

/// The extension list that `option` introduces in `args`. There is none
/// where nothing follows the first occurrence of `option`, where what
/// follows is itself in `table`, and where what follows lists no
/// extension. What follows may be the last argument, which is the target
/// as well.
pub open spec fn list_after(
    table: Seq<(Seq<char>, Flag)>,
    args: Seq<Seq<char>>,
    option: Seq<char>,
) -> Option<Seq<Seq<char>>> {
    match argument_after(args, option) {
        None => None,
        Some(next) => if lookup(table, next) is Some || extension_list(next).len() == 0 {
            None
        } else {
            Some(extension_list(next))
        },
    }
}

/// What the options of `args` settle, before the target path is looked at:
/// the configuration with its path still empty, or the first reason to
/// refuse the command line. An unknown option is reported before a missing
/// extension list.
pub open spec fn options(table: Seq<(Seq<char>, Flag)>, args: Seq<Seq<char>>) -> Result<
    ConfigModel,
    ConfigErrorModel,
> {
    if args.len() <= 1 {
        Ok(help_model())
    } else if first_unknown(table, args) is Some {
        Err(ConfigErrorModel::InvalidArgument(first_unknown(table, args)->0))
    } else {
        let extensions = match filter_token(table, args) {
            None => Some(Seq::<Seq<char>>::empty()),
            Some(option) => list_after(table, args, option),
        };
        match extensions {
            None => Err(ConfigErrorModel::MissingExtensionList),
            Some(list) => Ok(
                ConfigModel {
                    path: Seq::<char>::empty(),
                    path_is_directory: false,
                    extensions_to_filter_for: list,
                    output_format: chosen_format(table, args),
                    search_subdirectories_recursively: asks(table, args, Flag::Recursive),
                    show_help: asks(table, args, Flag::Help),
                },
            ),
        }
    }
}

/// The configuration `draft` with its target set to `path`, which the file
/// system holds as `kind`. An empty path names nothing.
pub open spec fn located(draft: ConfigModel, path: Seq<char>, kind: PathKind) -> Result<
    ConfigModel,
    ConfigErrorModel,
> {
    if path.len() == 0 || kind is Missing {
        Err(ConfigErrorModel::PathNotFound)
    } else {
        Ok(ConfigModel { path: path, path_is_directory: kind is Directory, ..draft })
    }
}

/// The resolution of the command line `args` under the vocabulary `table`,
/// where the file system holds the last argument as `kind`. Errors in the
/// options come first; a request for help is granted without a look at the
/// path; otherwise the last argument is the target.
pub open spec fn resolution(
    table: Seq<(Seq<char>, Flag)>,
    args: Seq<Seq<char>>,
    kind: PathKind,
) -> Result<ConfigModel, ConfigErrorModel> {
    match options(table, args) {
        Err(error) => Err(error),
        Ok(draft) => if draft.show_help {
            Ok(draft)
        } else {
            located(draft, args.last(), kind)
        },
    }
}

/// The option that an error names is the first unknown one: where the
/// token at `at` is unknown and none before it is, it is the one named.
pub proof fn lemma_first_unknown_found(table: Seq<(Seq<char>, Flag)>, args: Seq<Seq<char>>, at: int)
    requires
        0 <= at < args.len(),
        is_unknown(table, args[at]),
        forall|j: int| 0 <= j < at ==> !is_unknown(table, #[trigger] args[j]),
    ensures
        first_unknown(table, args) == Some(args[at]),
    decreases at,
{
    if at > 0 {
        let rest = args.drop_first();
        assert forall|j: int| 0 <= j < at - 1 implies !is_unknown(table, #[trigger] rest[j]) by {
            assert(rest[j] == args[j + 1]);
        }
        lemma_first_unknown_found(table, rest, at - 1);
    }
}

/// Where every token that begins like an option is in the table, none is
/// named.
pub proof fn lemma_first_unknown_absent(table: Seq<(Seq<char>, Flag)>, args: Seq<Seq<char>>)
    requires
        forall|j: int| 0 <= j < args.len() ==> !is_unknown(table, #[trigger] args[j]),
    ensures
        first_unknown(table, args) is None,
    decreases args.len(),
{
    if args.len() > 0 {
        let rest = args.drop_first();
        assert forall|j: int| 0 <= j < rest.len() implies !is_unknown(table, #[trigger] rest[j]) by {
            assert(rest[j] == args[j + 1]);
        }
        lemma_first_unknown_absent(table, rest);
    }
}

/// Finds the extension list that `option` introduces in `args`: the
/// argument behind the first occurrence of `option`, read as a
/// comma-separated list.
pub fn get_list_from_args_after_option(
    vocabulary: &Vocabulary,
    args: &[String],
    option: &String,
) -> (r: Result<Vec<String>, ConfigError>)
    ensures
        match list_after(vocabulary@, texts(args@), option@) {
            Some(list) => r matches Ok(found) && texts(found@) == list,
            None => r == Err::<Vec<String>, ConfigError>(ConfigError::MissingExtensionList),
        },
        r matches Ok(found) ==> found.len() > 0 && texts(found@).no_duplicates(),
{
    let ghost all = texts(args@);
    let mut i: usize = 0;
    assert(all.skip(0) == all);
    while i < args.len()
        invariant
            i <= args.len(),
            all == texts(args@),
            argument_after(all, option@) == argument_after(all.skip(i as int), option@),
        decreases args.len() - i,
    {
        assert(all.skip(i as int)[0] == all[i as int]);
        assert(all.skip(i as int).drop_first() == all.skip(i as int + 1));
        if args[i] == *option {
            if i + 1 < args.len() {
                assert(all.skip(i as int)[1] == all[i as int + 1]);
                let next = &args[i + 1];
                if vocabulary.lookup(next).is_some() {
                    return Err(ConfigError::MissingExtensionList);
                }
                let list = parse_extension_list(next.as_str());
                assert(texts(list@).len() == list.len());
                if list.len() == 0 {
                    return Err(ConfigError::MissingExtensionList);
                }
                return Ok(list);
            } else {
                return Err(ConfigError::MissingExtensionList);
            }
        }
        i = i + 1;
    }
    Err(ConfigError::MissingExtensionList)
}

/// A command line of at most one token asks for help and nothing else,
/// whatever the token is and whatever the file system holds.
pub proof fn lemma_short_command_line_shows_help(
    table: Seq<(Seq<char>, Flag)>,
    args: Seq<Seq<char>>,
    kind: PathKind,
)
    requires
        args.len() <= 1,
    ensures
        resolution(table, args, kind) == Ok::<ConfigModel, ConfigErrorModel>(help_model()),
{
}

/// The vocabulary is closed: a longer command line with an option that the
/// table does not hold is refused, and the error names such an option.
pub proof fn lemma_unknown_option_is_refused(
    table: Seq<(Seq<char>, Flag)>,
    args: Seq<Seq<char>>,
    kind: PathKind,
    at: int,
)
    requires
        args.len() > 1,
        0 <= at < args.len(),
        is_unknown(table, args[at]),
    ensures
        resolution(table, args, kind) matches Err(ConfigErrorModel::InvalidArgument(token))
            && is_unknown(table, token),
{
    lemma_first_unknown_is_unknown(table, args);
    if first_unknown(table, args) is None {
        lemma_first_unknown_none(table, args, at);
    }
}

/// The token that is named is indeed unknown.
proof fn lemma_first_unknown_is_unknown(table: Seq<(Seq<char>, Flag)>, args: Seq<Seq<char>>)
    ensures
        first_unknown(table, args) matches Some(token) ==> is_unknown(table, token),
    decreases args.len(),
{
    if args.len() > 0 && !is_unknown(table, args[0]) {
        lemma_first_unknown_is_unknown(table, args.drop_first());
    }
}

/// Where no token is named, none is unknown.
proof fn lemma_first_unknown_none(table: Seq<(Seq<char>, Flag)>, args: Seq<Seq<char>>, at: int)
    requires
        first_unknown(table, args) is None,
        0 <= at < args.len(),
    ensures
        !is_unknown(table, args[at]),
    decreases args.len(),
{
    if at > 0 {
        assert(args.drop_first()[at - 1] == args[at]);
        lemma_first_unknown_none(table, args.drop_first(), at - 1);
    }
}

/// Of several format options the last one wins: where the token at `at`
/// names a format and no later token names one, that format is chosen.
pub proof fn lemma_last_format_wins(
    table: Seq<(Seq<char>, Flag)>,
    args: Seq<Seq<char>>,
    at: int,
    format: FORMAT,
)
    requires
        0 <= at < args.len(),
        flag_of(table, args[at]) == Some(Flag::Format(format)),
        forall|j: int| at < j < args.len() ==> !(#[trigger] flag_of(table, args[j]) is Some
            && flag_of(table, args[j])->0 is Format),
    ensures
        chosen_format(table, args) == format,
    decreases args.len(),
{
    if at < args.len() - 1 {
        let shorter = args.drop_last();
        assert(flag_of(table, args[args.len() - 1]) is Some ==> !(flag_of(
            table,
            args[args.len() - 1],
        )->0 is Format));
        assert(shorter[at] == args[at]);
        assert forall|j: int| at < j < shorter.len() implies !(#[trigger] flag_of(
            table,
            shorter[j],
        ) is Some && flag_of(table, shorter[j])->0 is Format) by {
            assert(shorter[j] == args[j]);
        }
        lemma_last_format_wins(table, shorter, at, format);
    }
}

/// Without a format option the default format is chosen.
pub proof fn lemma_no_format_is_default(table: Seq<(Seq<char>, Flag)>, args: Seq<Seq<char>>)
    requires
        forall|j: int| 0 <= j < args.len() ==> !(#[trigger] flag_of(table, args[j]) is Some
            && flag_of(table, args[j])->0 is Format),
    ensures
        chosen_format(table, args) == FORMAT::Default,
    decreases args.len(),
{
    if args.len() > 0 {
        let shorter = args.drop_last();
        assert(flag_of(table, args[args.len() - 1]) is Some ==> !(flag_of(
            table,
            args[args.len() - 1],
        )->0 is Format));
        assert forall|j: int| 0 <= j < shorter.len() implies !(#[trigger] flag_of(
            table,
            shorter[j],
        ) is Some && flag_of(table, shorter[j])->0 is Format) by {
            assert(shorter[j] == args[j]);
        }
        lemma_no_format_is_default(table, shorter);
    }
}

/// The list is read behind the first occurrence of the option: where
/// `option` stands at `at` and nowhere before, the argument after it is the
/// one at `at + 1`, if there is one.
pub proof fn lemma_argument_after_first(args: Seq<Seq<char>>, option: Seq<char>, at: int)
    requires
        0 <= at < args.len(),
        args[at] == option,
        forall|j: int| 0 <= j < at ==> #[trigger] args[j] != option,
    ensures
        argument_after(args, option) == if at + 1 < args.len() {
            Some(args[at + 1])
        } else {
            None
        },
    decreases at,
{
    if at > 0 {
        let rest = args.drop_first();
        assert(args[0] != option);
        assert(rest[at - 1] == args[at]);
        assert forall|j: int| 0 <= j < at - 1 implies #[trigger] rest[j] != option by {
            assert(rest[j] == args[j + 1]);
        }
        lemma_argument_after_first(rest, option, at - 1);
        if at + 1 < args.len() {
            assert(rest[at] == args[at + 1]);
        }
    }
}

/// A request for help is granted without a look at the target: where the
/// options are in order and one of them asks for help, the outcome is the
/// same whatever the file system holds, and its path is empty.
pub proof fn lemma_help_skips_the_path(
    table: Seq<(Seq<char>, Flag)>,
    args: Seq<Seq<char>>,
    kind: PathKind,
)
    requires
        options(table, args) matches Ok(draft) && draft.show_help,
    ensures
        resolution(table, args, kind) == options(table, args),
        resolution(table, args, kind) matches Ok(config) && config.show_help && config.path.len()
            == 0,
{
}

/// Every configuration that a resolution yields keeps the invariants: its
/// path is empty exactly when help is shown, and its extensions are
/// non-empty runs of lower-case ASCII letters.
pub proof fn lemma_resolution_well_formed(
    table: Seq<(Seq<char>, Flag)>,
    args: Seq<Seq<char>>,
    kind: PathKind,
)
    ensures
        resolution(table, args, kind) matches Ok(config) ==> config.well_formed(),
{
    if args.len() > 1 && first_unknown(table, args) is None {
        if let Some(option) = filter_token(table, args) {
            if let Some(next) = argument_after(args, option) {
                lemma_extension_list_tokens(next);
            }
        }
    }
}

/// One more argument asks for what the others asked for, and for its own
/// flag.
proof fn lemma_asks_push(
    table: Seq<(Seq<char>, Flag)>,
    args: Seq<Seq<char>>,
    token: Seq<char>,
    flag: Flag,
)
    ensures
        asks(table, args.push(token), flag) == (asks(table, args, flag) || flag_of(table, token)
            == Some(flag)),
{
    let longer = args.push(token);
    if asks(table, args, flag) {
        let i = choose|i: int| 0 <= i < args.len() && #[trigger] flag_of(table, args[i]) == Some(flag);
        assert(flag_of(table, longer[i]) == Some(flag));
    }
    if flag_of(table, token) == Some(flag) {
        assert(flag_of(table, longer[args.len() as int]) == Some(flag));
    }
    if asks(table, longer, flag) {
        let i = choose|i: int|
            0 <= i < longer.len() && #[trigger] flag_of(table, longer[i]) == Some(flag);
        if i < args.len() {
            assert(flag_of(table, args[i]) == Some(flag));
        }
    }
}

/// Asks the file system what it holds at `path`: whether anything is
/// there and, if so, whether it is a directory. What comes back depends on
/// the disk; `PathKind::of` says what each answer means.
fn probe(path: &str) -> (kind: PathKind) {
    let found = path_exists(path);
    let directory = found && path_is_dir(path);
    PathKind::of(found, directory)
}

/// What the file system holds at a path, from its two answers: nothing
/// where nothing was found, else a directory or a file.
pub open spec fn kind_of(found: bool, directory: bool) -> PathKind {
    if !found {
        PathKind::Missing
    } else if directory {
        PathKind::Directory
    } else {
        PathKind::File
    }
}

impl PathKind {
    /// Reads the two answers of the file system: whether the path names
    /// anything, and whether it names a directory.
    pub fn of(found: bool, directory: bool) -> (kind: PathKind)
        ensures
            kind == kind_of(found, directory),
    {
        if !found {
            PathKind::Missing
        } else if directory {
            PathKind::Directory
        } else {
            PathKind::File
        }
    }
}

impl Config {
    /// The configuration that only asks for the help text.
    pub fn help_only() -> (config: Config)
        ensures
            config@ == help_model(),
    {
        let config = Config {
            path: String::new(),
            path_is_directory: false,
            extensions_to_filter_for: Vec::new(),
            output_format: FORMAT::Default,
            search_subdirectories_recursively: false,
            show_help: true,
        };
        assert(config@.extensions_to_filter_for =~= Seq::<Seq<char>>::empty());
        config
    }

    /// Reads the options of `args` under `vocabulary`, without a look at the
    /// target path.
    pub fn from_options(vocabulary: &Vocabulary, args: &[String]) -> (r: Result<
        Config,
        ConfigError,
    >)
        ensures
            outcome(r) == options(vocabulary@, texts(args@)),
    {
        if args.len() <= 1 {
            return Ok(Config::help_only());
        }
        let ghost table = vocabulary@;
        let ghost all = texts(args@);
        let mut format = FORMAT::Default;
        let mut recursive = false;
        let mut help = false;
        let mut filter_at: Option<usize> = None;
        let mut i: usize = 0;
        while i < args.len()
            invariant
                1 < args.len(),
                i <= args.len(),
                all == texts(args@),
                table == vocabulary@,
                forall|j: int| 0 <= j < i ==> !is_unknown(table, #[trigger] all[j]),
                format == chosen_format(table, all.take(i as int)),
                recursive == asks(table, all.take(i as int), Flag::Recursive),
                help == asks(table, all.take(i as int), Flag::Help),
                match filter_at {
                    Some(k) => k < i && filter_token(table, all.take(i as int)) == Some(
                        all[k as int],
                    ),
                    None => filter_token(table, all.take(i as int)) is None,
                },
            decreases args.len() - i,
        {
            let token = &args[i];
            proof {
                let seen = all.take(i as int);
                assert(all.take(i as int + 1) == seen.push(token@));
                assert(seen.push(token@).drop_last() == seen);
                lemma_asks_push(table, seen, token@, Flag::Recursive);
                lemma_asks_push(table, seen, token@, Flag::Help);
            }
            if token_is_option(token.as_str()) {
                match vocabulary.lookup(token) {
                    None => {
                        proof {
                            lemma_first_unknown_found(table, all, i as int);
                        }
                        return Err(ConfigError::InvalidArgument(token.clone()));
                    },
                    Some(Flag::Filter) => {
                        filter_at = Some(i);
                    },
                    Some(Flag::Format(named)) => {
                        format = named;
                    },
                    Some(Flag::Recursive) => {
                        recursive = true;
                    },
                    Some(Flag::Help) => {
                        help = true;
                    },
                }
            }
            i = i + 1;
        }
        proof {
            lemma_first_unknown_absent(table, all);
            assert(all.take(args.len() as int) == all);
        }
        let extensions = match filter_at {
            None => Vec::new(),
            Some(k) => match get_list_from_args_after_option(vocabulary, args, &args[k]) {
                Ok(list) => list,
                Err(error) => {
                    return Err(error);
                },
            },
        };
        let config = Config {
            path: String::new(),
            path_is_directory: false,
            extensions_to_filter_for: extensions,
            output_format: format,
            search_subdirectories_recursively: recursive,
            show_help: help,
        };
        proof {
            if filter_at is None {
                assert(config@.extensions_to_filter_for =~= Seq::<Seq<char>>::empty());
            }
        }
        Ok(config)
    }

    /// Sets the target of this configuration to `path`, which the file
    /// system holds as `kind`.
    pub fn locate(self, path: &String, kind: PathKind) -> (r: Result<Config, ConfigError>)
        ensures
            outcome(r) == located(self@, path@, kind),
    {
        if path.as_str().is_empty() {
            return Err(ConfigError::PathNotFound);
        }
        match kind {
            PathKind::Missing => Err(ConfigError::PathNotFound),
            PathKind::File => Ok(
                Config {
                    path: path.clone(),
                    path_is_directory: false,
                    extensions_to_filter_for: self.extensions_to_filter_for,
                    output_format: self.output_format,
                    search_subdirectories_recursively: self.search_subdirectories_recursively,
                    show_help: self.show_help,
                },
            ),
            PathKind::Directory => Ok(
                Config {
                    path: path.clone(),
                    path_is_directory: true,
                    extensions_to_filter_for: self.extensions_to_filter_for,
                    output_format: self.output_format,
                    search_subdirectories_recursively: self.search_subdirectories_recursively,
                    show_help: self.show_help,
                },
            ),
        }
    }

    /// Resolves `args` under `vocabulary`, where the file system holds the
    /// last argument as `kind`.
    pub fn resolve(vocabulary: &Vocabulary, args: &[String], kind: PathKind) -> (r: Result<
        Config,
        ConfigError,
    >)
        ensures
            outcome(r) == resolution(vocabulary@, texts(args@), kind),
            r matches Ok(config) ==> config@.well_formed(),
    {
        proof {
            lemma_resolution_well_formed(vocabulary@, texts(args@), kind);
        }
        match Config::from_options(vocabulary, args) {
            Err(error) => Err(error),
            Ok(draft) => if draft.show_help {
                Ok(draft)
            } else {
                let target = &args[args.len() - 1];
                draft.locate(target, kind)
            },
        }
    }

    /// Resolves the command line `args` under the standard vocabulary. The
    /// file system is asked about the last argument, and only where the
    /// options are in order and do not ask for help. What the options
    /// settle is owed whatever the disk holds; the rest is the resolution
    /// for what the file system answered.
    pub fn new(args: &[String]) -> (r: Result<Config, ConfigError>)
        ensures
            match options(standard_table(), texts(args@)) {
                Err(error) => outcome(r) == Err::<ConfigModel, ConfigErrorModel>(error),
                Ok(draft) => if draft.show_help {
                    outcome(r) == Ok::<ConfigModel, ConfigErrorModel>(draft)
                } else {
                    exists|kind: PathKind|
                        outcome(r) == #[trigger] located(draft, texts(args@).last(), kind)
                },
            },
            args.len() <= 1 ==> outcome(r) == Ok::<ConfigModel, ConfigErrorModel>(help_model()),
            r matches Ok(config) ==> config@.well_formed(),
    {
        let vocabulary = Vocabulary::standard();
        proof {
            lemma_resolution_well_formed(standard_table(), texts(args@), PathKind::Missing);
            lemma_resolution_well_formed(standard_table(), texts(args@), PathKind::File);
            lemma_resolution_well_formed(standard_table(), texts(args@), PathKind::Directory);
        }
        match Config::from_options(&vocabulary, args) {
            Err(error) => Err(error),
            Ok(draft) => if draft.show_help {
                Ok(draft)
            } else {
                let target = &args[args.len() - 1];
                let kind = probe(target.as_str());
                let r = draft.locate(target, kind);
                assert(outcome(r) == located(draft@, texts(args@).last(), kind));
                assert(outcome(r) == resolution(standard_table(), texts(args@), kind));
                r
            },
        }
    }
}

} // verus!
