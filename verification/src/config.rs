//! The configuration of a run, read from the words of a command line.

use crate::numbers::{count_of, parse_count};
use crate::pattern::{regex_accepts, GroupReport, Pattern, PatternModel};
use crate::search::SearchConfig;
use crate::text::same_text;
use vstd::prelude::*;
use vstd::string::StringExecFns;
use vstd::utf8::*;

verus! {

/// Why a run cannot start, or cannot go on.
#[derive(Clone, Debug, PartialEq, Eq)]
pub enum ConfigError {
    /// The search term or the folder is missing.
    NotEnoughArguments,
    /// `-n` stands where no number can follow it.
    NoNumberForCommandN,
    /// What follows `-n` is not a number.
    OptionForCommandNisNotaNumber,
    /// An option that is not known.
    InvalidOption(String),
    /// Help was asked for.
    HelpRequested,
    /// The path given is not a folder.
    IsNotAFolder(String),
    /// A folder could not be read.
    ReadDirError(String),
    /// An entry of a folder could not be read.
    EntryProcessingError(String),
    /// The kind of an entry could not be told.
    EntryNotFile,
    /// A file could not be read as text.
    FileReadError(String),
    /// The search term is not a regular expression.
    InvalidRegex,
}

/// An error for contracts, with its text as characters.
pub enum ConfigErrorModel {
    NotEnoughArguments,
    NoNumberForCommandN,
    OptionForCommandNisNotaNumber,
    InvalidOption(Seq<char>),
    HelpRequested,
    IsNotAFolder(Seq<char>),
    ReadDirError(Seq<char>),
    EntryProcessingError(Seq<char>),
    EntryNotFile,
    FileReadError(Seq<char>),
    InvalidRegex,
}

impl View for ConfigError {
    type V = ConfigErrorModel;

    open spec fn view(&self) -> ConfigErrorModel {
        match self {
            ConfigError::NotEnoughArguments => ConfigErrorModel::NotEnoughArguments,
            ConfigError::NoNumberForCommandN => ConfigErrorModel::NoNumberForCommandN,
            ConfigError::OptionForCommandNisNotaNumber => ConfigErrorModel::OptionForCommandNisNotaNumber,
            ConfigError::InvalidOption(option) => ConfigErrorModel::InvalidOption(option@),
            ConfigError::HelpRequested => ConfigErrorModel::HelpRequested,
            ConfigError::IsNotAFolder(path) => ConfigErrorModel::IsNotAFolder(path@),
            ConfigError::ReadDirError(path) => ConfigErrorModel::ReadDirError(path@),
            ConfigError::EntryProcessingError(cause) => ConfigErrorModel::EntryProcessingError(
                cause@,
            ),
            ConfigError::EntryNotFile => ConfigErrorModel::EntryNotFile,
            ConfigError::FileReadError(cause) => ConfigErrorModel::FileReadError(cause@),
            ConfigError::InvalidRegex => ConfigErrorModel::InvalidRegex,
        }
    }
}

impl ConfigErrorModel {
    /// The message that tells a user of the error.
    pub open spec fn message(self) -> Seq<char> {
        match self {
            ConfigErrorModel::NotEnoughArguments => "You need to give at least 2 argument(run \"cargo run +help\" for more details on the commands available)"@,
            ConfigErrorModel::NoNumberForCommandN => "The option -n needs to be proceded by a number"@,
            ConfigErrorModel::OptionForCommandNisNotaNumber => "The argument of the option -n needs to be a number"@,
            ConfigErrorModel::InvalidOption(option) => "Invalid option "@ + option
                + " (run \"cargo run +help\" for more details on the commands available)"@,
            ConfigErrorModel::HelpRequested => "Help Display"@,
            ConfigErrorModel::IsNotAFolder(path) => path + " isn't the path to a folder"@,
            ConfigErrorModel::ReadDirError(path) => "Failed to read directory: "@ + path,
            ConfigErrorModel::EntryProcessingError(cause) => "Error processing directory entry: "@
                + cause,
            ConfigErrorModel::EntryNotFile => "Entry isn't a file"@,
            ConfigErrorModel::FileReadError(cause) => "There was an error reading a file "@
                + cause,
            ConfigErrorModel::InvalidRegex => "Invalid Regex Format"@,
        }
    }
}

impl ConfigError {
    /// The message that tells a user of the error.
    pub fn message(&self) -> (text: String)
        ensures
            text@ == self@.message(),
    {
        match self {
            ConfigError::NotEnoughArguments => "You need to give at least 2 argument(run \"cargo run +help\" for more details on the commands available)".to_owned(),
            ConfigError::NoNumberForCommandN => "The option -n needs to be proceded by a number".to_owned(),
            ConfigError::OptionForCommandNisNotaNumber => "The argument of the option -n needs to be a number".to_owned(),
            ConfigError::InvalidOption(option) => {
                let mut text = "Invalid option ".to_owned();
                text.append(option.as_str());
                text.append(
                    " (run \"cargo run +help\" for more details on the commands available)",
                );
                text
            },
            ConfigError::HelpRequested => "Help Display".to_owned(),
            ConfigError::IsNotAFolder(path) => {
                let mut text = path.clone();
                text.append(" isn't the path to a folder");
                text
            },
            ConfigError::ReadDirError(path) => {
                let mut text = "Failed to read directory: ".to_owned();
                text.append(path.as_str());
                text
            },
            ConfigError::EntryProcessingError(cause) => {
                let mut text = "Error processing directory entry: ".to_owned();
                text.append(cause.as_str());
                text
            },
            ConfigError::EntryNotFile => "Entry isn't a file".to_owned(),
            ConfigError::FileReadError(cause) => {
                let mut text = "There was an error reading a file ".to_owned();
                text.append(cause.as_str());
                text
            },
            ConfigError::InvalidRegex => "Invalid Regex Format".to_owned(),
        }
    }
}

/// What the options of a command line ask for.
#[derive(Clone, Copy, Debug, PartialEq, Eq, Structural)]
pub struct Flags {
    /// The number given with `-n`: how many lines the run may scan.
    pub max_lines: Option<usize>,
    /// `-i` was given: letter case is ignored.
    pub ignore_case: bool,
    /// `-c` was given: only the number of occurrences is shown.
    pub only_count: bool,
    /// `-r` was given: the search term is a regular expression.
    pub use_regex: bool,
}

/// The options read from a command line up to the place where the reading
/// stopped, and the error that stopped it, if one did.
#[derive(Clone, Debug, PartialEq, Eq)]
pub struct FlagScan {
    pub flags: Flags,
    pub stopped_by: Option<ConfigError>,
}

/// A `FlagScan` for contracts.
pub struct FlagScanModel {
    pub flags: Flags,
    pub stopped_by: Option<ConfigErrorModel>,
}

impl View for FlagScan {
    type V = FlagScanModel;

    open spec fn view(&self) -> FlagScanModel {
        FlagScanModel {
            flags: self.flags,
            stopped_by: match self.stopped_by {
                Some(error) => Some(error@),
                None => None,
            },
        }
    }
}

impl Flags {
    /// No option was given.
    pub open spec fn none() -> Flags {
        Flags { max_lines: None, ignore_case: false, only_count: false, use_regex: false }
    }
}

/// The words of a command line as texts.
pub open spec fn arg_texts(args: Seq<String>) -> Seq<Seq<char>> {
    args.map_values(|word: String| word@)
}

/// Reads the options from the word at `at` on, `flags` having been read
/// before. The last word is the folder and no option. `-n` takes the word
/// behind it as its number, which must not be the last word; `-i`, `-c` and
/// `-r` stand alone; a later `-n` replaces an earlier one. The reading stops
/// at the first word that is none of these, and at a `-n` without a number.
pub open spec fn flags_from(args: Seq<Seq<char>>, at: int, flags: Flags) -> FlagScanModel
    decreases args.len() - at,
{
    if at < 0 || at + 1 >= args.len() {
        FlagScanModel { flags, stopped_by: None }
    } else if args[at] == "-n"@ {
        if at + 2 < args.len() {
            match count_of(encode_utf8(args[at + 1])) {
                Some(lines) => flags_from(args, at + 2, Flags { max_lines: Some(lines), ..flags }),
                None => FlagScanModel {
                    flags,
                    stopped_by: Some(ConfigErrorModel::OptionForCommandNisNotaNumber),
                },
            }
        } else {
            FlagScanModel { flags, stopped_by: Some(ConfigErrorModel::NoNumberForCommandN) }
        }
    } else if args[at] == "-i"@ {
        flags_from(args, at + 1, Flags { ignore_case: true, ..flags })
    } else if args[at] == "-c"@ {
        flags_from(args, at + 1, Flags { only_count: true, ..flags })
    } else if args[at] == "-r"@ {
        flags_from(args, at + 1, Flags { use_regex: true, ..flags })
    } else {
        FlagScanModel { flags, stopped_by: Some(ConfigErrorModel::InvalidOption(args[at])) }
    }
}

/// Reads the options of a command line: the words from the third up to the
/// last but one.
pub fn scan_flags(args: &[String]) -> (scan: FlagScan)
    ensures
        scan@ == flags_from(arg_texts(args@), 2, Flags::none()),
{
    let ghost words = arg_texts(args@);
    let total: usize = args.len();
    let mut flags = Flags {
        max_lines: None,
        ignore_case: false,
        only_count: false,
        use_regex: false,
    };
    if total < 3 {
        return FlagScan { flags, stopped_by: None };
    }
    let mut at: usize = 2;
    while at < total - 1
        invariant
            2 <= at <= total == args@.len(),
            words == arg_texts(args@),
            flags_from(words, at as int, flags) == flags_from(words, 2, Flags::none()),
        decreases total - at,
    {
        let word = args[at].as_str();
        assert(words[at as int] == word@);
        if same_text(word, "-n") {
            if at + 2 < total {
                assert(words[at + 1] == args@[at + 1]@);
                match parse_count(args[at + 1].as_str()) {
                    Some(lines) => {
                        flags.max_lines = Some(lines);
                        at += 2;
                    },
                    None => {
                        return FlagScan {
                            flags,
                            stopped_by: Some(ConfigError::OptionForCommandNisNotaNumber),
                        };
                    },
                }
            } else {
                return FlagScan { flags, stopped_by: Some(ConfigError::NoNumberForCommandN) };
            }
        } else if same_text(word, "-i") {
            flags.ignore_case = true;
            at += 1;
        } else if same_text(word, "-c") {
            flags.only_count = true;
            at += 1;
        } else if same_text(word, "-r") {
            flags.use_regex = true;
            at += 1;
        } else {
            return FlagScan {
                flags,
                stopped_by: Some(ConfigError::InvalidOption(args[at].clone())),
            };
        }
    }
    FlagScan { flags, stopped_by: None }
}

/// The configuration of a run.
#[derive(Debug)]
pub struct Config {
    /// What to search for, and how.
    pub search: SearchConfig,
    /// Whether only the number of occurrences is shown.
    pub only_count: bool,
    /// The folder to search.
    pub folder_name: String,
}

/// A configuration for contracts.
pub struct ConfigModel {
    pub pattern: PatternModel,
    pub line_budget: Option<usize>,
    pub only_count: bool,
    pub folder_name: Seq<char>,
}

impl View for Config {
    type V = ConfigModel;

    open spec fn view(&self) -> ConfigModel {
        ConfigModel {
            pattern: self.search.pattern@,
            line_budget: self.search.line_budget,
            only_count: self.only_count,
            folder_name: self.folder_name@,
        }
    }
}

/// A configuration or an error, for contracts.
pub open spec fn outcome_view(outcome: Result<Config, ConfigError>) -> Result<
    ConfigModel,
    ConfigErrorModel,
> {
    match outcome {
        Ok(config) => Ok(config@),
        Err(error) => Err(error@),
    }
}

/// The configuration that the options read give, for the search term
/// `search` and the folder `folder`. `compiled` is the search term as a
/// regular expression, where it is one. Where `-r` was read and the term is
/// no regular expression, that is the error, whatever else went wrong
/// behind the `-r`. Otherwise the error that stopped the reading stands, and
/// without one the configuration is made. A literal term ignores letter
/// case where `-i` was read.
pub open spec fn assemble(
    search: Seq<char>,
    folder: Seq<char>,
    scan: FlagScanModel,
    compiled: Option<PatternModel>,
) -> Result<ConfigModel, ConfigErrorModel> {
    if scan.flags.use_regex && compiled is None {
        Err(ConfigErrorModel::InvalidRegex)
    } else {
        match scan.stopped_by {
            Some(error) => Err(error),
            None => Ok(
                ConfigModel {
                    pattern: if scan.flags.use_regex {
                        compiled->0
                    } else {
                        PatternModel::Literal { term: search, ignore_case: scan.flags.ignore_case }
                    },
                    line_budget: scan.flags.max_lines,
                    only_count: scan.flags.only_count,
                    folder_name: folder,
                },
            ),
        }
    }
}

/// The search term as the regular expression that a command line asks for,
/// where the regex engine accepts it: every group is reported, and letter
/// case is ignored where `-i` was read.
pub open spec fn regex_of(search: Seq<char>, ignore_case: bool) -> Option<PatternModel> {
    if regex_accepts(search, ignore_case) {
        Some(
            PatternModel::Regex { source: search, ignore_case, groups: GroupReport::EveryGroup },
        )
    } else {
        None
    }
}

/// What a command line means. Its first word is the program, the second
/// the search term, the last the folder, and the words between them are the
/// options. With `-r` the search term must be a regular expression that the
/// regex engine accepts; with `-i` letter case is ignored, for a literal
/// term and for a regular expression alike, wherever `-i` stands among the
/// options.
pub open spec fn parse_args(args: Seq<Seq<char>>) -> Result<ConfigModel, ConfigErrorModel> {
    if args.len() < 2 {
        Err(ConfigErrorModel::NotEnoughArguments)
    } else if args[1] == "+help"@ {
        Err(ConfigErrorModel::HelpRequested)
    } else if args.len() < 3 {
        Err(ConfigErrorModel::NotEnoughArguments)
    } else {
        let scan = flags_from(args, 2, Flags::none());
        assemble(args[1], args[args.len() - 1], scan, regex_of(args[1], scan.flags.ignore_case))
    }
}

impl Config {
    /// Makes the configuration from the options read. `compiled` is the
    /// search term as a regular expression, where it was compiled; it is
    /// looked at only where `-r` was read.
    pub fn from_scan(search: &str, folder: &str, scan: FlagScan, compiled: Option<Pattern>) -> (made:
        Result<Config, ConfigError>)
        ensures
            outcome_view(made) == assemble(
                search@,
                folder@,
                scan@,
                match compiled {
                    Some(pattern) => Some(pattern@),
                    None => None,
                },
            ),
    {
        let pattern = if scan.flags.use_regex {
            match compiled {
                Some(pattern) => pattern,
                None => {
                    return Err(ConfigError::InvalidRegex);
                },
            }
        } else {
            Pattern::literal(search, scan.flags.ignore_case)
        };
        match scan.stopped_by {
            Some(error) => Err(error),
            None => Ok(
                Config {
                    search: SearchConfig { pattern, line_budget: scan.flags.max_lines },
                    only_count: scan.flags.only_count,
                    folder_name: folder.to_owned(),
                },
            ),
        }
    }

    /// Reads the configuration of a run from the words of its command
    /// line.
    pub fn new(args: &[String]) -> (made: Result<Config, ConfigError>)
        ensures
            outcome_view(made) == parse_args(arg_texts(args@)),
    {
        let total: usize = args.len();
        if total < 2 {
            return Err(ConfigError::NotEnoughArguments);
        }
        let search = args[1].as_str();
        assert(arg_texts(args@)[1] == search@);
        if same_text(search, "+help") {
            return Err(ConfigError::HelpRequested);
        }
        if total < 3 {
            return Err(ConfigError::NotEnoughArguments);
        }
        let folder = args[total - 1].as_str();
        assert(arg_texts(args@)[total - 1] == folder@);
        let scan = scan_flags(args);
        let compiled: Option<Pattern> = if scan.flags.use_regex {
            match Pattern::regex(search, scan.flags.ignore_case, GroupReport::EveryGroup) {
                Ok(pattern) => Some(pattern),
                Err(_) => None,
            }
        } else {
            None
        };
        Self::from_scan(search, folder, scan, compiled)
    }
}

} // verus!
