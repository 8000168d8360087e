//! The command line's options, and the settings that a conversion runs with.

use crate::text::{decimal_byte, first_byte, joined, parse_byte, same_text, split_on};
use vstd::prelude::*;
use vstd::utf8::encode_utf8;

verus! {

/// The options as the command line gave them.
#[derive(Debug, PartialEq, Eq)]
pub struct CliArgs {
    /// The column delimiter; its first byte is used.
    pub delimiter: Option<String>,
    /// The escape character for quotes; its first byte is used.
    pub escape_char: Option<String>,
    /// Column names, separated by commas, that the user asked to skip.
    pub ignored_headings: Option<String>,
    /// Whether rows of differing width end the run.
    pub inflexible: bool,
    /// The directory for the output, if not the current one.
    pub output_dir: Option<String>,
    /// A file name shared by all languages, each in a directory of its own.
    pub output_filename: Option<String>,
    /// The byte that ends a record, written in decimal.
    pub terminator: Option<String>,
    /// Whether fields are trimmed of white space.
    pub trim: Option<bool>,
    /// Whether the version was asked for.
    pub version: Option<bool>,
    /// The table to convert.
    pub file: String,
}

/// What ends a record of the table.
#[derive(Clone, Copy, Debug, PartialEq, Eq, Structural)]
pub enum Terminator {
    /// A carriage return, a line feed, or both.
    CRLF,
    /// This byte.
    Any(u8),
}

/// What is trimmed of white space while the table is read.
#[derive(Clone, Copy, Debug, PartialEq, Eq, Structural)]
pub enum Trim {
    /// Nothing.
    Off,
    /// The headers.
    Headers,
    /// The fields of the rows.
    Fields,
    /// Headers and fields.
    All,
}

/// Why the options give no settings.
#[derive(Clone, Copy, Debug, PartialEq, Eq, Structural)]
pub enum ConfigError {
    /// The delimiter was given as an empty text.
    EmptyDelimiter,
    /// The escape character was given as an empty text.
    EmptyEscape,
    /// The terminator is not a byte written in decimal.
    InvalidTerminator,
}

/// The settings of a conversion.
#[derive(Debug, PartialEq, Eq)]
pub struct Config<'a> {
    /// The byte between two columns.
    pub delimiter: u8,
    /// The byte that escapes a quote.
    pub escape_char: u8,
    /// The column names that the user asked to skip.
    pub ignored_headings: Option<Vec<&'a str>>,
    /// Whether rows may differ in width.
    pub flexible: bool,
    /// The directory for the output; empty for the current one.
    pub output_dir: &'a str,
    /// A file name shared by all languages, each in a directory of its own.
    pub output_filename: Option<&'a str>,
    /// What ends a record.
    pub terminator_char: Terminator,
    /// What is trimmed of white space.
    pub trim_whitespace: Trim,
}

/// Whether a file with this extension is read as tab-separated.
pub open spec fn names_tsv(file_extension: Option<Seq<char>>) -> bool {
    file_extension == Some("tsv"@)
}

/// The byte that an option names by its first byte, or `fallback` where the
/// option was not given. An empty text names no byte.
pub open spec fn chosen_byte(given: Option<Seq<char>>, fallback: u8) -> Option<u8> {
    match given {
        Some(text) => if text.len() > 0 {
            Some(encode_utf8(text)[0])
        } else {
            None
        },
        None => Some(fallback),
    }
}

/// The terminator that the option names in decimal, or the one that goes with
/// the kind of file where the option was not given.
pub open spec fn chosen_terminator(given: Option<Seq<char>>, tsv: bool) -> Option<Terminator> {
    match given {
        Some(text) => match decimal_byte(text) {
            Some(byte) => Some(Terminator::Any(byte)),
            None => None,
        },
        None => Some(
            if tsv {
                Terminator::Any(10)
            } else {
                Terminator::CRLF
            },
        ),
    }
}

/// The first reason, in the order delimiter, escape character, terminator, for
/// which the options give no settings.
pub open spec fn refusal(args: &CliArgs) -> Option<ConfigError> {
    if chosen_byte(args.delimiter.deep_view(), 0) is None {
        Some(ConfigError::EmptyDelimiter)
    } else if chosen_byte(args.escape_char.deep_view(), 0) is None {
        Some(ConfigError::EmptyEscape)
    } else if chosen_terminator(args.terminator.deep_view(), false) is None {
        Some(ConfigError::InvalidTerminator)
    } else {
        None
    }
}

impl<'a> Config<'a> {
    /// Whether these are the settings that the options ask for, for a file that
    /// is tab-separated (`tsv`) or comma-separated.
    pub open spec fn follows(&self, args: &CliArgs, tsv: bool) -> bool {
        &&& Some(self.delimiter) == chosen_byte(
            args.delimiter.deep_view(),
            if tsv {
                0x09
            } else {
                0x2C
            },
        )
        &&& Some(self.escape_char) == chosen_byte(
            args.escape_char.deep_view(),
            if tsv {
                0x5C
            } else {
                0x22
            },
        )
        &&& match args.ignored_headings {
            Some(list) => {
                &&& self.ignored_headings matches Some(names)
                &&& names.len() >= 1
                &&& joined(names.deep_view(), ',') == list@
                &&& forall|i: int| 0 <= i < names.len() ==> !(#[trigger] names[i])@.contains(',')
            },
            None => self.ignored_headings is None,
        }
        &&& self.flexible == !args.inflexible
        &&& self.output_dir@ == match args.output_dir {
            Some(path) => path@,
            None => Seq::empty(),
        }
        &&& self.output_filename.deep_view() == args.output_filename.deep_view()
        &&& Some(self.terminator_char) == chosen_terminator(args.terminator.deep_view(), tsv)
        &&& self.trim_whitespace == if args.trim == Some(true) {
            Trim::Fields
        } else {
            Trim::Off
        }
    }

    /// The settings that the options ask for, for a file with this extension.
    /// An option that was not given takes the default of the kind of file:
    /// tab-separated for the extension `tsv`, comma-separated otherwise.
    pub fn new(args: &'a CliArgs, file_extension: Option<&str>) -> (made: Result<
        Config<'a>,
        ConfigError,
    >)
        ensures
            match made {
                Ok(config) => refusal(args) is None && config.follows(
                    args,
                    names_tsv(file_extension.deep_view()),
                ),
                Err(error) => refusal(args) == Some(error),
            },
    {
        let is_tsv = match file_extension {
            Some(extension) => same_text(extension, "tsv"),
            None => false,
        };

        let delimiter: u8 = match &args.delimiter {
            Some(text) => match first_byte(text.as_str()) {
                Some(byte) => byte,
                None => {
                    return Err(ConfigError::EmptyDelimiter);
                },
            },
            None => if is_tsv {
                0x09u8
            } else {
                0x2Cu8
            },
        };

        let escape_char: u8 = match &args.escape_char {
            Some(text) => match first_byte(text.as_str()) {
                Some(byte) => byte,
                None => {
                    return Err(ConfigError::EmptyEscape);
                },
            },
            None => if is_tsv {
                0x5Cu8
            } else {
                0x22u8
            },
        };

        let ignored_headings = match &args.ignored_headings {
            Some(list) => Some(split_on(list.as_str(), ',')),
            None => None,
        };

        proof {
            reveal_strlit("");
            assert(""@ =~= Seq::<char>::empty());
        }
        let output_dir: &'a str = match &args.output_dir {
            Some(path) => path.as_str(),
            None => "",
        };

        let output_filename: Option<&'a str> = match &args.output_filename {
            Some(name) => Some(name.as_str()),
            None => None,
        };

        let terminator_char = match &args.terminator {
            Some(text) => match parse_byte(text.as_str()) {
                Some(byte) => Terminator::Any(byte),
                None => {
                    return Err(ConfigError::InvalidTerminator);
                },
            },
            None => if is_tsv {
                Terminator::Any(0x0A)
            } else {
                Terminator::CRLF
            },
        };

        let trim_whitespace = match args.trim {
            Some(true) => Trim::Fields,
            _ => Trim::Off,
        };

        Ok(
            Config {
                delimiter,
                escape_char,
                ignored_headings,
                flexible: !args.inflexible,
                output_dir,
                output_filename,
                terminator_char,
                trim_whitespace,
            },
        )
    }
}

} // verus!
