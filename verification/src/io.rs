//! The configuration of a run: what the command line gave, and what is
//! left of it once it has been validated.

use vstd::prelude::*;
use crate::text::{decimal, decimal_digits, join, joined, parse_i32, parsed_i32, views};

verus! {

/// Why parsing the command line gave no arguments.
#[derive(Debug, PartialEq, Eq)]
pub enum ParseOutcome {
    Error(String),
    Help,
}

/// A `ParseOutcome` as the contracts see it.
pub enum ParseOutcomeView {
    Error(Seq<char>),
    Help,
}

impl View for ParseOutcome {
    type V = ParseOutcomeView;

    open spec fn view(&self) -> ParseOutcomeView {
        match *self {
            ParseOutcome::Error(message) => ParseOutcomeView::Error(message@),
            ParseOutcome::Help => ParseOutcomeView::Help,
        }
    }
}

/// A value with its provenance: given on the command line, or a default.
#[derive(Debug, PartialEq, Eq)]
pub enum ArgProvided<T> {
    Yes(T),
    No(T),
}

impl<T> ArgProvided<T> {
    /// The value, wherever it came from.
    pub open spec fn value(self) -> T {
        match self {
            ArgProvided::Yes(t) => t,
            ArgProvided::No(t) => t,
        }
    }

    pub fn get_value(&self) -> (value: &T)
        ensures
            *value == self.value(),
    {
        match self {
            ArgProvided::Yes(t) => t,
            ArgProvided::No(t) => t,
        }
    }
}

/// The unit that a quote is built from.
#[derive(Debug, Clone, Copy, PartialEq, Eq, Structural)]
pub enum Unit {
    Grapheme,
    Word,
}

impl Unit {
    /// The name of the unit as it is shown to the user.
    pub fn name(&self) -> (text: String)
        ensures
            text@ == match *self {
                Unit::Word => "word"@,
                Unit::Grapheme => "grapheme"@,
            },
    {
        match self {
            Unit::Word => String::from_str("word"),
            Unit::Grapheme => String::from_str("grapheme"),
        }
    }

    /// The extension of the cache files that hold this unit.
    pub fn extension(&self) -> (text: String)
        ensures
            text@ == match *self {
                Unit::Word => "word"@,
                Unit::Grapheme => "char"@,
            },
    {
        match self {
            Unit::Word => String::from_str("word"),
            Unit::Grapheme => String::from_str("char"),
        }
    }
}

/// The arguments of a run, checked and ready for use.
#[derive(Debug, PartialEq, Eq)]
pub struct SafeArguments {
    pub subtitle: String,
    pub quote_length: i32,
    pub verbosity: bool,
    pub unit: Unit,
    pub cache_directory: String,
}

impl SafeArguments {
    pub fn new(
        subtitle: String,
        quote_length: i32,
        verbosity: bool,
        cache_directory: String,
        unit: Unit,
    ) -> (arguments: Self)
        ensures
            arguments.subtitle == subtitle,
            arguments.quote_length == quote_length,
            arguments.verbosity == verbosity,
            arguments.cache_directory == cache_directory,
            arguments.unit == unit,
    {
        Self { subtitle, quote_length, verbosity, cache_directory, unit }
    }
}

/// What the option parser found on the command line.
#[derive(Debug, PartialEq, Eq)]
pub struct RawOptions {
    /// Whether the help flag was given.
    pub help: bool,
    /// Whether the verbosity flag was given.
    pub verbose: bool,
    /// The value of the unit option.
    pub unit: Option<String>,
    /// The value of the length option.
    pub length: Option<String>,
    /// The value of the cache option.
    pub cache: Option<String>,
    /// The arguments that belong to no option.
    pub free: Vec<String>,
}

/// What the file system says of the paths in the arguments.
#[derive(Debug, Clone, Copy, PartialEq, Eq)]
pub struct PathFacts {
    /// Whether the cache directory is there.
    pub cache_directory_found: bool,
    /// Whether the cache directory, not being there, could be created.
    pub cache_directory_created: bool,
    /// Whether the subtitle is a file.
    pub subtitle_found: bool,
}

/// The arguments of a run as the command line gave them, not yet checked.
#[derive(Debug, PartialEq, Eq)]
pub struct UnsafeArguments {
    pub subtitle: String,
    pub quote_length: ArgProvided<i32>,
    pub verbosity: ArgProvided<bool>,
    pub unit: ArgProvided<Unit>,
    pub cache_directory: ArgProvided<String>,
}

/// `UnsafeArguments` as the contracts see them.
pub struct UnsafeArgumentsView {
    pub subtitle: Seq<char>,
    pub quote_length: ArgProvided<i32>,
    pub verbosity: ArgProvided<bool>,
    pub unit: ArgProvided<Unit>,
    pub cache_directory: ArgProvided<Seq<char>>,
}

impl View for UnsafeArguments {
    type V = UnsafeArgumentsView;

    open spec fn view(&self) -> UnsafeArgumentsView {
        UnsafeArgumentsView {
            subtitle: self.subtitle@,
            quote_length: self.quote_length,
            verbosity: self.verbosity,
            unit: self.unit,
            cache_directory: match self.cache_directory {
                ArgProvided::Yes(directory) => ArgProvided::Yes(directory@),
                ArgProvided::No(directory) => ArgProvided::No(directory@),
            },
        }
    }
}

/// The default quote length for `unit`.
pub open spec fn default_quote_length(unit: Unit) -> i32 {
    match unit {
        Unit::Word => 5,
        Unit::Grapheme => 25,
    }
}

/// The unit that the option text `name` stands for.
pub open spec fn unit_named(name: Seq<char>) -> Option<Unit> {
    if name == "word"@ {
        Some(Unit::Word)
    } else if name == "char"@ {
        Some(Unit::Grapheme)
    } else {
        None
    }
}

/// What the options stand for: the arguments of the run, or the reason
/// why there are none. `parsed` is `None` where the option parser
/// rejected the command line.
pub open spec fn interpretation(
    parsed: Option<RawOptions>,
    default_cache_directory: Option<String>,
) -> Result<UnsafeArgumentsView, ParseOutcomeView> {
    match parsed {
        None => Err(ParseOutcomeView::Error("found incomplete or unsupported arguments"@)),
        Some(options) => {
            let unit = match options.unit {
                Some(name) => match unit_named(name@) {
                    Some(unit) => Some(ArgProvided::Yes(unit)),
                    None => None,
                },
                None => Some(ArgProvided::No(Unit::Word)),
            };
            let quote_length = match options.length {
                Some(text) => match parsed_i32(text@) {
                    Some(length) => Some(ArgProvided::Yes(length)),
                    None => None,
                },
                None => match unit {
                    Some(unit) => Some(ArgProvided::No(default_quote_length(unit.value()))),
                    None => None,
                },
            };
            let cache_directory = match options.cache {
                Some(directory) => Some(ArgProvided::Yes(directory@)),
                None => match default_cache_directory {
                    Some(directory) => Some(ArgProvided::No(directory@)),
                    None => None,
                },
            };
            if options.help {
                Err(ParseOutcomeView::Help)
            } else if unit is None {
                Err(ParseOutcomeView::Error("couldn't parse specified unit"@))
            } else if quote_length is None {
                Err(ParseOutcomeView::Error("couldn't parse specified length"@))
            } else if cache_directory is None {
                Err(
                    ParseOutcomeView::Error(
                        "couldn't determine user's default cache directory (provide it with --cache /path/to/cache)"@,
                    ),
                )
            } else if options.free.len() == 0 {
                Err(ParseOutcomeView::Error("subtitle file is requiered"@))
            } else {
                Ok(
                    UnsafeArgumentsView {
                        subtitle: options.free[0]@,
                        quote_length: quote_length->0,
                        verbosity: if options.verbose {
                            ArgProvided::Yes(true)
                        } else {
                            ArgProvided::No(false)
                        },
                        unit: unit->0,
                        cache_directory: cache_directory->0,
                    },
                )
            }
        },
    }
}

/// Turns what the option parser found into the arguments of the run.
pub fn parse_args(parsed: Option<RawOptions>, default_cache_directory: Option<String>) -> (result:
    Result<UnsafeArguments, ParseOutcome>)
    ensures
        match result {
            Ok(arguments) => interpretation(parsed, default_cache_directory) == Ok::<
                UnsafeArgumentsView,
                ParseOutcomeView,
            >(arguments@),
            Err(outcome) => interpretation(parsed, default_cache_directory) == Err::<
                UnsafeArgumentsView,
                ParseOutcomeView,
            >(outcome@),
        },
{
    let options = match parsed {
        Some(options) => options,
        None => {
            return Err(
                ParseOutcome::Error(String::from_str("found incomplete or unsupported arguments")),
            );
        },
    };
    if options.help {
        return Err(ParseOutcome::Help);
    }
    let verbosity = if options.verbose {
        ArgProvided::Yes(true)
    } else {
        ArgProvided::No(UnsafeArguments::get_default_verbosity())
    };
    let unit = match &options.unit {
        Some(name) => {
            if *name == String::from_str("word") {
                ArgProvided::Yes(Unit::Word)
            } else if *name == String::from_str("char") {
                ArgProvided::Yes(Unit::Grapheme)
            } else {
                return Err(ParseOutcome::Error(String::from_str("couldn't parse specified unit")));
            }
        },
        None => ArgProvided::No(UnsafeArguments::get_default_unit()),
    };
    let quote_length = match &options.length {
        Some(text) => match parse_i32(text.as_str()) {
            Some(length) => ArgProvided::Yes(length),
            None => {
                return Err(
                    ParseOutcome::Error(String::from_str("couldn't parse specified length")),
                );
            },
        },
        None => ArgProvided::No(
            UnsafeArguments::get_default_quote_length(Some(*unit.get_value())),
        ),
    };
    let cache_directory = match &options.cache {
        Some(directory) => ArgProvided::Yes(directory.clone()),
        None => match &default_cache_directory {
            Some(directory) => ArgProvided::No(directory.clone()),
            None => {
                return Err(
                    ParseOutcome::Error(
                        String::from_str(
                            "couldn't determine user's default cache directory (provide it with --cache /path/to/cache)",
                        ),
                    ),
                );
            },
        },
    };
    if options.free.len() == 0 {
        return Err(ParseOutcome::Error(String::from_str("subtitle file is requiered")));
    }
    let subtitle = options.free[0].clone();
    Ok(UnsafeArguments::new(subtitle, quote_length, verbosity, cache_directory, unit))
}

impl UnsafeArguments {
    pub fn new(
        subtitle: String,
        quote_length: ArgProvided<i32>,
        verbosity: ArgProvided<bool>,
        cache_directory: ArgProvided<String>,
        unit: ArgProvided<Unit>,
    ) -> (arguments: Self)
        ensures
            arguments.subtitle == subtitle,
            arguments.quote_length == quote_length,
            arguments.verbosity == verbosity,
            arguments.cache_directory == cache_directory,
            arguments.unit == unit,
    {
        Self { subtitle, quote_length, verbosity, cache_directory, unit }
    }

    /// The quote length used where none is given: that of `unit`, or of
    /// the default unit where `unit` is `None`.
    pub fn get_default_quote_length(unit: Option<Unit>) -> (length: i32)
        ensures
            length == match unit {
                Some(unit) => default_quote_length(unit),
                None => default_quote_length(Unit::Word),
            },
    {
        let l_word: i32 = 5;
        let l_grapheme: i32 = 25;
        match unit {
            Some(unit) => {
                match unit {
                    Unit::Word => l_word,
                    Unit::Grapheme => l_grapheme,
                }
            },
            None => {
                match Self::get_default_unit() {
                    Unit::Word => l_word,
                    Unit::Grapheme => l_grapheme,
                }
            },
        }
    }

    pub fn get_default_verbosity() -> (verbosity: bool)
        ensures
            !verbosity,
    {
        false
    }

    pub fn get_default_unit() -> (unit: Unit)
        ensures
            unit == Unit::Word,
    {
        Unit::Word
    }

    /// The cache directory used where none is given: the directory
    /// `subquote` under the user's cache home, where there is one.
    pub fn get_default_cache_directory(cache_home: Option<String>) -> (directory: Option<String>)
        ensures
            match cache_home {
                Some(home) => directory matches Some(d) && d@ == home@ + "/subquote"@,
                None => directory is None,
            },
    {
        match cache_home {
            Some(home) => {
                let mut directory = home;
                directory.append("/subquote");
                Some(directory)
            },
            None => None,
        }
    }

    /// Whether the cache directory has to be created before the
    /// arguments can be validated: it is not there, and it is the default
    /// one.
    pub fn wants_cache_directory(&self, cache_directory_found: bool) -> (wanted: bool)
        ensures
            wanted == (!cache_directory_found && self.cache_directory is No),
    {
        match &self.cache_directory {
            ArgProvided::Yes(_) => false,
            ArgProvided::No(_) => !cache_directory_found,
        }
    }

    /// What is wrong with the arguments, one message for each fault, in
    /// the order in which the faults are looked for.
    pub open spec fn faults(self, facts: PathFacts) -> Seq<Seq<char>> {
        let length = if self.quote_length.value() < 1 {
            seq![
                "quote length must be greater or equal to 1 (got \""@ + decimal_digits(
                    self.quote_length.value() as int,
                ) + "\")"@,
            ]
        } else {
            seq![]
        };
        let cache = if facts.cache_directory_found {
            seq![]
        } else if self.cache_directory is Yes {
            seq![
                "couldn't read specified cache directory (got \""@
                    + self.cache_directory.value()@ + "\")"@,
            ]
        } else if facts.cache_directory_created {
            seq![]
        } else {
            seq![
                "couldn't create cache directory (got \""@ + self.cache_directory.value()@
                    + "\")"@,
            ]
        };
        let subtitle = if facts.subtitle_found {
            seq![]
        } else {
            seq!["specified subtitle is not a file (got \""@ + self.subtitle@ + "\")"@]
        };
        length + cache + subtitle
    }

    /// Checks the arguments against what the file system says of their
    /// paths. Without a fault the arguments come back ready for use; else
    /// the messages of all faults come back, joined by a semicolon and a
    /// space.
    pub fn validate(&self, facts: PathFacts) -> (result: Result<SafeArguments, String>)
        ensures
            match result {
                Ok(arguments) => {
                    &&& self.faults(facts).len() == 0
                    &&& arguments.subtitle@ == self.subtitle@
                    &&& arguments.quote_length == self.quote_length.value()
                    &&& arguments.verbosity == self.verbosity.value()
                    &&& arguments.cache_directory@ == self.cache_directory.value()@
                    &&& arguments.unit == self.unit.value()
                },
                Err(message) => {
                    &&& self.faults(facts).len() > 0
                    &&& message@ == joined(self.faults(facts), "; "@)
                },
            },
    {
        let mut errors: Vec<String> = Vec::new();
        let ghost none: Seq<Seq<char>> = seq![];
        assert(views(errors@) =~= none);
        if *self.quote_length.get_value() < 1 {
            let mut message = String::from_str("quote length must be greater or equal to 1 (got \"");
            message.append(decimal(*self.quote_length.get_value()).as_str());
            message.append("\")");
            proof {
                assert(views(errors@.push(message)) =~= seq![message@]);
            }
            errors.push(message);
        }
        let ghost after_length = views(errors@);
        if !facts.cache_directory_found {
            match &self.cache_directory {
                ArgProvided::Yes(directory) => {
                    let mut message = String::from_str(
                        "couldn't read specified cache directory (got \"",
                    );
                    message.append(directory.as_str());
                    message.append("\")");
                    proof {
                        assert(views(errors@.push(message)) =~= after_length + seq![message@]);
                    }
                    errors.push(message);
                },
                ArgProvided::No(directory) => {
                    if !facts.cache_directory_created {
                        let mut message = String::from_str(
                            "couldn't create cache directory (got \"",
                        );
                        message.append(directory.as_str());
                        message.append("\")");
                        proof {
                            assert(views(errors@.push(message)) =~= after_length + seq![message@]);
                        }
                        errors.push(message);
                    }
                },
            }
        }
        let ghost after_cache = views(errors@);
        if !facts.subtitle_found {
            let mut message = String::from_str("specified subtitle is not a file (got \"");
            message.append(self.subtitle.as_str());
            message.append("\")");
            proof {
                assert(views(errors@.push(message)) =~= after_cache + seq![message@]);
            }
            errors.push(message);
        }
        proof {
            assert(views(errors@) =~= self.faults(facts));
        }
        if errors.len() > 0 {
            return Err(join(&errors, "; "));
        }
        Ok(
            SafeArguments::new(
                self.subtitle.clone(),
                *self.quote_length.get_value(),
                *self.verbosity.get_value(),
                self.cache_directory.get_value().clone(),
                *self.unit.get_value(),
            ),
        )
    }
}

} // verus!
