//! Command-line arguments.

use crate::decimal::{is_digit, parse_decimal_spec, parse_u64};
use crate::error::{WallSwitchError, WallSwitchErrorView, WallSwitchResult};
use crate::orientation::{orientation_spec, Orientation};
use crate::text::{
    from_range, lemma_texts_push, same_text, split, split_spec, texts, to_chars, trim, trim_spec,
};
use vstd::prelude::*;

verus! {

/// What the command line asks for. A field is `None` or `false` where the
/// command line does not mention it.
#[derive(Debug, Clone, Copy, PartialEq, Eq, Structural)]
pub struct Arguments {
    /// The smallest size that an image file may have, in bytes.
    pub min_size: Option<u64>,
    /// The largest size that an image file may have, in bytes.
    pub max_size: Option<u64>,
    /// Show the configuration file and stop.
    pub config: bool,
    /// The smallest side that an image may have.
    pub min_dimension: Option<u64>,
    /// The largest side that an image may have.
    pub max_dimension: Option<u64>,
    /// Show the help text and stop.
    pub help: bool,
    /// The interval between two wallpapers, in seconds.
    pub interval: Option<u64>,
    /// The number of monitors.
    pub monitor: Option<u8>,
    /// How the monitors stand to each other.
    pub monitor_orientation: Option<Orientation>,
    /// The number of pictures on each monitor.
    pub pictures_per_monitor: Option<u8>,
    /// Keep the images in the order of their names.
    pub sort: bool,
    /// Show intermediate messages.
    pub verbose: bool,
    /// Show the version and stop.
    pub version: bool,
}

/// What an argument of the command line stands for.
#[derive(Debug, Clone, Copy, PartialEq, Eq, Structural)]
pub enum Flag {
    MinSize,
    MaxSize,
    MinDimension,
    MaxDimension,
    Interval,
    Monitor,
    Orientation,
    Pictures,
    Config,
    Help,
    Sort,
    Verbose,
    Version,
}

/// What is reported of a number that does not fit its field.
pub const OUT_OF_RANGE: &'static str = "out of range integral type conversion attempted";

/// The flag that a token stands for, by its long or its short form.
pub open spec fn flag_of(token: Seq<char>) -> Option<Flag> {
    if token == "--min_size"@ || token == "-b"@ {
        Some(Flag::MinSize)
    } else if token == "--max_size"@ || token == "-B"@ {
        Some(Flag::MaxSize)
    } else if token == "--min_dimension"@ || token == "-d"@ {
        Some(Flag::MinDimension)
    } else if token == "--max_dimension"@ || token == "-D"@ {
        Some(Flag::MaxDimension)
    } else if token == "--interval"@ || token == "-i"@ {
        Some(Flag::Interval)
    } else if token == "--monitor"@ || token == "-m"@ {
        Some(Flag::Monitor)
    } else if token == "--orientation"@ || token == "-o"@ {
        Some(Flag::Orientation)
    } else if token == "--pictures_per_monitor"@ || token == "-p"@ {
        Some(Flag::Pictures)
    } else if token == "--config"@ || token == "-c"@ {
        Some(Flag::Config)
    } else if token == "--help"@ || token == "-h"@ {
        Some(Flag::Help)
    } else if token == "--sort"@ || token == "-s"@ {
        Some(Flag::Sort)
    } else if token == "--verbose"@ || token == "-v"@ {
        Some(Flag::Verbose)
    } else if token == "--Version"@ || token == "-V"@ {
        Some(Flag::Version)
    } else {
        None
    }
}

impl Flag {
    /// Whether the flag is followed by a number.
    pub open spec fn takes_number(self) -> bool {
        match self {
            Flag::MinSize
            | Flag::MaxSize
            | Flag::MinDimension
            | Flag::MaxDimension
            | Flag::Interval
            | Flag::Monitor
            | Flag::Pictures => true,
            _ => false,
        }
    }

    /// The long form of a flag that is followed by a value.
    pub open spec fn long_name(self) -> Seq<char> {
        match self {
            Flag::MinSize => "--min_size"@,
            Flag::MaxSize => "--max_size"@,
            Flag::MinDimension => "--min_dimension"@,
            Flag::MaxDimension => "--max_dimension"@,
            Flag::Interval => "--interval"@,
            Flag::Monitor => "--monitor"@,
            Flag::Pictures => "--pictures_per_monitor"@,
            _ => "--orientation"@,
        }
    }

    /// The smallest number that the flag accepts.
    pub open spec fn minimum(self) -> u64 {
        match self {
            Flag::MinDimension => 10,
            Flag::Interval => 5,
            Flag::Monitor => 1,
            Flag::Pictures => 1,
            _ => 0,
        }
    }

    /// The flag that a token stands for.
    pub fn of(token: &str) -> (r: Option<Flag>)
        ensures
            r == flag_of(token@),
    {
        if same_text(token, "--min_size") || same_text(token, "-b") {
            Some(Flag::MinSize)
        } else if same_text(token, "--max_size") || same_text(token, "-B") {
            Some(Flag::MaxSize)
        } else if same_text(token, "--min_dimension") || same_text(token, "-d") {
            Some(Flag::MinDimension)
        } else if same_text(token, "--max_dimension") || same_text(token, "-D") {
            Some(Flag::MaxDimension)
        } else if same_text(token, "--interval") || same_text(token, "-i") {
            Some(Flag::Interval)
        } else if same_text(token, "--monitor") || same_text(token, "-m") {
            Some(Flag::Monitor)
        } else if same_text(token, "--orientation") || same_text(token, "-o") {
            Some(Flag::Orientation)
        } else if same_text(token, "--pictures_per_monitor") || same_text(token, "-p") {
            Some(Flag::Pictures)
        } else if same_text(token, "--config") || same_text(token, "-c") {
            Some(Flag::Config)
        } else if same_text(token, "--help") || same_text(token, "-h") {
            Some(Flag::Help)
        } else if same_text(token, "--sort") || same_text(token, "-s") {
            Some(Flag::Sort)
        } else if same_text(token, "--verbose") || same_text(token, "-v") {
            Some(Flag::Verbose)
        } else if same_text(token, "--Version") || same_text(token, "-V") {
            Some(Flag::Version)
        } else {
            None
        }
    }

    /// The long form of a flag that is followed by a value.
    pub fn name(self) -> (r: &'static str)
        ensures
            r@ == self.long_name(),
    {
        match self {
            Flag::MinSize => "--min_size",
            Flag::MaxSize => "--max_size",
            Flag::MinDimension => "--min_dimension",
            Flag::MaxDimension => "--max_dimension",
            Flag::Interval => "--interval",
            Flag::Monitor => "--monitor",
            Flag::Pictures => "--pictures_per_monitor",
            _ => "--orientation",
        }
    }

    /// The smallest number that the flag accepts.
    pub fn least(self) -> (r: u64)
        ensures
            r == self.minimum(),
    {
        match self {
            Flag::MinDimension => 10,
            Flag::Interval => 5,
            Flag::Monitor => 1,
            Flag::Pictures => 1,
            _ => 0,
        }
    }
}

/// The position of the first decimal digit of `s`; its length where it has
/// none.
pub open spec fn first_digit(s: Seq<char>) -> int
    decreases s.len(),
{
    if s.len() == 0 {
        0
    } else if is_digit(s[0]) {
        0
    } else {
        1 + first_digit(s.drop_first())
    }
}

/// `s`, if it is not empty.
pub open spec fn unless_empty(s: Seq<char>) -> Seq<Seq<char>> {
    if s.len() > 0 {
        seq![s]
    } else {
        Seq::<Seq<char>>::empty()
    }
}

/// The tokens in one part of an argument: the part is cut before its first
/// digit, the pieces are trimmed, and empty pieces are left out.
pub open spec fn part_tokens(part: Seq<char>) -> Seq<Seq<char>> {
    let at = first_digit(part);
    if at < part.len() {
        unless_empty(trim_spec(part.take(at))) + unless_empty(trim_spec(part.skip(at)))
    } else {
        unless_empty(trim_spec(part))
    }
}

/// The tokens in the first `n` of the parts.
pub open spec fn parts_tokens(parts: Seq<Seq<char>>, n: int) -> Seq<Seq<char>>
    decreases n,
{
    if n <= 0 {
        Seq::<Seq<char>>::empty()
    } else {
        parts_tokens(parts, n - 1) + part_tokens(parts[n - 1])
    }
}

/// The tokens in one argument: the argument is cut at every `=`, and each
/// part gives its tokens.
pub open spec fn argument_tokens(argument: Seq<char>) -> Seq<Seq<char>> {
    let parts = split_spec(argument, '=', '=');
    parts_tokens(parts, parts.len() as int)
}

/// The tokens in the first `n` arguments, the name of the program, which
/// comes first, left aside.
pub open spec fn formatted_args(args: Seq<Seq<char>>, n: int) -> Seq<Seq<char>>
    decreases n,
{
    if n <= 1 {
        Seq::<Seq<char>>::empty()
    } else {
        formatted_args(args, n - 1) + argument_tokens(args[n - 1])
    }
}

proof fn lemma_first_digit(s: Seq<char>, at: int)
    requires
        0 <= at <= s.len(),
        forall|i: int| 0 <= i < at ==> !is_digit(#[trigger] s[i]),
        at < s.len() ==> is_digit(s[at]),
    ensures
        first_digit(s) == at,
    decreases s.len(),
{
    if s.len() > 0 && at > 0 {
        let rest = s.drop_first();
        assert forall|i: int| 0 <= i < at - 1 implies !is_digit(#[trigger] rest[i]) by {
            assert(rest[i] == s[i + 1]);
        }
        lemma_first_digit(rest, at - 1);
    }
}

fn push_unless_empty(tokens: &mut Vec<String>, piece: String)
    ensures
        texts(final(tokens)@) == texts(old(tokens)@) + unless_empty(piece@),
{
    if to_chars(piece.as_str()).len() > 0 {
        proof {
            lemma_texts_push(tokens@, piece);
        }
        tokens.push(piece);
        assert(texts(tokens@) =~= texts(old(tokens)@) + unless_empty(piece@));
    } else {
        assert(texts(tokens@) =~= texts(old(tokens)@) + unless_empty(piece@));
    }
}

fn push_part_tokens(tokens: &mut Vec<String>, part: &str)
    ensures
        texts(final(tokens)@) == texts(old(tokens)@) + part_tokens(part@),
{
    let v = to_chars(part);
    let mut at: usize = 0;
    while at < v.len() && !('0' <= v[at] && v[at] <= '9')
        invariant
            at <= v.len(),
            forall|i: int| 0 <= i < at ==> !is_digit(#[trigger] v@[i]),
        decreases v.len() - at,
    {
        at += 1;
    }
    proof {
        lemma_first_digit(v@, at as int);
    }
    if at < v.len() {
        let head = from_range(&v, 0, at);
        let tail = from_range(&v, at, v.len());
        push_unless_empty(tokens, trim(head.as_str()));
        push_unless_empty(tokens, trim(tail.as_str()));
        assert(texts(tokens@) =~= texts(old(tokens)@) + part_tokens(part@));
    } else {
        push_unless_empty(tokens, trim(part));
    }
}

/// Cuts the arguments of the command line into flags and values: at every
/// `=` and before the first digit of what stands in between. The first
/// argument, the name of the program, is left out.
pub fn get_formatted_args(args: &Vec<String>) -> (r: Vec<String>)
    ensures
        texts(r@) == formatted_args(texts(args@), args@.len() as int),
{
    let mut tokens: Vec<String> = Vec::new();
    let mut n: usize = 1;
    assert(texts(tokens@) =~= formatted_args(texts(args@), 1));
    if args.len() == 0 {
        assert(texts(tokens@) =~= formatted_args(texts(args@), 0));
        return tokens;
    }
    while n < args.len()
        invariant
            1 <= n <= args@.len(),
            texts(tokens@) == formatted_args(texts(args@), n as int),
        decreases args@.len() - n,
    {
        let parts = split(args[n].as_str(), '=', '=');
        let ghost before = texts(tokens@);
        let mut k: usize = 0;
        assert(before + parts_tokens(texts(parts@), 0) =~= before);
        while k < parts.len()
            invariant
                k <= parts@.len(),
                texts(tokens@) == before + parts_tokens(texts(parts@), k as int),
            decreases parts@.len() - k,
        {
            push_part_tokens(&mut tokens, parts[k].as_str());
            k += 1;
            assert(texts(tokens@) =~= before + parts_tokens(texts(parts@), k as int));
        }
        n += 1;
    }
    tokens
}

/// The view of a text that may be missing.
pub open spec fn option_text(text: Option<String>) -> Option<Seq<char>> {
    match text {
        Some(s) => Some(s@),
        None => None,
    }
}

/// What the text that follows a flag gives as a number: it must be there,
/// be a decimal number, and be at least `min`.
pub open spec fn value_spec(value: Option<Seq<char>>, name: Seq<char>, min: u64) -> Result<
    u64,
    WallSwitchErrorView,
> {
    match value {
        None => Err(WallSwitchErrorView::MissingValue { arg: name }),
        Some(text) => match parse_decimal_spec(text, u64::MAX as nat) {
            Ok(n) => if n >= min {
                Ok(n as u64)
            } else {
                Err(WallSwitchErrorView::AtLeastValue { arg: name, value: text, num: min })
            },
            Err(_) => Err(WallSwitchErrorView::InvalidValue { arg: name, value: text }),
        },
    }
}

/// Reads the number that follows the flag `name`.
pub fn parse_value(opt_value: Option<String>, name: &'static str, min: u64) -> (r:
    WallSwitchResult<u64>)
    ensures
        match r {
            Ok(n) => value_spec(option_text(opt_value), name@, min) == Ok::<
                u64,
                WallSwitchErrorView,
            >(n),
            Err(e) => value_spec(option_text(opt_value), name@, min) == Err::<
                u64,
                WallSwitchErrorView,
            >(e@),
        },
{
    match opt_value {
        Some(value) => match parse_u64(value.as_str()) {
            Ok(num) => {
                if num >= min {
                    Ok(num)
                } else {
                    Err(WallSwitchError::AtLeastValue { arg: name.to_string(), value, num: min })
                }
            },
            Err(_) => Err(WallSwitchError::InvalidValue { arg: name.to_string(), value }),
        },
        None => Err(WallSwitchError::MissingValue { arg: name.to_string() }),
    }
}

/// What the text that follows the flag `name` gives as an orientation.
pub open spec fn orientation_value_spec(value: Option<Seq<char>>, name: Seq<char>) -> Result<
    Orientation,
    WallSwitchErrorView,
> {
    match value {
        None => Err(WallSwitchErrorView::MissingValue { arg: name }),
        Some(text) => match orientation_spec(text) {
            Some(orientation) => Ok(orientation),
            None => Err(WallSwitchErrorView::InvalidOrientation),
        },
    }
}

/// Reads the orientation that follows the flag `name`.
pub fn parse_orientation(opt_string: Option<String>, name: &'static str) -> (r: WallSwitchResult<
    Orientation,
>)
    ensures
        match r {
            Ok(orientation) => orientation_value_spec(option_text(opt_string), name@)
                == Ok::<Orientation, WallSwitchErrorView>(orientation),
            Err(e) => orientation_value_spec(option_text(opt_string), name@) == Err::<
                Orientation,
                WallSwitchErrorView,
            >(e@),
        },
{
    match opt_string {
        Some(string) => Orientation::parse(string.as_str()),
        None => Err(WallSwitchError::MissingValue { arg: name.to_string() }),
    }
}

/// The token that follows the one at `at`, if there is one.
pub open spec fn token_after(tokens: Seq<Seq<char>>, at: int) -> Option<Seq<char>> {
    if at + 1 < tokens.len() {
        Some(tokens[at + 1])
    } else {
        None
    }
}

impl Arguments {
    /// The arguments of an empty command line.
    pub open spec fn none() -> Arguments {
        Arguments {
            min_size: None,
            max_size: None,
            config: false,
            min_dimension: None,
            max_dimension: None,
            help: false,
            interval: None,
            monitor: None,
            monitor_orientation: None,
            pictures_per_monitor: None,
            sort: false,
            verbose: false,
            version: false,
        }
    }

    /// The arguments with the number `n` for `flag`. The numbers of
    /// monitors and of pictures must be below 256.
    pub open spec fn with_number(self, flag: Flag, n: u64) -> Result<
        Arguments,
        WallSwitchErrorView,
    > {
        match flag {
            Flag::MinSize => Ok(Arguments { min_size: Some(n), ..self }),
            Flag::MaxSize => Ok(Arguments { max_size: Some(n), ..self }),
            Flag::MinDimension => Ok(Arguments { min_dimension: Some(n), ..self }),
            Flag::MaxDimension => Ok(Arguments { max_dimension: Some(n), ..self }),
            Flag::Interval => Ok(Arguments { interval: Some(n), ..self }),
            Flag::Monitor => if n <= u8::MAX {
                Ok(Arguments { monitor: Some(n as u8), ..self })
            } else {
                Err(WallSwitchErrorView::TryInto(OUT_OF_RANGE@))
            },
            Flag::Pictures => if n <= u8::MAX {
                Ok(Arguments { pictures_per_monitor: Some(n as u8), ..self })
            } else {
                Err(WallSwitchErrorView::TryInto(OUT_OF_RANGE@))
            },
            _ => Ok(self),
        }
    }

    /// The arguments with the switch `flag` set.
    pub open spec fn with_switch(self, flag: Flag) -> Arguments {
        match flag {
            Flag::Config => Arguments { config: true, ..self },
            Flag::Help => Arguments { help: true, ..self },
            Flag::Sort => Arguments { sort: true, ..self },
            Flag::Verbose => Arguments { verbose: true, ..self },
            Flag::Version => Arguments { version: true, ..self },
            _ => self,
        }
    }

    /// What the tokens from `at` on make of the arguments read so far.
    ///
    /// A flag with a value takes the next token as its value. A request
    /// for help or for the version ends the reading. A token that is no
    /// flag is an error.
    pub open spec fn read(self, tokens: Seq<Seq<char>>, at: int) -> Result<
        Arguments,
        WallSwitchErrorView,
    >
        decreases tokens.len() - at,
    {
        if at < 0 || at >= tokens.len() {
            Ok(self)
        } else {
            match flag_of(tokens[at]) {
                None => Err(WallSwitchErrorView::UnexpectedArg { arg: tokens[at] }),
                Some(flag) => if flag.takes_number() {
                    match value_spec(token_after(tokens, at), flag.long_name(), flag.minimum()) {
                        Err(e) => Err(e),
                        Ok(n) => match self.with_number(flag, n) {
                            Err(e) => Err(e),
                            Ok(arguments) => arguments.read(tokens, at + 2),
                        },
                    }
                } else if flag == Flag::Orientation {
                    match orientation_value_spec(token_after(tokens, at), flag.long_name()) {
                        Err(e) => Err(e),
                        Ok(orientation) => (Arguments {
                            monitor_orientation: Some(orientation),
                            ..self
                        }).read(tokens, at + 2),
                    }
                } else if flag == Flag::Help || flag == Flag::Version {
                    Ok(self.with_switch(flag))
                } else {
                    self.with_switch(flag).read(tokens, at + 1)
                },
            }
        }
    }

    /// What a command line asks for.
    pub open spec fn parse_spec(args: Seq<Seq<char>>) -> Result<Arguments, WallSwitchErrorView> {
        Arguments::none().read(formatted_args(args, args.len() as int), 0)
    }

    fn set_number(self, flag: Flag, n: u64) -> (r: WallSwitchResult<Arguments>)
        ensures
            match r {
                Ok(arguments) => self.with_number(flag, n) == Ok::<Arguments, WallSwitchErrorView>(
                    arguments,
                ),
                Err(e) => self.with_number(flag, n) == Err::<Arguments, WallSwitchErrorView>(e@),
            },
    {
        let mut arguments = self;
        match flag {
            Flag::MinSize => {
                arguments.min_size = Some(n);
            },
            Flag::MaxSize => {
                arguments.max_size = Some(n);
            },
            Flag::MinDimension => {
                arguments.min_dimension = Some(n);
            },
            Flag::MaxDimension => {
                arguments.max_dimension = Some(n);
            },
            Flag::Interval => {
                arguments.interval = Some(n);
            },
            Flag::Monitor => {
                if n > 255 {
                    return Err(WallSwitchError::TryInto(OUT_OF_RANGE.to_string()));
                }
                arguments.monitor = Some(n as u8);
            },
            Flag::Pictures => {
                if n > 255 {
                    return Err(WallSwitchError::TryInto(OUT_OF_RANGE.to_string()));
                }
                arguments.pictures_per_monitor = Some(n as u8);
            },
            _ => {},
        }
        Ok(arguments)
    }

    fn set_switch(self, flag: Flag) -> (r: Arguments)
        ensures
            r == self.with_switch(flag),
    {
        let mut arguments = self;
        match flag {
            Flag::Config => {
                arguments.config = true;
            },
            Flag::Help => {
                arguments.help = true;
            },
            Flag::Sort => {
                arguments.sort = true;
            },
            Flag::Verbose => {
                arguments.verbose = true;
            },
            Flag::Version => {
                arguments.version = true;
            },
            _ => {},
        }
        arguments
    }

    /// Reads the arguments of a command line, the name of the program
    /// first.
    pub fn parse(args: Vec<String>) -> (r: WallSwitchResult<Arguments>)
        ensures
            match r {
                Ok(arguments) => Arguments::parse_spec(texts(args@)) == Ok::<
                    Arguments,
                    WallSwitchErrorView,
                >(arguments),
                Err(e) => Arguments::parse_spec(texts(args@)) == Err::<
                    Arguments,
                    WallSwitchErrorView,
                >(e@),
            },
    {
        let tokens = get_formatted_args(&args);
        let ghost all = texts(tokens@);
        let mut arguments = Arguments::default();
        let mut at: usize = 0;
        while at < tokens.len()
            invariant
                all == texts(tokens@),
                all == formatted_args(texts(args@), args@.len() as int),
                Arguments::none().read(all, 0) == arguments.read(all, at as int),
            decreases tokens@.len() - at,
        {
            let token = tokens[at].clone();
            let next: Option<String> = if at + 1 < tokens.len() {
                Some(tokens[at + 1].clone())
            } else {
                None
            };
            assert(all[at as int] == token@);
            assert(option_text(next) == token_after(all, at as int));
            match Flag::of(token.as_str()) {
                None => {
                    return Err(WallSwitchError::UnexpectedArg { arg: token });
                },
                Some(flag) => {
                    match flag {
                        Flag::Orientation => {
                            match parse_orientation(next, flag.name()) {
                                Err(e) => {
                                    return Err(e);
                                },
                                Ok(orientation) => {
                                    arguments.monitor_orientation = Some(orientation);
                                },
                            }
                            at = if at + 1 < tokens.len() {
                                at + 2
                            } else {
                                tokens.len()
                            };
                        },
                        Flag::Config | Flag::Sort | Flag::Verbose => {
                            arguments = arguments.set_switch(flag);
                            at += 1;
                        },
                        Flag::Help | Flag::Version => {
                            return Ok(arguments.set_switch(flag));
                        },
                        _ => {
                            match parse_value(next, flag.name(), flag.least()) {
                                Err(e) => {
                                    return Err(e);
                                },
                                Ok(n) => match arguments.set_number(flag, n) {
                                    Err(e) => {
                                        return Err(e);
                                    },
                                    Ok(updated) => {
                                        arguments = updated;
                                    },
                                },
                            }
                            at = if at + 1 < tokens.len() {
                                at + 2
                            } else {
                                tokens.len()
                            };
                        },
                    }
                },
            }
        }
        Ok(arguments)
    }
}

impl Default for Arguments {
    fn default() -> (r: Arguments)
        ensures
            r == Arguments::none(),
    {
        Arguments {
            min_size: None,
            max_size: None,
            config: false,
            min_dimension: None,
            max_dimension: None,
            help: false,
            interval: None,
            monitor: None,
            monitor_orientation: None,
            pictures_per_monitor: None,
            sort: false,
            verbose: false,
            version: false,
        }
    }
}

} // verus!
