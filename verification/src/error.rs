//! The ways in which configuration, scanning and selection can fail.
//!
//! An error carries structured data only; `to_string` renders it.

use crate::decimal::{decimal, u64_to_string, ParseIntError};
use crate::dimension::Dimension;
use crate::orientation::Orientation;
use crate::text::{debug_spec, debug_text, texts};
use crate::traits::{painted, Colors, BOLD, GREEN, RED, YELLOW};
use vstd::prelude::*;
use vstd::string::StringExecFns;

verus! {

/// Shorthand for results whose error is a [`WallSwitchError`].
pub type WallSwitchResult<T> = Result<T, WallSwitchError>;

/// Why a width-by-height value was refused.
#[derive(Debug)]
pub enum DimensionError {
    /// The dimension of an image is outside the configured window.
    DimensionFormatError { dimension: Dimension, log_min: String, log_max: String, path: String },
    /// A component of the text is no number.
    InvalidParse(String, ParseIntError),
    /// The text does not hold exactly two numbers.
    InvalidFormat,
    /// A component is zero.
    ZeroDimension,
}

/// A [`DimensionError`] with its texts as character sequences.
pub enum DimensionErrorView {
    DimensionFormatError {
        dimension: Dimension,
        log_min: Seq<char>,
        log_max: Seq<char>,
        path: Seq<char>,
    },
    InvalidParse(Seq<char>, ParseIntError),
    InvalidFormat,
    ZeroDimension,
}

impl View for DimensionError {
    type V = DimensionErrorView;

    open spec fn view(&self) -> DimensionErrorView {
        match self {
            DimensionError::DimensionFormatError { dimension, log_min, log_max, path } => {
                DimensionErrorView::DimensionFormatError {
                    dimension: *dimension,
                    log_min: log_min@,
                    log_max: log_max@,
                    path: path@,
                }
            },
            DimensionError::InvalidParse(text, cause) => DimensionErrorView::InvalidParse(
                text@,
                *cause,
            ),
            DimensionError::InvalidFormat => DimensionErrorView::InvalidFormat,
            DimensionError::ZeroDimension => DimensionErrorView::ZeroDimension,
        }
    }
}

/// Everything that can go wrong between reading the configuration and
/// setting a wallpaper.
#[derive(Debug)]
pub enum WallSwitchError {
    /// A value is below its lower bound.
    AtLeastValue { arg: String, value: String, num: u64 },
    /// A value is above its upper bound.
    AtMostValue { arg: String, value: String, num: u64 },
    /// An image is left out.
    DisregardPath(String),
    /// The output of a command is no UTF-8 text.
    FromUtf8(String),
    /// An input or output operation failed.
    Io(String),
    /// A dimension was refused.
    InvalidDimension(DimensionError),
    /// An image is named like the generated wallpaper.
    InvalidFilename(String),
    /// The size of a file is outside the configured window.
    InvalidSize { min_size: u64, size: u64, max_size: u64 },
    /// A command-line value cannot be read.
    InvalidValue { arg: String, value: String },
    /// A file could not be created.
    IOError { path: String, io_error: String },
    /// The configuration could not be read or written as JSON.
    Json(String),
    /// No maximum could be found.
    MaxValue,
    /// No minimum could be found.
    MinValue,
    /// A command-line option lacks its value.
    MissingValue { arg: String },
    /// A lower bound exceeds its upper bound.
    MinMax { min: u64, max: u64 },
    /// The directories hold no image.
    NoImages { paths: Vec<String> },
    /// A text names no orientation.
    InvalidOrientation,
    /// There are fewer images than monitors.
    InsufficientImages { paths: Vec<String>, nfiles: usize },
    /// A whole pass over the images gave no valid group.
    InsufficientNumber,
    /// The directory of the wallpaper does not exist.
    Parent(String),
    /// An integer does not fit its target type.
    TryInto(String),
    /// A program could not be found.
    UnableToFind(String),
    /// A command-line argument is unknown.
    UnexpectedArg { arg: String },
}

/// A [`WallSwitchError`] with its texts as character sequences.
pub enum WallSwitchErrorView {
    AtLeastValue { arg: Seq<char>, value: Seq<char>, num: u64 },
    AtMostValue { arg: Seq<char>, value: Seq<char>, num: u64 },
    DisregardPath(Seq<char>),
    FromUtf8(Seq<char>),
    Io(Seq<char>),
    InvalidDimension(DimensionErrorView),
    InvalidFilename(Seq<char>),
    InvalidSize { min_size: u64, size: u64, max_size: u64 },
    InvalidValue { arg: Seq<char>, value: Seq<char> },
    IOError { path: Seq<char>, io_error: Seq<char> },
    Json(Seq<char>),
    MaxValue,
    MinValue,
    MissingValue { arg: Seq<char> },
    MinMax { min: u64, max: u64 },
    NoImages { paths: Seq<Seq<char>> },
    InvalidOrientation,
    InsufficientImages { paths: Seq<Seq<char>>, nfiles: usize },
    InsufficientNumber,
    Parent(Seq<char>),
    TryInto(Seq<char>),
    UnableToFind(Seq<char>),
    UnexpectedArg { arg: Seq<char> },
}

impl View for WallSwitchError {
    type V = WallSwitchErrorView;

    open spec fn view(&self) -> WallSwitchErrorView {
        match self {
            WallSwitchError::AtLeastValue { arg, value, num } => WallSwitchErrorView::AtLeastValue {
                arg: arg@,
                value: value@,
                num: *num,
            },
            WallSwitchError::AtMostValue { arg, value, num } => WallSwitchErrorView::AtMostValue {
                arg: arg@,
                value: value@,
                num: *num,
            },
            WallSwitchError::DisregardPath(path) => WallSwitchErrorView::DisregardPath(path@),
            WallSwitchError::FromUtf8(cause) => WallSwitchErrorView::FromUtf8(cause@),
            WallSwitchError::Io(cause) => WallSwitchErrorView::Io(cause@),
            WallSwitchError::InvalidDimension(cause) => WallSwitchErrorView::InvalidDimension(
                cause@,
            ),
            WallSwitchError::InvalidFilename(path) => WallSwitchErrorView::InvalidFilename(path@),
            WallSwitchError::InvalidSize { min_size, size, max_size } => {
                WallSwitchErrorView::InvalidSize {
                    min_size: *min_size,
                    size: *size,
                    max_size: *max_size,
                }
            },
            WallSwitchError::InvalidValue { arg, value } => WallSwitchErrorView::InvalidValue {
                arg: arg@,
                value: value@,
            },
            WallSwitchError::IOError { path, io_error } => WallSwitchErrorView::IOError {
                path: path@,
                io_error: io_error@,
            },
            WallSwitchError::Json(cause) => WallSwitchErrorView::Json(cause@),
            WallSwitchError::MaxValue => WallSwitchErrorView::MaxValue,
            WallSwitchError::MinValue => WallSwitchErrorView::MinValue,
            WallSwitchError::MissingValue { arg } => WallSwitchErrorView::MissingValue { arg: arg@ },
            WallSwitchError::MinMax { min, max } => WallSwitchErrorView::MinMax {
                min: *min,
                max: *max,
            },
            WallSwitchError::NoImages { paths } => WallSwitchErrorView::NoImages {
                paths: texts(paths@),
            },
            WallSwitchError::InvalidOrientation => WallSwitchErrorView::InvalidOrientation,
            WallSwitchError::InsufficientImages { paths, nfiles } => {
                WallSwitchErrorView::InsufficientImages { paths: texts(paths@), nfiles: *nfiles }
            },
            WallSwitchError::InsufficientNumber => WallSwitchErrorView::InsufficientNumber,
            WallSwitchError::Parent(path) => WallSwitchErrorView::Parent(path@),
            WallSwitchError::TryInto(cause) => WallSwitchErrorView::TryInto(cause@),
            WallSwitchError::UnableToFind(name) => WallSwitchErrorView::UnableToFind(name@),
            WallSwitchError::UnexpectedArg { arg } => WallSwitchErrorView::UnexpectedArg {
                arg: arg@,
            },
        }
    }
}

/// The views of a list of errors, in order.
pub open spec fn error_views(errors: Seq<WallSwitchError>) -> Seq<WallSwitchErrorView> {
    Seq::new(errors.len(), |i: int| errors[i]@)
}

/// The word `Error`, red and bold.
pub open spec fn error_tag() -> Seq<char> {
    painted(BOLD@, painted(RED@, "Error"@))
}

/// Where to look for help.
pub open spec fn help_hint() -> Seq<char> {
    "\n\nFor more information, try '"@ + painted(GREEN@, "--help"@) + "'."@
}

/// The first `n` of the paths, each in quotes on a line of its own.
pub open spec fn debug_items(paths: Seq<Seq<char>>, n: int) -> Seq<char>
    decreases n,
{
    if n <= 0 {
        Seq::<char>::empty()
    } else {
        debug_items(paths, n - 1) + "    "@ + debug_spec(paths[n - 1]) + ",\n"@
    }
}

/// A list of paths, each in quotes on a line of its own.
pub open spec fn debug_list(paths: Seq<Seq<char>>) -> Seq<char> {
    if paths.len() == 0 {
        "[]"@
    } else {
        "[\n"@ + debug_items(paths, paths.len() as int) + "]"@
    }
}

impl DimensionErrorView {
    /// What the error says.
    pub open spec fn message(self) -> Seq<char> {
        match self {
            DimensionErrorView::DimensionFormatError { dimension, log_min, log_max, path } => {
                error_tag() + ": invalid dimension '"@ + painted(YELLOW@, dimension.shown())
                    + "'.\n"@ + log_min + log_max + "Disregard the path: '"@ + painted(
                    YELLOW@,
                    path,
                ) + "'\n"@
            },
            DimensionErrorView::InvalidParse(text, cause) => {
                "Invalid dimension format '"@ + text + "': failed to parse integer - "@
                    + cause.message()
            },
            DimensionErrorView::InvalidFormat => {
                "Invalid dimension format: expected two numbers (width x height)"@
            },
            DimensionErrorView::ZeroDimension => "Zero is not a valid dimension component"@,
        }
    }
}

impl WallSwitchErrorView {
    /// What the error says.
    pub open spec fn message(self) -> Seq<char> {
        match self {
            WallSwitchErrorView::AtLeastValue { arg, value, num } => {
                error_tag() + ": '"@ + painted(YELLOW@, arg) + "' value '"@ + painted(
                    YELLOW@,
                    value,
                ) + "' must be at least '"@ + painted(GREEN@, decimal(num as nat))
                    + "'. The condition ("@ + painted(YELLOW@, value) + " >= "@ + painted(
                    GREEN@,
                    decimal(num as nat),
                ) + ") is false."@ + help_hint()
            },
            WallSwitchErrorView::AtMostValue { arg, value, num } => {
                error_tag() + ": '"@ + painted(YELLOW@, arg) + "' value '"@ + painted(
                    YELLOW@,
                    value,
                ) + "' must be at most '"@ + painted(GREEN@, decimal(num as nat))
                    + "'. The condition ("@ + painted(YELLOW@, value) + " <= "@ + painted(
                    GREEN@,
                    decimal(num as nat),
                ) + ") is false."@ + help_hint()
            },
            WallSwitchErrorView::DisregardPath(path) => {
                "Disregard the path: '"@ + painted(YELLOW@, path) + "'."@
            },
            WallSwitchErrorView::FromUtf8(cause) => {
                "Failed to convert command output to UTF-8: "@ + cause
            },
            WallSwitchErrorView::Io(cause) => "IO error: "@ + cause,
            WallSwitchErrorView::InvalidDimension(cause) => cause.message(),
            WallSwitchErrorView::InvalidFilename(path) => {
                error_tag() + ": Invalid file name --> Disregard the path: '"@ + painted(
                    YELLOW@,
                    path,
                ) + "'."@
            },
            WallSwitchErrorView::InvalidSize { min_size, size, max_size } => {
                error_tag() + ": invalid file size '"@ + painted(YELLOW@, decimal(size as nat))
                    + "' bytes. The condition ("@ + painted(GREEN@, decimal(min_size as nat))
                    + " <= "@ + painted(YELLOW@, decimal(size as nat)) + " <= "@ + painted(
                    GREEN@,
                    decimal(max_size as nat),
                ) + ") is false."@
            },
            WallSwitchErrorView::InvalidValue { arg, value } => {
                error_tag() + ": invalid value '"@ + painted(YELLOW@, value) + "' for '"@
                    + painted(GREEN@, arg) + "'."@ + help_hint()
            },
            WallSwitchErrorView::IOError { path, io_error } => {
                error_tag() + ": Failed to create file "@ + debug_spec(path) + "\n"@ + io_error
            },
            WallSwitchErrorView::Json(cause) => {
                "JSON serialization/deserialization error: "@ + cause
            },
            WallSwitchErrorView::MaxValue => "Unable to obtain maximum value!"@,
            WallSwitchErrorView::MinValue => "Unable to obtain minimum value!"@,
            WallSwitchErrorView::MissingValue { arg } => {
                error_tag() + ": missing value for '"@ + painted(YELLOW@, arg) + "'."@
                    + help_hint()
            },
            WallSwitchErrorView::MinMax { min, max } => {
                error_tag() + ": min ("@ + decimal(min as nat)
                    + ") must be less than or equal to max ("@ + decimal(max as nat)
                    + ")\nThe condition ("@ + decimal(min as nat) + " <= "@ + decimal(max as nat)
                    + ") is false."@
            },
            WallSwitchErrorView::NoImages { paths } => {
                error_tag() + ": no images found in image directories!\ndirectories: "@
                    + debug_list(paths)
            },
            WallSwitchErrorView::InvalidOrientation => {
                "invalid orientation.\n\nValid options: ["@ + painted(
                    GREEN@,
                    Orientation::Horizontal.name(),
                ) + ", "@ + painted(GREEN@, Orientation::Vertical.name()) + "]"@
            },
            WallSwitchErrorView::InsufficientImages { paths, nfiles } => {
                error_tag() + ": insufficient number of image files!\nFound only "@ + painted(
                    YELLOW@,
                    decimal(nfiles as nat),
                ) + " image file(s):\n"@ + debug_list(paths)
            },
            WallSwitchErrorView::InsufficientNumber => "Insufficient number of valid images!"@,
            WallSwitchErrorView::Parent(path) => {
                "Wallpaper dir "@ + debug_spec(path) + " does not exist."@
            },
            WallSwitchErrorView::TryInto(cause) => cause,
            WallSwitchErrorView::UnableToFind(name) => "Unable to find '"@ + name + "'!"@,
            WallSwitchErrorView::UnexpectedArg { arg } => {
                error_tag() + ": unexpected argument '"@ + painted(YELLOW@, arg) + "' found."@
                    + help_hint()
            },
        }
    }
}

fn error_tag_text() -> (r: String)
    ensures
        r@ == error_tag(),
{
    "Error".red().bold()
}

fn help_hint_text() -> (r: String)
    ensures
        r@ == help_hint(),
{
    let mut r = String::from_str("\n\nFor more information, try '");
    r.append("--help".green().as_str());
    r.append("'.");
    r
}

/// A list of paths, each in quotes on a line of its own.
pub(crate) fn debug_list_text(paths: &Vec<String>) -> (r: String)
    ensures
        r@ == debug_list(texts(paths@)),
{
    if paths.len() == 0 {
        return String::from_str("[]");
    }
    let mut items = String::new();
    let mut n: usize = 0;
    while n < paths.len()
        invariant
            n <= paths@.len(),
            items@ == debug_items(texts(paths@), n as int),
        decreases paths@.len() - n,
    {
        items.append("    ");
        items.append(debug_text(paths[n].as_str()).as_str());
        items.append(",\n");
        n += 1;
    }
    let mut r = String::from_str("[\n");
    r.append(items.as_str());
    r.append("]");
    r
}

fn bound_text(name: &str, arg: &String, value: &String, num: u64, sign: &str) -> (r: String)
    ensures
        r@ == error_tag() + ": '"@ + painted(YELLOW@, arg@) + "' value '"@ + painted(
            YELLOW@,
            value@,
        ) + name@ + painted(GREEN@, decimal(num as nat)) + "'. The condition ("@ + painted(
            YELLOW@,
            value@,
        ) + sign@ + painted(GREEN@, decimal(num as nat)) + ") is false."@ + help_hint(),
{
    let mut r = error_tag_text();
    r.append(": '");
    r.append(arg.yellow().as_str());
    r.append("' value '");
    r.append(value.yellow().as_str());
    r.append(name);
    r.append(num.green().as_str());
    r.append("'. The condition (");
    r.append(value.yellow().as_str());
    r.append(sign);
    r.append(num.green().as_str());
    r.append(") is false.");
    r.append(help_hint_text().as_str());
    r
}

impl DimensionError {
    /// Says what went wrong.
    pub fn to_string(&self) -> (r: String)
        ensures
            r@ == self@.message(),
    {
        match self {
            DimensionError::DimensionFormatError { dimension, log_min, log_max, path } => {
                let mut r = error_tag_text();
                r.append(": invalid dimension '");
                r.append(dimension.yellow().as_str());
                r.append("'.\n");
                r.append(log_min.as_str());
                r.append(log_max.as_str());
                r.append("Disregard the path: '");
                r.append(path.yellow().as_str());
                r.append("'\n");
                r
            },
            DimensionError::InvalidParse(text, cause) => {
                let mut r = String::from_str("Invalid dimension format '");
                r.append(text.as_str());
                r.append("': failed to parse integer - ");
                r.append(cause.to_string().as_str());
                r
            },
            DimensionError::InvalidFormat => {
                String::from_str("Invalid dimension format: expected two numbers (width x height)")
            },
            DimensionError::ZeroDimension => {
                String::from_str("Zero is not a valid dimension component")
            },
        }
    }
}

impl WallSwitchError {
    /// Says what went wrong.
    pub fn to_string(&self) -> (r: String)
        ensures
            r@ == self@.message(),
    {
        match self {
            WallSwitchError::AtLeastValue { arg, value, num } => {
                bound_text("' must be at least '", arg, value, *num, " >= ")
            },
            WallSwitchError::AtMostValue { arg, value, num } => {
                bound_text("' must be at most '", arg, value, *num, " <= ")
            },
            WallSwitchError::DisregardPath(path) => {
                let mut r = String::from_str("Disregard the path: '");
                r.append(path.yellow().as_str());
                r.append("'.");
                r
            },
            WallSwitchError::FromUtf8(cause) => {
                let mut r = String::from_str("Failed to convert command output to UTF-8: ");
                r.append(cause.as_str());
                r
            },
            WallSwitchError::Io(cause) => {
                let mut r = String::from_str("IO error: ");
                r.append(cause.as_str());
                r
            },
            WallSwitchError::InvalidDimension(cause) => cause.to_string(),
            WallSwitchError::InvalidFilename(path) => {
                let mut r = error_tag_text();
                r.append(": Invalid file name --> Disregard the path: '");
                r.append(path.yellow().as_str());
                r.append("'.");
                r
            },
            WallSwitchError::InvalidSize { min_size, size, max_size } => {
                let mut r = error_tag_text();
                r.append(": invalid file size '");
                r.append(size.yellow().as_str());
                r.append("' bytes. The condition (");
                r.append(min_size.green().as_str());
                r.append(" <= ");
                r.append(size.yellow().as_str());
                r.append(" <= ");
                r.append(max_size.green().as_str());
                r.append(") is false.");
                r
            },
            WallSwitchError::InvalidValue { arg, value } => {
                let mut r = error_tag_text();
                r.append(": invalid value '");
                r.append(value.yellow().as_str());
                r.append("' for '");
                r.append(arg.green().as_str());
                r.append("'.");
                r.append(help_hint_text().as_str());
                r
            },
            WallSwitchError::IOError { path, io_error } => {
                let mut r = error_tag_text();
                r.append(": Failed to create file ");
                r.append(debug_text(path.as_str()).as_str());
                r.append("\n");
                r.append(io_error.as_str());
                r
            },
            WallSwitchError::Json(cause) => {
                let mut r = String::from_str("JSON serialization/deserialization error: ");
                r.append(cause.as_str());
                r
            },
            WallSwitchError::MaxValue => String::from_str("Unable to obtain maximum value!"),
            WallSwitchError::MinValue => String::from_str("Unable to obtain minimum value!"),
            WallSwitchError::MissingValue { arg } => {
                let mut r = error_tag_text();
                r.append(": missing value for '");
                r.append(arg.yellow().as_str());
                r.append("'.");
                r.append(help_hint_text().as_str());
                r
            },
            WallSwitchError::MinMax { min, max } => {
                let mut r = error_tag_text();
                r.append(": min (");
                r.append(u64_to_string(*min).as_str());
                r.append(") must be less than or equal to max (");
                r.append(u64_to_string(*max).as_str());
                r.append(")\nThe condition (");
                r.append(u64_to_string(*min).as_str());
                r.append(" <= ");
                r.append(u64_to_string(*max).as_str());
                r.append(") is false.");
                r
            },
            WallSwitchError::NoImages { paths } => {
                let mut r = error_tag_text();
                r.append(": no images found in image directories!\ndirectories: ");
                r.append(debug_list_text(paths).as_str());
                r
            },
            WallSwitchError::InvalidOrientation => {
                let mut r = String::from_str("invalid orientation.\n\nValid options: [");
                r.append(Orientation::Horizontal.green().as_str());
                r.append(", ");
                r.append(Orientation::Vertical.green().as_str());
                r.append("]");
                r
            },
            WallSwitchError::InsufficientImages { paths, nfiles } => {
                let mut r = error_tag_text();
                r.append(": insufficient number of image files!\nFound only ");
                r.append(nfiles.yellow().as_str());
                r.append(" image file(s):\n");
                r.append(debug_list_text(paths).as_str());
                r
            },
            WallSwitchError::InsufficientNumber => {
                String::from_str("Insufficient number of valid images!")
            },
            WallSwitchError::Parent(path) => {
                let mut r = String::from_str("Wallpaper dir ");
                r.append(debug_text(path.as_str()).as_str());
                r.append(" does not exist.");
                r
            },
            WallSwitchError::TryInto(cause) => cause.clone(),
            WallSwitchError::UnableToFind(name) => {
                let mut r = String::from_str("Unable to find '");
                r.append(name.as_str());
                r.append("'!");
                r
            },
            WallSwitchError::UnexpectedArg { arg } => {
                let mut r = error_tag_text();
                r.append(": unexpected argument '");
                r.append(arg.yellow().as_str());
                r.append("' found.");
                r.append(help_hint_text().as_str());
                r
            },
        }
    }
}

} // verus!
