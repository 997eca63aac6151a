use wallswitch::{Colors, Dimension, DimensionError, ParseIntError, WallSwitchError};

#[test]
fn test_error_display() {
    let path = "/tmp".to_string();
    let text = format!("Disregard the path: '{}'.", path.yellow());
    println!("text: {text}");

    assert_eq!(
        WallSwitchError::InsufficientNumber.to_string(),
        "Insufficient number of valid images!"
    );

    assert_eq!(WallSwitchError::DisregardPath(path).to_string(), text);
}

const ERROR: &str = "\u{1b}[1m\u{1b}[31mError\u{1b}[0m\u{1b}[0m";
const HELP: &str = "\n\nFor more information, try '\u{1b}[32m--help\u{1b}[0m'.";

#[test]
fn colours_wrap_the_text() {
    assert_eq!("abc".bold(), "\u{1b}[1mabc\u{1b}[0m");
    assert_eq!("abc".red(), "\u{1b}[31mabc\u{1b}[0m");
    assert_eq!("abc".green(), "\u{1b}[32mabc\u{1b}[0m");
    assert_eq!("abc".yellow(), "\u{1b}[33mabc\u{1b}[0m");
    assert_eq!("abc".blue(), "\u{1b}[34mabc\u{1b}[0m");
    assert_eq!(42u64.green(), "\u{1b}[32m42\u{1b}[0m");
    assert_eq!(7usize.yellow(), "\u{1b}[33m7\u{1b}[0m");
    assert_eq!("Error".red().bold(), ERROR);
}

#[test]
fn bounds_on_values() {
    let error = WallSwitchError::AtLeastValue {
        arg: "--interval".to_string(),
        value: "4".to_string(),
        num: 5,
    };
    assert_eq!(
        error.to_string(),
        format!(
            "{ERROR}: '\u{1b}[33m--interval\u{1b}[0m' value '\u{1b}[33m4\u{1b}[0m' must be at least '\u{1b}[32m5\u{1b}[0m'. The condition (\u{1b}[33m4\u{1b}[0m >= \u{1b}[32m5\u{1b}[0m) is false.{HELP}"
        )
    );
    let error = WallSwitchError::AtMostValue {
        arg: "--monitor".to_string(),
        value: "9".to_string(),
        num: 8,
    };
    assert_eq!(
        error.to_string(),
        format!(
            "{ERROR}: '\u{1b}[33m--monitor\u{1b}[0m' value '\u{1b}[33m9\u{1b}[0m' must be at most '\u{1b}[32m8\u{1b}[0m'. The condition (\u{1b}[33m9\u{1b}[0m <= \u{1b}[32m8\u{1b}[0m) is false.{HELP}"
        )
    );
}

#[test]
fn command_line_errors() {
    assert_eq!(
        WallSwitchError::InvalidValue { arg: "--interval".to_string(), value: "x".to_string() }
            .to_string(),
        format!("{ERROR}: invalid value '\u{1b}[33mx\u{1b}[0m' for '\u{1b}[32m--interval\u{1b}[0m'.{HELP}")
    );
    assert_eq!(
        WallSwitchError::MissingValue { arg: "--interval".to_string() }.to_string(),
        format!("{ERROR}: missing value for '\u{1b}[33m--interval\u{1b}[0m'.{HELP}")
    );
    assert_eq!(
        WallSwitchError::UnexpectedArg { arg: "--what".to_string() }.to_string(),
        format!("{ERROR}: unexpected argument '\u{1b}[33m--what\u{1b}[0m' found.{HELP}")
    );
    assert_eq!(
        WallSwitchError::InvalidOrientation.to_string(),
        "invalid orientation.\n\nValid options: [\u{1b}[32mHorizontal\u{1b}[0m, \u{1b}[32mVertical\u{1b}[0m]"
    );
    assert_eq!(
        WallSwitchError::TryInto("out of range".to_string()).to_string(),
        "out of range"
    );
}

#[test]
fn file_errors() {
    assert_eq!(
        WallSwitchError::InvalidFilename("wallswitch.jpg".to_string()).to_string(),
        format!("{ERROR}: Invalid file name --> Disregard the path: '\u{1b}[33mwallswitch.jpg\u{1b}[0m'.")
    );
    assert_eq!(
        WallSwitchError::InvalidSize { min_size: 1000, size: 500, max_size: 5000 }.to_string(),
        format!(
            "{ERROR}: invalid file size '\u{1b}[33m500\u{1b}[0m' bytes. The condition (\u{1b}[32m1000\u{1b}[0m <= \u{1b}[33m500\u{1b}[0m <= \u{1b}[32m5000\u{1b}[0m) is false."
        )
    );
    assert_eq!(
        WallSwitchError::MinMax { min: 9, max: 3 }.to_string(),
        format!("{ERROR}: min (9) must be less than or equal to max (3)\nThe condition (9 <= 3) is false.")
    );
    assert_eq!(
        WallSwitchError::UnableToFind("feh".to_string()).to_string(),
        "Unable to find 'feh'!"
    );
    assert_eq!(WallSwitchError::MaxValue.to_string(), "Unable to obtain maximum value!");
    assert_eq!(WallSwitchError::MinValue.to_string(), "Unable to obtain minimum value!");
}

#[test]
fn paths_are_shown_quoted() {
    assert_eq!(
        WallSwitchError::Parent("/home/a \"b\"".to_string()).to_string(),
        "Wallpaper dir \"/home/a \\\"b\\\"\" does not exist."
    );
    assert_eq!(
        WallSwitchError::IOError { path: "/x/y.json".to_string(), io_error: "denied".to_string() }
            .to_string(),
        format!("{ERROR}: Failed to create file \"/x/y.json\"\ndenied")
    );
    assert_eq!(
        WallSwitchError::NoImages { paths: vec!["/a".to_string(), "/b c".to_string()] }.to_string(),
        format!("{ERROR}: no images found in image directories!\ndirectories: [\n    \"/a\",\n    \"/b c\",\n]")
    );
    assert_eq!(
        WallSwitchError::NoImages { paths: vec![] }.to_string(),
        format!("{ERROR}: no images found in image directories!\ndirectories: []")
    );
    assert_eq!(
        WallSwitchError::InsufficientImages { paths: vec!["/a.jpg".to_string()], nfiles: 1 }
            .to_string(),
        format!(
            "{ERROR}: insufficient number of image files!\nFound only \u{1b}[33m1\u{1b}[0m image file(s):\n[\n    \"/a.jpg\",\n]"
        )
    );
}

#[test]
fn outside_failures_keep_their_text() {
    assert_eq!(WallSwitchError::Io("gone".to_string()).to_string(), "IO error: gone");
    assert_eq!(
        WallSwitchError::FromUtf8("bad byte".to_string()).to_string(),
        "Failed to convert command output to UTF-8: bad byte"
    );
    assert_eq!(
        WallSwitchError::Json("eof".to_string()).to_string(),
        "JSON serialization/deserialization error: eof"
    );
}

#[test]
fn dimension_errors() {
    assert_eq!(
        DimensionError::InvalidParse("ax1".to_string(), ParseIntError::InvalidDigit).to_string(),
        "Invalid dimension format 'ax1': failed to parse integer - invalid digit found in string"
    );
    assert_eq!(
        ParseIntError::PosOverflow.to_string(),
        "number too large to fit in target type"
    );
    assert_eq!(ParseIntError::Empty.to_string(), "cannot parse integer from empty string");
    let error = DimensionError::DimensionFormatError {
        dimension: Dimension { width: 50, height: 700 },
        log_min: "min\n".to_string(),
        log_max: "".to_string(),
        path: "/a.jpg".to_string(),
    };
    assert_eq!(
        error.to_string(),
        format!(
            "{ERROR}: invalid dimension '\u{1b}[33mDimension {{ height: 700, width:  50 }}\u{1b}[0m'.\nmin\nDisregard the path: '\u{1b}[33m/a.jpg\u{1b}[0m'\n"
        )
    );
    assert_eq!(
        WallSwitchError::InvalidDimension(DimensionError::ZeroDimension).to_string(),
        "Zero is not a valid dimension component"
    );
}
