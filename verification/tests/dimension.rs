use wallswitch::{
    split_str, Config, Dimension, DimensionError, Monitor, Orientation, ParseIntError,
    WallSwitchError, WallSwitchResult,
};

fn config_with_window(min_dimension: u64, max_dimension: u64) -> Config {
    Config {
        desktop: "gnome".to_string(),
        directories: vec!["/tmp".to_string()],
        extensions: vec!["jpg".to_string(), "png".to_string()],
        interval: 1800,
        min_dimension,
        max_dimension,
        min_size: 1024,
        max_size: 1024 * 1024 * 1024,
        monitors: vec![Monitor::default()],
        monitor_orientation: Orientation::Horizontal,
        path_feh: "/usr/bin/feh".to_string(),
        path_magick: "/usr/bin/magick".to_string(),
        sort: false,
        verbose: false,
        wallpaper: "/home/user/wallswitch.jpg".to_string(),
    }
}

#[test]
fn split_str_sample_1() {
    let string = " 123 x 4567 ";

    let result = split_str(string);

    match result {
        Ok(numbers) => {
            assert_eq!(numbers[0], 123);
            assert_eq!(numbers[1], 4567);
        }
        Err(err) => panic!("Unexpected error: {}", err.to_string()),
    }
}

#[test]
fn split_str_sample_2() {
    let string = "x4567";

    let result: WallSwitchResult<Vec<u64>> = split_str(string);
    println!("{:?}", &result);

    let result_to_string: Result<Vec<u64>, String> = split_str(string).map_err(|e| e.to_string());
    println!("{:?}", &result_to_string);

    let opt_error: String = result_to_string.unwrap_err();

    let expected_exact_error_message = format!(
        "Invalid dimension format '{string}': failed to parse integer - cannot parse integer from empty string"
    );

    assert!(result.is_err());

    match result.unwrap_err() {
        WallSwitchError::InvalidDimension(DimensionError::InvalidParse(err_string, _)) => {
            assert_eq!(err_string, string);
        }
        other_error => panic!(
            "Expected InvalidDimension(InvalidParse), but got: {:?}",
            other_error
        ),
    }

    assert_eq!(opt_error, expected_exact_error_message);
}

#[test]
fn split_str_sample_3() {
    let string = "12ab3x4567";

    let result: WallSwitchResult<Vec<u64>> = split_str(string);
    println!("{:?}", &result);

    let result_to_string: Result<Vec<u64>, String> = split_str(string).map_err(|e| e.to_string());
    println!("{:?}", &result_to_string);

    let opt_error: String = result_to_string.unwrap_err();
    let parse_error_reason = "invalid digit found in string";
    let expected_output_part = format!(
        "Invalid dimension format '{string}': failed to parse integer - {parse_error_reason}"
    );

    assert!(result.is_err());

    match result.unwrap_err() {
        WallSwitchError::InvalidDimension(DimensionError::InvalidParse(err_string, parse_err)) => {
            assert_eq!(err_string, string);
            assert_eq!(parse_err.to_string(), parse_error_reason);
        }
        other_error => panic!(
            "Expected InvalidDimension(InvalidParse), but got: {:?}",
            other_error
        ),
    }

    assert!(opt_error.contains(&expected_output_part));
}

#[test]
fn split_str_sample_4() {
    let string = "57x124x89";

    let result = split_str(string);
    println!("{:?}", &result);
    assert!(result.is_err());
    assert_eq!(
        result.unwrap_err().to_string(),
        "Invalid dimension format: expected two numbers (width x height)"
    );
}

#[test]
fn split_str_sample_5() {
    let string = "57x0";

    let result = split_str(string);
    println!("{:?}", &result);
    assert!(result.is_err());
    assert_eq!(
        result.unwrap_err().to_string(),
        "Zero is not a valid dimension component"
    );
}

#[test]
fn split_str_plain_and_padded_agree() {
    let integers1: Vec<u64> = split_str("123x4567").unwrap();
    let integers2: Vec<u64> = split_str(" 123 x 4567 \n").unwrap();

    assert_eq!(integers1, [123, 4567]);
    assert_eq!(integers1, integers2);
}

#[test]
fn split_str_reports_each_kind_of_failure() {
    assert!(matches!(
        split_str("57x0"),
        Err(WallSwitchError::InvalidDimension(DimensionError::ZeroDimension))
    ));
    assert!(matches!(
        split_str("0x57"),
        Err(WallSwitchError::InvalidDimension(DimensionError::ZeroDimension))
    ));
    assert!(matches!(
        split_str("57x124x89"),
        Err(WallSwitchError::InvalidDimension(DimensionError::InvalidFormat))
    ));
    assert!(matches!(
        split_str("57"),
        Err(WallSwitchError::InvalidDimension(DimensionError::InvalidFormat))
    ));
    assert!(matches!(
        split_str(""),
        Err(WallSwitchError::InvalidDimension(DimensionError::InvalidParse(
            _,
            ParseIntError::Empty
        )))
    ));
    assert!(matches!(
        split_str("1x99999999999999999999"),
        Err(WallSwitchError::InvalidDimension(DimensionError::InvalidParse(
            _,
            ParseIntError::PosOverflow
        )))
    ));
    assert!(matches!(
        split_str("-1x2"),
        Err(WallSwitchError::InvalidDimension(DimensionError::InvalidParse(
            _,
            ParseIntError::InvalidDigit
        )))
    ));
    assert_eq!(split_str("+1x18446744073709551615").unwrap(), [1, u64::MAX]);
}

#[test]
fn what_is_written_is_read_back() {
    for (width, height) in [(1u64, 1u64), (123, 4567), (3840, 2160), (u64::MAX, 10), (7, u64::MAX)] {
        let text = format!("{width}x{height}");
        assert_eq!(split_str(&text).unwrap(), [width, height]);
        assert_eq!(Dimension::new(&text).unwrap(), Dimension { width, height });
    }
}

#[test]
fn dimension_new_reads_width_then_height() {
    let dimension = Dimension::new("1920x1080").unwrap();
    assert_eq!(dimension, Dimension { width: 1920, height: 1080 });
    assert!(Dimension::new("1920").is_err());
    assert!(Dimension::new("1920x").is_err());
}

#[test]
fn dimension_default_is_4k() {
    assert_eq!(Dimension::default(), Dimension { width: 3840, height: 2160 });
}

#[test]
fn minimum_and_maximum() {
    let tall = Dimension { width: 600, height: 800 };
    assert_eq!(tall.minimum(), 600);
    assert_eq!(tall.maximum(), 800);
    let square = Dimension { width: 7, height: 7 };
    assert_eq!(square.minimum(), 7);
    assert_eq!(square.maximum(), 7);
}

#[test]
fn validity_looks_at_both_sides() {
    let config = config_with_window(600, 4000);
    assert!(Dimension { width: 600, height: 4000 }.is_valid(&config));
    assert!(!Dimension { width: 599, height: 4000 }.is_valid(&config));
    assert!(!Dimension { width: 600, height: 4001 }.is_valid(&config));
    assert!(!Dimension { width: 10, height: 100_000 }.is_valid(&config));
}

#[test]
fn validity_is_symmetric_under_swap() {
    let config = config_with_window(600, 4000);
    for (width, height) in [(600, 4000), (599, 4000), (4001, 600), (1000, 1000), (1, 9000)] {
        let dimension = Dimension { width, height };
        let swapped = Dimension { width: height, height: width };
        assert_eq!(dimension.is_valid(&config), swapped.is_valid(&config));
        assert_eq!(dimension.minimum(), swapped.minimum());
        assert_eq!(dimension.maximum(), swapped.maximum());
    }
}

#[test]
fn log_lines_are_empty_for_sides_in_range() {
    let config = config_with_window(600, 4000);
    let dimension = Dimension { width: 1000, height: 2000 };
    assert_eq!(dimension.get_log_min(&config), "");
    assert_eq!(dimension.get_log_max(&config), "");
}

#[test]
fn log_lines_report_the_side_out_of_range() {
    let config = config_with_window(600, 4000);
    let dimension = Dimension { width: 50, height: 12000 };
    assert_eq!(
        dimension.get_log_min(&config),
        "Minimum dimension: \u{1b}[33m   50\u{1b}[0m. The condition (\u{1b}[32m600\u{1b}[0m <= \u{1b}[33m   50\u{1b}[0m <= \u{1b}[32m4000\u{1b}[0m) is false.\n"
    );
    assert_eq!(
        dimension.get_log_max(&config),
        "Maximum dimension: \u{1b}[33m12000\u{1b}[0m. The condition (\u{1b}[32m600\u{1b}[0m <= \u{1b}[33m12000\u{1b}[0m <= \u{1b}[32m4000\u{1b}[0m) is false.\n"
    );
}

#[test]
fn dimension_to_string_aligns_both_sides() {
    let dimension = Dimension { width: 50, height: 12000 };
    assert_eq!(dimension.to_string(), "Dimension { height: 12000, width:    50 }");
}
