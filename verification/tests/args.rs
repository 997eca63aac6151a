use wallswitch::{
    get_formatted_args, parse_orientation, parse_value, Arguments, Orientation, WallSwitchError,
    WallSwitchResult,
};

fn strings(entries: &[&str]) -> Vec<String> {
    entries.iter().map(ToString::to_string).collect()
}

#[test]
fn get_arguments() -> WallSwitchResult<()> {
    let entries = [
        "program_name",
        "-i",
        "60",
        " -d === ",
        "200",
        "--config",
        "--monitor=",
        "3",
        "-m==5",
        "-c",
        "-p",
        "3",
        "--orientation",
        "horiZontal",
    ];

    println!("entries: {entries:?}");

    let args: Vec<String> = entries.iter().map(ToString::to_string).collect();

    let arguments = Arguments::parse(args)?;
    println!("arguments: {arguments:#?}");

    assert_eq!(
        arguments,
        Arguments {
            config: true,
            monitor_orientation: Some(Orientation::Horizontal),
            min_dimension: Some(200),
            max_dimension: None,
            min_size: None,
            max_size: None,
            help: false,
            interval: Some(60),
            monitor: Some(5),
            pictures_per_monitor: Some(3),
            sort: false,
            verbose: false,
            version: false,
        }
    );

    Ok(())
}

#[test]
fn split_arg_equal() -> WallSwitchResult<()> {
    let arg = "Löwe 老虎 Léo=öpard Gepa12345虎==rdi".to_string();
    println!("arg: {arg}");

    let result1: Vec<String> = if let Some(index) = arg.find('=') {
        vec![arg[..index].to_string(), arg[index + 1..].to_string()]
    } else {
        vec![arg.clone()]
    };

    let result2: Vec<&str> = arg
        .split_once('=')
        .into_iter()
        .flat_map(|(a, b)| vec![a, b])
        .collect();

    println!("result1: {result1:?}");

    assert_eq!(result1, ["Löwe 老虎 Léo", "öpard Gepa12345虎==rdi"]);
    assert_eq!(result1, result2);

    Ok(())
}

#[test]
fn split_arg_digit() -> WallSwitchResult<()> {
    let arg = "Löwe 老虎 Léo=pard Gepa12345虎rdi".to_string();
    println!("arg: {arg}");

    let result = if let Some(index) = arg.find(|c: char| c.is_ascii_digit()) {
        vec![arg[..index].to_string(), arg[index..].to_string()]
    } else {
        vec![arg]
    };

    println!("result: {result:?}");

    assert_eq!(result, ["Löwe 老虎 Léo=pard Gepa", "12345虎rdi"]);

    Ok(())
}

#[test]
fn formatted_args_cut_at_equal_signs_and_before_digits() {
    let args = strings(&["program_name", "Löwe 老虎 Léo=öpard Gepa12345虎==rdi", "--monitor=3", " -d === ", "-i60"]);
    assert_eq!(
        get_formatted_args(&args),
        ["Löwe 老虎 Léo", "öpard Gepa", "12345虎", "rdi", "--monitor", "3", "-d", "-i", "60"]
    );
}

#[test]
fn formatted_args_leave_out_the_program_name() {
    assert!(get_formatted_args(&strings(&[])).is_empty());
    assert!(get_formatted_args(&strings(&["program_name"])).is_empty());
    assert_eq!(get_formatted_args(&strings(&["program_name", "-s"])), ["-s"]);
}

#[test]
fn empty_command_line_asks_for_nothing() {
    assert_eq!(Arguments::parse(strings(&["program_name"])).unwrap(), Arguments::default());
    assert_eq!(Arguments::parse(strings(&[])).unwrap(), Arguments::default());
}

#[test]
fn switches_and_sizes() {
    let arguments =
        Arguments::parse(strings(&["p", "-s", "--verbose", "-b", "10", "--max_size=99", "-D", "7000"]))
            .unwrap();
    assert!(arguments.sort);
    assert!(arguments.verbose);
    assert_eq!(arguments.min_size, Some(10));
    assert_eq!(arguments.max_size, Some(99));
    assert_eq!(arguments.max_dimension, Some(7000));
}

#[test]
fn help_and_version_end_the_reading() {
    let arguments = Arguments::parse(strings(&["p", "-s", "--help", "--unknown"])).unwrap();
    assert!(arguments.help);
    assert!(arguments.sort);
    let arguments = Arguments::parse(strings(&["p", "-V", "--unknown"])).unwrap();
    assert!(arguments.version);
}

#[test]
fn unexpected_argument() {
    match Arguments::parse(strings(&["p", "--unknown"])) {
        Err(WallSwitchError::UnexpectedArg { arg }) => assert_eq!(arg, "--unknown"),
        other => panic!("unexpected: {other:?}"),
    }
}

#[test]
fn missing_value() {
    match Arguments::parse(strings(&["p", "--interval"])) {
        Err(WallSwitchError::MissingValue { arg }) => assert_eq!(arg, "--interval"),
        other => panic!("unexpected: {other:?}"),
    }
    match Arguments::parse(strings(&["p", "-o"])) {
        Err(WallSwitchError::MissingValue { arg }) => assert_eq!(arg, "--orientation"),
        other => panic!("unexpected: {other:?}"),
    }
}

#[test]
fn value_below_its_minimum() {
    match Arguments::parse(strings(&["p", "-i", "4"])) {
        Err(WallSwitchError::AtLeastValue { arg, value, num }) => {
            assert_eq!(arg, "--interval");
            assert_eq!(value, "4");
            assert_eq!(num, 5);
        }
        other => panic!("unexpected: {other:?}"),
    }
    match Arguments::parse(strings(&["p", "-d", "9"])) {
        Err(WallSwitchError::AtLeastValue { arg, num, .. }) => {
            assert_eq!(arg, "--min_dimension");
            assert_eq!(num, 10);
        }
        other => panic!("unexpected: {other:?}"),
    }
    assert!(matches!(
        Arguments::parse(strings(&["p", "-m", "0"])),
        Err(WallSwitchError::AtLeastValue { .. })
    ));
}

#[test]
fn value_that_is_no_number() {
    match Arguments::parse(strings(&["p", "-i", "-s"])) {
        Err(WallSwitchError::InvalidValue { arg, value }) => {
            assert_eq!(arg, "--interval");
            assert_eq!(value, "-s");
        }
        other => panic!("unexpected: {other:?}"),
    }
}

#[test]
fn number_too_large_for_a_monitor_count() {
    match Arguments::parse(strings(&["p", "-m", "256"])) {
        Err(WallSwitchError::TryInto(text)) => {
            assert_eq!(text, "out of range integral type conversion attempted")
        }
        other => panic!("unexpected: {other:?}"),
    }
    assert_eq!(Arguments::parse(strings(&["p", "-p", "255"])).unwrap().pictures_per_monitor, Some(255));
}

#[test]
fn orientation_in_any_case() {
    let arguments = Arguments::parse(strings(&["p", "-o", " VERTICAL "])).unwrap();
    assert_eq!(arguments.monitor_orientation, Some(Orientation::Vertical));
    assert!(matches!(
        Arguments::parse(strings(&["p", "-o", "diagonal"])),
        Err(WallSwitchError::InvalidOrientation)
    ));
}

#[test]
fn parse_value_alone() {
    assert_eq!(parse_value(Some("12".to_string()), "--interval", 5).unwrap(), 12);
    assert!(matches!(
        parse_value(None, "--interval", 5),
        Err(WallSwitchError::MissingValue { .. })
    ));
    assert!(matches!(
        parse_value(Some(" 12".to_string()), "--interval", 5),
        Err(WallSwitchError::InvalidValue { .. })
    ));
}

#[test]
fn parse_orientation_alone() {
    assert_eq!(
        parse_orientation(Some("Horizontal".to_string()), "--orientation").unwrap(),
        Orientation::Horizontal
    );
    assert!(matches!(
        parse_orientation(None, "--orientation"),
        Err(WallSwitchError::MissingValue { .. })
    ));
}

#[test]
fn orientation_from_str_and_back() {
    let orientation: Orientation = "vErTiCaL".parse().unwrap();
    assert_eq!(orientation, Orientation::Vertical);
    assert_eq!(orientation.to_string(), "Vertical");
    assert_eq!(Orientation::Horizontal.to_string(), "Horizontal");
    assert_eq!(Orientation::default(), Orientation::Horizontal);
    assert_eq!(Orientation::Horizontal.flip(), Orientation::Vertical);
    assert_eq!(Orientation::Vertical.flip(), Orientation::Horizontal);
    assert!("horizontaal".parse::<Orientation>().is_err());
}
