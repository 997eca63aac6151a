use wallswitch::{
    config_boundary, get_config_path, get_directories, get_monitors, get_wallpaper_path,
    Arguments, Config, Dimension, Environment, Monitor, Orientation, ProgramLookup,
    WallSwitchError,
};

fn environment() -> Environment {
    Environment::new(
        "/home/user".to_string(),
        &vec!["pop:GNOME".to_string(), "pop".to_string()],
        None,
    )
}

fn config() -> Config {
    Config::from_environment(&environment())
}

fn validate(config: Config) -> Result<Config, WallSwitchError> {
    config.validate_config(ProgramLookup::Configured, ProgramLookup::Configured)
}

#[test]
fn default_configuration() {
    let config = config();
    assert_eq!(config.desktop, "pop:gnome");
    assert_eq!(
        config.directories,
        [
            "/home/user/Figures",
            "/home/user/Images",
            "/home/user/Pictures",
            "/home/user/Wallpapers",
            "/home/user/Imagens",
            "/usr/share/wallpapers",
            "/usr/share/backgrounds",
            "/tmp/teste",
        ]
    );
    assert_eq!(config.extensions, ["avif", "jpg", "jpeg", "png", "svg", "tif", "webp"]);
    assert_eq!(config.interval, 1800);
    assert_eq!(config.min_dimension, 600);
    assert_eq!(config.max_dimension, 128_000);
    assert_eq!(config.min_size, 1024);
    assert_eq!(config.max_size, 1_073_741_824);
    assert_eq!(config.monitors, get_monitors(2));
    assert_eq!(config.monitor_orientation, Orientation::Horizontal);
    assert_eq!(config.path_feh, "/usr/bin/feh");
    assert_eq!(config.path_magick, "/usr/bin/magick");
    assert!(!config.sort);
    assert!(!config.verbose);
    assert_eq!(config.wallpaper, "/home/user/wallswitch.jpg");
    assert!(validate(config).is_ok());
}

#[test]
fn boundary_configuration() {
    let boundary = config_boundary(&environment());
    assert_eq!(boundary.interval, 5);
    assert_eq!(boundary.min_dimension, 10);
    assert_eq!(boundary.min_size, 1);
    assert_eq!(boundary.monitors, [Monitor::default()]);
    assert_eq!(boundary.max_dimension, 128_000);
    assert!(validate(boundary).is_ok());
}

#[test]
fn paths_of_wallpaper_and_configuration() {
    let environment = environment();
    assert_eq!(get_wallpaper_path(&environment), "/home/user/wallswitch.jpg");
    assert_eq!(
        get_config_path(&environment).unwrap(),
        "/home/user/.config/wallswitch/wallswitch.json"
    );
    assert_eq!(get_directories(&environment).len(), 8);

    let other = Environment::new(
        "/home/user/".to_string(),
        &vec!["xfce".to_string()],
        Some("wall.switch".to_string()),
    );
    assert_eq!(get_wallpaper_path(&other), "/home/user/wall.jpg");
    assert_eq!(get_config_path(&other).unwrap(), "/home/user/.config/wall.switch/wall.json");
}

#[test]
fn in_range_includes_the_bounds() {
    let config = config();
    assert!(config.in_range(600));
    assert!(config.in_range(128_000));
    assert!(!config.in_range(599));
    assert!(!config.in_range(128_001));
}

#[test]
fn images_per_cycle_is_the_sum_over_the_monitors() {
    let mut config = config();
    assert_eq!(config.get_number_of_images(), 2);
    config.monitors = vec![
        Monitor { pictures_per_monitor: 2, ..Monitor::default() },
        Monitor { pictures_per_monitor: 1, ..Monitor::default() },
        Monitor { pictures_per_monitor: 255, ..Monitor::default() },
    ];
    assert_eq!(config.get_number_of_images(), 258);
    config.monitors = vec![];
    assert_eq!(config.get_number_of_images(), 0);
}

#[test]
fn interval_below_five_seconds() {
    let mut config = config();
    config.interval = 4;
    config.min_dimension = 1;
    match validate(config) {
        Err(WallSwitchError::AtLeastValue { arg, value, num }) => {
            assert_eq!(arg, "--interval");
            assert_eq!(value, "4");
            assert_eq!(num, 5);
        }
        other => panic!("unexpected: {other:?}"),
    }
}

#[test]
fn lower_bounds_below_their_minimum() {
    let mut config = self::config();
    config.min_dimension = 9;
    config.min_size = 0;
    match validate(config) {
        Err(WallSwitchError::AtLeastValue { arg, value, num }) => {
            assert_eq!(arg, "--min_dimension");
            assert_eq!(value, "9");
            assert_eq!(num, 10);
        }
        other => panic!("unexpected: {other:?}"),
    }
    let mut config = self::config();
    config.min_size = 0;
    match validate(config) {
        Err(WallSwitchError::AtLeastValue { arg, value, num }) => {
            assert_eq!(arg, "--min_size");
            assert_eq!(value, "0");
            assert_eq!(num, 1);
        }
        other => panic!("unexpected: {other:?}"),
    }
}

#[test]
fn monitors_must_be_there_and_show_pictures() {
    let mut config = self::config();
    config.monitors = vec![];
    match validate(config) {
        Err(WallSwitchError::AtLeastValue { arg, value, num }) => {
            assert_eq!(arg, "--interval");
            assert_eq!(value, "0");
            assert_eq!(num, 1);
        }
        other => panic!("unexpected: {other:?}"),
    }
    let mut config = self::config();
    config.monitors[1].pictures_per_monitor = 0;
    match validate(config) {
        Err(WallSwitchError::AtLeastValue { arg, value, num }) => {
            assert_eq!(arg, "--picture");
            assert_eq!(value, "0");
            assert_eq!(num, 1);
        }
        other => panic!("unexpected: {other:?}"),
    }
}

#[test]
fn bounds_in_the_wrong_order() {
    let mut config = self::config();
    config.max_dimension = 599;
    config.max_size = 1;
    assert!(matches!(validate(config), Err(WallSwitchError::MinMax { min: 600, max: 599 })));
    let mut config = self::config();
    config.max_size = 1023;
    assert!(matches!(validate(config), Err(WallSwitchError::MinMax { min: 1024, max: 1023 })));
}

#[test]
fn helper_programs_that_were_looked_up() {
    let validated = config()
        .validate_config(
            ProgramLookup::Found("/opt/bin/feh".to_string()),
            ProgramLookup::Configured,
        )
        .unwrap();
    assert_eq!(validated.path_feh, "/opt/bin/feh");
    assert_eq!(validated.path_magick, "/usr/bin/magick");

    match config().validate_config(ProgramLookup::Missing, ProgramLookup::Missing) {
        Err(WallSwitchError::UnableToFind(name)) => assert_eq!(name, "feh"),
        other => panic!("unexpected: {other:?}"),
    }
    match config().validate_config(ProgramLookup::Configured, ProgramLookup::Missing) {
        Err(WallSwitchError::UnableToFind(name)) => assert_eq!(name, "magick"),
        other => panic!("unexpected: {other:?}"),
    }
    let mut slow = config();
    slow.interval = 1;
    assert!(matches!(
        slow.validate_config(ProgramLookup::Missing, ProgramLookup::Missing),
        Err(WallSwitchError::AtLeastValue { .. })
    ));
}

#[test]
fn command_line_is_laid_over_the_configuration() {
    let arguments = Arguments {
        min_size: Some(10),
        max_dimension: Some(9000),
        interval: Some(60),
        monitor: Some(3),
        monitor_orientation: Some(Orientation::Vertical),
        pictures_per_monitor: Some(2),
        sort: true,
        ..Arguments::default()
    };
    let config = config().set_command_line_arguments(&arguments, "xfce").unwrap();
    assert_eq!(config.desktop, "xfce");
    assert_eq!(config.min_size, 10);
    assert_eq!(config.max_size, 1_073_741_824);
    assert_eq!(config.min_dimension, 600);
    assert_eq!(config.max_dimension, 9000);
    assert_eq!(config.interval, 60);
    assert_eq!(config.monitor_orientation, Orientation::Vertical);
    assert!(config.sort);
    assert!(!config.verbose);
    assert_eq!(config.monitors.len(), 3);
    for (index, monitor) in config.monitors.iter().enumerate() {
        assert_eq!(monitor.pictures_per_monitor, 2);
        assert_eq!(monitor.resolution, Dimension::default());
        let expected =
            if index % 2 == 0 { Orientation::Vertical } else { Orientation::Horizontal };
        assert_eq!(monitor.picture_orientation, expected);
    }
}

#[test]
fn switches_on_the_command_line_turn_the_configured_ones_around() {
    let mut config = config();
    config.sort = true;
    config.verbose = true;
    let arguments = Arguments { sort: true, ..Arguments::default() };
    let config = config.set_command_line_arguments(&arguments, "gnome").unwrap();
    assert!(!config.sort);
    assert!(config.verbose);
    assert_eq!(config.monitors, get_monitors(2));
}
