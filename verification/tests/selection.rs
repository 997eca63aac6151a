use wallswitch::{
    display_files, first_size_error, gather_files, get_images, get_images_with, identical_files,
    identical_report, validate_chunk, validate_file, Config, Dimension, DimensionError, FileInfo,
    Monitor, Orientation, SliceDisplay, WallSwitchError,
};

fn monitor(pictures_per_monitor: u8) -> Monitor {
    Monitor { pictures_per_monitor, ..Monitor::default() }
}

fn config(pictures: &[u8]) -> Config {
    Config {
        desktop: "gnome".to_string(),
        directories: vec!["/pictures".to_string()],
        extensions: vec!["jpg".to_string(), "png".to_string()],
        interval: 1800,
        min_dimension: 600,
        max_dimension: 4000,
        min_size: 1000,
        max_size: 5000,
        monitors: pictures.iter().map(|p| monitor(*p)).collect(),
        monitor_orientation: Orientation::Horizontal,
        path_feh: "/usr/bin/feh".to_string(),
        path_magick: "/usr/bin/magick".to_string(),
        sort: true,
        verbose: false,
        wallpaper: "/home/user/wallswitch.jpg".to_string(),
    }
}

fn file(path: &str, size: u64, hash: &str) -> FileInfo {
    FileInfo { size, hash: hash.to_string(), path: path.to_string(), ..Default::default() }
}

fn pool(count: usize) -> Vec<FileInfo> {
    (0..count).map(|i| file(&format!("/pictures/{i}.jpg"), 2000, &format!("{i}"))).collect()
}

fn answers(count: usize, answer: &str) -> Vec<String> {
    (0..count).map(|_| answer.to_string()).collect()
}

#[test]
fn files_with_repeated_content_are_left_out() {
    let found = vec![
        file("/a.jpg", 1, "11"),
        file("/b.jpg", 2, "22"),
        file("/c.jpg", 3, "11"),
        file("/d.jpg", 4, "33"),
        file("/e.jpg", 5, "22"),
        file("/f.jpg", 6, "11"),
    ];
    let files = gather_files(&found);
    let paths: Vec<&str> = files.iter().map(|f| f.path.as_str()).collect();
    assert_eq!(paths, ["/a.jpg", "/b.jpg", "/d.jpg"]);
    for i in 0..files.len() {
        for j in 0..i {
            assert_ne!(files[i].hash, files[j].hash);
        }
    }
    assert!(gather_files(&[]).is_empty());
}

#[test]
fn groups_of_identical_files() {
    let found = vec![
        file("/a.jpg", 1, "11"),
        file("/b.jpg", 2, "22"),
        file("/c.jpg", 3, "11"),
        file("/d.jpg", 4, "33"),
        file("/e.jpg", 5, "22"),
        file("/f.jpg", 6, "11"),
    ];
    let groups = identical_files(&found);
    assert_eq!(groups.len(), 2);
    assert_eq!(groups[0], ["/a.jpg", "/c.jpg", "/f.jpg"]);
    assert_eq!(groups[1], ["/b.jpg", "/e.jpg"]);
    assert_eq!(
        identical_report(&groups[1]),
        "\u{1b}[33midentical files\u{1b}[0m: [\n    \"/b.jpg\",\n    \"/e.jpg\",\n]\n"
    );
    assert!(identical_files(&pool(4)).is_empty());
}

#[test]
fn no_image_is_fatal() {
    match get_images(&[], &config(&[1, 1])) {
        Err(WallSwitchError::NoImages { paths }) => assert_eq!(paths, ["/pictures"]),
        other => panic!("unexpected: {other:?}"),
    }
}

#[test]
fn fewer_images_than_monitors_is_fatal() {
    let found = vec![file("/a.jpg", 1, "11"), file("/b.jpg", 1, "11")];
    match get_images(&found, &config(&[1, 1])) {
        Err(WallSwitchError::InsufficientImages { paths, nfiles }) => {
            assert_eq!(paths, ["/a.jpg"]);
            assert_eq!(nfiles, 1);
        }
        other => panic!("unexpected: {other:?}"),
    }
}

#[test]
fn sorted_pool_keeps_the_order_and_numbers_the_files() {
    let found = vec![file("/a.jpg", 1, "11"), file("/b.jpg", 2, "11"), file("/c.jpg", 3, "33")];
    let images = get_images(&found, &config(&[1, 1])).unwrap();
    let shown: Vec<(usize, usize, &str)> =
        images.iter().map(|f| (f.number, f.total, f.path.as_str())).collect();
    assert_eq!(shown, [(1, 2, "/a.jpg"), (2, 2, "/c.jpg")]);
}

#[test]
fn shuffled_pool_holds_the_same_files() {
    let mut config = config(&[1, 1]);
    config.sort = false;
    let images = get_images(&pool(40), &config).unwrap();
    assert_eq!(images.len(), 40);
    let mut numbers: Vec<usize> = images.iter().map(|f| f.number).collect();
    numbers.sort();
    assert_eq!(numbers, (1..=40).collect::<Vec<usize>>());
    for image in &images {
        assert_eq!(image.path, format!("/pictures/{}.jpg", image.number - 1));
        assert_eq!(image.total, 40);
    }
}

#[test]
fn pool_shuffled_with_given_draws() {
    let mut config = config(&[1]);
    config.sort = false;
    let images = get_images_with(&pool(4), &config, &[3, 1, 5]).unwrap();
    let numbers: Vec<usize> = images.iter().map(|f| f.number).collect();
    assert_eq!(numbers, [4, 3, 1, 2]);
}

#[test]
fn listing_of_the_pool() {
    let config = config(&[1]);
    let images = get_images(&pool(2), &config).unwrap();
    assert_eq!(
        display_files(&images, &config),
        "2 images were found (sorted):\nimages[1/2]: \"/pictures/0.jpg\"\nimages[2/2]: \"/pictures/1.jpg\"\n\n"
    );
    let mut shuffled = self::config(&[1]);
    shuffled.sort = false;
    assert_eq!(display_files(&[], &shuffled), "0 images were found (shuffled):\n\n");
}

#[test]
fn table_of_files() {
    let mut files = vec![file("/a.jpg", 2000, "1"), file("/b \"c\".jpg", 30, "2")];
    files[0].dimension = Dimension { width: 1920, height: 1080 };
    files[1].dimension = Dimension { width: 50, height: 12000 };
    files[0].number = 9;
    files[0].total = 10;
    files[1].number = 10;
    files[1].total = 10;
    assert_eq!(
        SliceDisplay(&files).to_string(),
        "images[09/10]: Dimension { width:  1920, height:  1080 }, size: 2000, path: \"/a.jpg\"\n\
         images[10/10]: Dimension { width:    50, height: 12000 }, size:   30, path: \"/b \\\"c\\\".jpg\"\n"
    );
    assert_eq!(SliceDisplay(&[]).to_string(), "");
}

#[test]
fn first_file_of_the_wrong_size_is_reported() {
    let config = config(&[1]);
    let files = vec![file("/a.jpg", 2000, "1"), file("/b.jpg", 500, "2"), file("/c.jpg", 9000, "3")];
    let reports = first_size_error(&files, &config).unwrap();
    assert_eq!(reports.len(), 2);
    assert!(matches!(
        reports[0],
        WallSwitchError::InvalidSize { min_size: 1000, size: 500, max_size: 5000 }
    ));
    match &reports[1] {
        WallSwitchError::DisregardPath(path) => assert_eq!(path, "/b.jpg"),
        other => panic!("unexpected: {other:?}"),
    }
    assert_eq!(
        reports[1].to_string(),
        "Disregard the path: '\u{1b}[33m/b.jpg\u{1b}[0m'."
    );
    assert!(first_size_error(&files[..1], &config).is_none());
}

#[test]
fn a_file_is_validated_with_its_probe() {
    let config = config(&[1]);
    let figure = validate_file(&file("/a.jpg", 2000, "1"), "1920x1080", &config).unwrap();
    assert_eq!(figure.dimension, Dimension { width: 1920, height: 1080 });
    assert_eq!(figure.path, "/a.jpg");
    assert!(matches!(
        validate_file(&file("/a.jpg", 2000, "1"), "1920", &config),
        Err(WallSwitchError::InvalidDimension(DimensionError::InvalidFormat))
    ));
    assert!(matches!(
        validate_file(&file("/a.jpg", 2000, "1"), "100x1080", &config),
        Err(WallSwitchError::InvalidDimension(DimensionError::DimensionFormatError { .. }))
    ));
    match validate_file(&file("/x/wallswitch.jpg", 2000, "1"), "1920x1080", &config) {
        Err(WallSwitchError::InvalidFilename(name)) => assert_eq!(name, "wallswitch.jpg"),
        other => panic!("unexpected: {other:?}"),
    }
}

#[test]
fn validation_is_idempotent() {
    let config = config(&[1]);
    let once = validate_file(&file("/a.jpg", 2000, "1"), "1920x1080", &config).unwrap();
    let twice = validate_file(&once, "1920x1080", &config).unwrap();
    assert_eq!(once, twice);
    let files = pool(3);
    let probes = answers(3, "800x600");
    let figures = validate_chunk(&files, &probes, &config).unwrap();
    assert_eq!(validate_chunk(&figures, &probes, &config).unwrap(), figures);
}

#[test]
fn one_bad_image_fails_the_group() {
    let config = config(&[3]);
    let files = pool(3);
    let probes = vec!["800x600".to_string(), "800x6".to_string(), "x".to_string()];
    assert!(matches!(
        validate_chunk(&files, &probes, &config),
        Err(WallSwitchError::InvalidDimension(DimensionError::DimensionFormatError { .. }))
    ));
    let too_few = answers(2, "800x600");
    assert!(matches!(
        validate_chunk(&files, &too_few, &config),
        Err(WallSwitchError::InvalidDimension(DimensionError::InvalidParse(..)))
    ));
}
