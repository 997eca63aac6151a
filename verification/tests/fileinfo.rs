use std::hash::Hasher;

use wallswitch::{
    get_hash, Config, ContentHasher, Countable, Dimension, FileInfo, FileInfoExt, IntegerIterExt,
    Monitor, Orientation, U8Extension, WallSwitchError,
};

fn config() -> Config {
    Config {
        desktop: "gnome".to_string(),
        directories: vec!["/tmp".to_string()],
        extensions: vec!["jpg".to_string(), "png".to_string()],
        interval: 1800,
        min_dimension: 600,
        max_dimension: 4000,
        min_size: 1000,
        max_size: 5000,
        monitors: vec![Monitor::default()],
        monitor_orientation: Orientation::Horizontal,
        path_feh: "/usr/bin/feh".to_string(),
        path_magick: "/usr/bin/magick".to_string(),
        sort: false,
        verbose: false,
        wallpaper: "/home/user/wallswitch.jpg".to_string(),
    }
}

fn file(path: &str, size: u64) -> FileInfo {
    FileInfo { size, path: path.to_string(), ..Default::default() }
}

#[test]
fn get_min_value_of_vec_v1() {
    let values: Vec<i32> = vec![5, 6, 8, 4, 2, 7];

    let min_value: Option<i32> = values.iter().min().copied();

    println!("values: {values:?}");
    println!("min_value: {min_value:?}");

    assert_eq!(min_value, Some(2));
}

#[test]
fn get_min_value_of_vec_v2() {
    let values: Vec<i32> = vec![5, 6, 8, 4, 2, 7];

    let min_value: i32 = values
        .iter()
        .fold(i32::MAX, |arg0: i32, other: &i32| i32::min(arg0, *other));

    println!("values: {values:?}");
    println!("min_value: {min_value}");

    assert_eq!(min_value, 2);
}

#[test]
fn integer_extrema() {
    let vector: Vec<u32> = vec![4, 3, 2, 8];
    assert_eq!(vector.integer_min(), 2);
    assert_eq!(vector.integer_max(), 8);
    let empty: Vec<u32> = vec![];
    assert_eq!(empty.integer_min(), u32::MAX);
    assert_eq!(empty.integer_max(), u32::MIN);
}

#[test]
fn counting_characters() {
    assert_eq!(0u64.count_chars(), 1);
    assert_eq!(9u64.count_chars(), 1);
    assert_eq!(10u64.count_chars(), 2);
    assert_eq!(12345usize.count_chars(), 5);
    assert_eq!(u64::MAX.count_chars(), 20);
    assert_eq!("Löwe 老虎".count_chars(), 7);
}

#[test]
fn widening_u8() {
    assert_eq!(255u8.to_usize(), 255usize);
    assert_eq!(7u8.to_u64(), 7u64);
}

#[test]
fn default_file_is_empty() {
    let file = FileInfo::default();
    assert_eq!(file.number, 0);
    assert_eq!(file.total, 0);
    assert_eq!(file.dimension, Dimension::default());
    assert_eq!(file.size, 0);
    assert_eq!(file.hash, "");
    assert_eq!(file.path, "");
}

#[test]
fn sizes_validate_batch_membership() {
    let config = config();
    let sizes = [500, 2000, 2000, 9000];
    let verdicts: Vec<bool> =
        sizes.iter().map(|size| file("/a.jpg", *size).size_is_valid(&config)).collect();
    assert_eq!(verdicts, [false, true, true, false]);
}

#[test]
fn size_bounds_are_included() {
    let config = config();
    assert!(file("/a.jpg", 1000).size_is_valid(&config));
    assert!(file("/a.jpg", 5000).size_is_valid(&config));
    assert!(!file("/a.jpg", 999).size_is_valid(&config));
    assert!(!file("/a.jpg", 5001).size_is_valid(&config));
    assert!(file("/a.jpg", 1000).size_error(&config).is_none());
    assert!(matches!(
        file("/a.jpg", 999).size_error(&config),
        Some(WallSwitchError::InvalidSize { min_size: 1000, size: 999, max_size: 5000 })
    ));
}

#[test]
fn sizes_of_a_group() {
    let config = config();
    let good = vec![file("/a.jpg", 2000), file("/b.jpg", 3000)];
    let bad = vec![file("/a.jpg", 2000), file("/b.jpg", 9000)];
    assert!(good.sizes_are_valid(&config));
    assert!(!bad.sizes_are_valid(&config));
    let none: Vec<FileInfo> = vec![];
    assert!(none.sizes_are_valid(&config));
}

#[test]
fn path_contains_a_pattern() {
    let file = file("/home/user/Pictures/löwe.jpg", 1);
    assert!(file.path_contains("Pictures"));
    assert!(file.path_contains("öwe."));
    assert!(file.path_contains(""));
    assert!(!file.path_contains("pictures"));
    assert!(!file.path_contains("/home/user/Pictures/löwe.jpg2"));
}

#[test]
fn name_of_the_wallpaper_is_reserved() {
    let config = config();
    assert!(file("/home/user/Pictures/a.jpg", 1).name_is_valid(&config));
    assert!(!file("/home/user/Pictures/wallswitch.jpg", 1).name_is_valid(&config));
    assert!(!file("wallswitch.jpg", 1).name_is_valid(&config));
    assert!(file("/home/user/wallswitch.jpg.bak", 1).name_is_valid(&config));
    match file("/other/wallswitch.jpg", 1).name_error(&config) {
        Some(WallSwitchError::InvalidFilename(name)) => assert_eq!(name, "wallswitch.jpg"),
        other => panic!("unexpected: {other:?}"),
    }
    assert!(file("/home/user/Pictures/a.jpg", 1).name_error(&config).is_none());
}

#[test]
fn update_info_takes_the_probed_dimension() {
    let mut file = file("/a.jpg", 2000);
    file.update_info("1024x768").unwrap();
    assert_eq!(file.dimension, Dimension { width: 1024, height: 768 });
    assert_eq!(file.size, 2000);
    assert_eq!(file.path, "/a.jpg");
    assert!(file.update_info("1024").is_err());
    assert!(file.update_info("0x768").is_err());
    assert_eq!(file.dimension, Dimension { width: 1024, height: 768 });
}

#[test]
fn dimension_of_a_file() {
    let config = config();
    let mut file = file("/a.jpg", 2000);
    file.dimension = Dimension { width: 1024, height: 768 };
    assert!(file.dimension_is_valid(&config));
    assert!(file.dimension_error(&config).is_none());
    file.dimension = Dimension { width: 100, height: 768 };
    assert!(!file.dimension_is_valid(&config));
    match file.dimension_error(&config) {
        Some(WallSwitchError::InvalidDimension(wallswitch::DimensionError::DimensionFormatError {
            dimension,
            log_min,
            log_max,
            path,
        })) => {
            assert_eq!(dimension, Dimension { width: 100, height: 768 });
            assert!(log_min.starts_with("Minimum dimension: "));
            assert_eq!(log_max, "");
            assert_eq!(path, "/a.jpg");
        }
        other => panic!("unexpected: {other:?}"),
    }
}

#[test]
fn extrema_of_a_list() {
    let mut files = vec![file("/a.jpg", 30), file("/b.jpg", 10), file("/c.jpg", 20)];
    files[0].dimension = Dimension { width: 300, height: 900 };
    files[1].dimension = Dimension { width: 100, height: 200 };
    files[2].dimension = Dimension { width: 1200, height: 50 };
    files.update_number();
    assert_eq!(files.get_width_min(), Some(100));
    assert_eq!(files.get_max_size(), Some(30));
    assert_eq!(files.get_max_number(), Some(3));
    assert_eq!(files.get_max_dimension(), Some(1200));
    let none: Vec<FileInfo> = vec![];
    assert_eq!(none.get_width_min(), None);
    assert_eq!(none.get_max_size(), None);
    assert_eq!(none.get_max_number(), None);
    assert_eq!(none.get_max_dimension(), None);
}

#[test]
fn numbering_counts_from_one() {
    let mut files = vec![file("/a.jpg", 1), file("/b.jpg", 2), file("/c.jpg", 3)];
    files.update_number();
    let numbers: Vec<(usize, usize)> = files.iter().map(|f| (f.number, f.total)).collect();
    assert_eq!(numbers, [(1, 3), (2, 3), (3, 3)]);
    assert_eq!(files[1].path, "/b.jpg");
}

#[test]
fn hashes_are_assigned_in_order() {
    let mut files = vec![file("/a.jpg", 1), file("/b.jpg", 2)];
    files.update_hash(vec![Ok("11".to_string()), Ok("22".to_string())]).unwrap();
    assert_eq!(files[0].hash, "11");
    assert_eq!(files[1].hash, "22");
    assert_eq!(files[1].size, 2);
    let mut none: Vec<FileInfo> = vec![];
    assert!(none.update_hash(vec![]).is_ok());
}

#[test]
fn a_file_that_could_not_be_hashed_fails_the_batch() {
    let mut files = vec![file("/a.jpg", 1), file("/b.jpg", 2), file("/c.jpg", 3)];
    files[0].hash = "old".to_string();
    let before = files.clone();
    let outcomes = vec![
        Ok("11".to_string()),
        Err("permission denied".to_string()),
        Err("no such file".to_string()),
    ];
    match files.update_hash(outcomes) {
        Err(WallSwitchError::Io(cause)) => assert_eq!(cause, "permission denied"),
        other => panic!("unexpected: {other:?}"),
    }
    assert_eq!(files, before);

    let mut unreadable = vec![file("/a.jpg", 1), file("/b.jpg", 2)];
    let outcomes = vec![Err("gone".to_string()), Err("gone".to_string())];
    let error = unreadable.update_hash(outcomes).unwrap_err();
    assert_eq!(error.to_string(), "IO error: gone");
    assert_eq!(unreadable[0].hash, "");
    assert_eq!(unreadable[1].hash, "");
}

fn std_hash(pieces: &[&[u8]]) -> String {
    let mut hasher = std::hash::DefaultHasher::new();
    for piece in pieces {
        hasher.write(piece);
    }
    hasher.finish().to_string()
}

#[test]
fn equal_content_gives_equal_hash() {
    let first = get_hash(b"some bytes and more");
    let second = get_hash(b"some bytes and more");
    let other = get_hash(b"other bytes");
    assert_eq!(first, second);
    assert_ne!(first, other);
    assert!(first.parse::<u64>().is_ok());
    assert_eq!(first, std_hash(&[b"some bytes and more"]));
    assert_eq!(get_hash(b""), std_hash(&[]));
}

#[test]
fn content_is_hashed_in_blocks_of_64_kib() {
    let content: Vec<u8> = (0..150_000u32).map(|i| (i % 251) as u8).collect();
    assert_eq!(
        get_hash(&content),
        std_hash(&[&content[..65536], &content[65536..131072], &content[131072..]])
    );
    assert_eq!(get_hash(&content[..65536]), std_hash(&[&content[..65536]]));
    assert_eq!(get_hash(&content[..65535]), std_hash(&[&content[..65535]]));
    assert_eq!(
        get_hash(&content[..65537]),
        std_hash(&[&content[..65536], &content[65536..65537]])
    );
}

#[test]
fn the_hash_does_not_depend_on_how_the_content_is_cut() {
    let content: Vec<u8> = (0..150_000u32).map(|i| (i % 241) as u8).collect();
    let whole = get_hash(&content);
    for piece in [1usize, 7, 4096, 65535, 65536, 65537, 100_000] {
        let mut hasher = ContentHasher::new();
        for part in content.chunks(piece) {
            hasher = hasher.write(part);
        }
        assert_eq!(hasher.finish(), whole, "pieces of {piece}");
    }
    let hasher = ContentHasher::new().write(b"some bytes").write(b"").write(b" and more");
    assert_eq!(hasher.finish(), get_hash(b"some bytes and more"));
    assert_eq!(ContentHasher::new().finish(), get_hash(b""));
}
