use wallswitch::{
    apply_xfconf, create_background_image, desktop_kind, get_monitors, get_partitions_iter,
    get_partitions_slice, get_xfce_monitors, probe_command, set_gnome_wallpaper,
    set_openbox_wallpaper, set_wallpaper, set_xfce_wallpaper, tile_size, xfce_monitors_command,
    Config, Desktop, Dimension, FileInfo, Monitor, Orientation,
};

fn monitor(orientation: Orientation, pictures: u8, width: u64, height: u64) -> Monitor {
    Monitor {
        picture_orientation: orientation,
        pictures_per_monitor: pictures,
        resolution: Dimension { width, height },
    }
}

fn config(desktop: &str, monitors: Vec<Monitor>) -> Config {
    Config {
        desktop: desktop.to_string(),
        directories: vec!["/pictures".to_string()],
        extensions: vec!["jpg".to_string()],
        interval: 1800,
        min_dimension: 600,
        max_dimension: 4000,
        min_size: 1000,
        max_size: 5000,
        monitors,
        monitor_orientation: Orientation::Horizontal,
        path_feh: "/usr/bin/feh".to_string(),
        path_magick: "/usr/bin/magick".to_string(),
        sort: false,
        verbose: false,
        wallpaper: "/home/user/wallswitch.jpg".to_string(),
    }
}

fn records(count: usize) -> Vec<FileInfo> {
    (0..count)
        .map(|i| FileInfo { path: format!("/r{i}.jpg"), number: i + 1, ..Default::default() })
        .collect()
}

#[test]
fn two_monitors_with_two_and_one_pictures() {
    let monitors = vec![
        monitor(Orientation::Horizontal, 2, 1920, 1080),
        monitor(Orientation::Horizontal, 1, 1920, 1080),
    ];
    let config = config("gnome", monitors);
    let chunk = records(3);
    let parts = get_partitions_slice(&chunk, &config);
    assert_eq!(parts.len(), 2);
    assert_eq!(parts[0], &chunk[0..2]);
    assert_eq!(parts[1], &chunk[2..3]);
    assert_eq!(get_partitions_iter(&chunk, &config, 0), &chunk[0..2]);
    assert_eq!(get_partitions_iter(&chunk, &config, 1), &chunk[2..3]);
}

#[test]
fn partitions_joined_give_the_group_back() {
    let monitors = vec![
        monitor(Orientation::Horizontal, 3, 1920, 1080),
        monitor(Orientation::Vertical, 1, 1920, 1080),
        monitor(Orientation::Vertical, 2, 1920, 1080),
    ];
    let config = config("gnome", monitors);
    let chunk = records(6);
    let parts = get_partitions_slice(&chunk, &config);
    let sizes: Vec<usize> = parts.iter().map(|part| part.len()).collect();
    assert_eq!(sizes, [3, 1, 2]);
    let joined: Vec<FileInfo> = parts.iter().flat_map(|part| part.to_vec()).collect();
    assert_eq!(joined, chunk);
}

#[test]
fn images_beyond_the_group_are_left_alone() {
    let config = config("gnome", vec![monitor(Orientation::Horizontal, 2, 1920, 1080)]);
    let images = records(5);
    let parts = get_partitions_slice(&images, &config);
    assert_eq!(parts.len(), 1);
    assert_eq!(parts[0], &images[0..2]);
}

#[test]
fn widths_fill_the_monitor_and_differ_by_one_at_most() {
    let monitor = monitor(Orientation::Vertical, 3, 1921, 1080);
    let widths: Vec<u64> = (0..3).map(|i| tile_size(&monitor, i).width).collect();
    assert_eq!(widths, [641, 640, 640]);
    assert_eq!(widths.iter().sum::<u64>(), 1921);
    for i in 0..3 {
        assert_eq!(tile_size(&monitor, i).height, 1080);
    }

    for (width, count) in [(1920u64, 7u8), (10, 3), (5, 5), (3, 4), (0, 2), (u64::MAX, 255), (u64::MAX, 1)] {
        let monitor = self::monitor(Orientation::Vertical, count, width, 1080);
        let widths: Vec<u64> = (0..count as usize).map(|i| tile_size(&monitor, i).width).collect();
        assert_eq!(widths.iter().map(|w| *w as u128).sum::<u128>(), width as u128);
        let smallest = widths.iter().min().unwrap();
        let largest = widths.iter().max().unwrap();
        assert!(largest - smallest <= 1);
    }
}

#[test]
fn heights_are_cut_on_a_horizontal_monitor() {
    let monitor = monitor(Orientation::Horizontal, 4, 1920, 1082);
    let sizes: Vec<(u64, u64)> = (0..4)
        .map(|i| {
            let tile = tile_size(&monitor, i);
            (tile.width, tile.height)
        })
        .collect();
    assert_eq!(sizes, [(1920, 271), (1920, 271), (1920, 270), (1920, 270)]);
}

#[test]
fn flipped_monitors_alternate() {
    let monitors = get_monitors(3);
    let orientations: Vec<Orientation> = monitors.iter().map(|m| m.picture_orientation).collect();
    assert_eq!(
        orientations,
        [Orientation::Vertical, Orientation::Horizontal, Orientation::Vertical]
    );
    for monitor in &monitors {
        assert_eq!(monitor.pictures_per_monitor, 1);
        assert_eq!(monitor.resolution, Dimension::default());
    }
    assert!(get_monitors(0).is_empty());
    assert_eq!(Monitor::default().flip().flip(), Monitor::default());
    assert_eq!(Monitor::default().picture_orientation, Orientation::Horizontal);
}

#[test]
fn compositor_arguments() {
    let monitors = vec![
        monitor(Orientation::Vertical, 2, 1921, 1080),
        monitor(Orientation::Horizontal, 1, 800, 600),
    ];
    let config = config("gnome", monitors);
    let command = create_background_image(&records(3), &config);
    assert_eq!(command.program, "/usr/bin/magick");
    assert_eq!(
        command.arguments,
        [
            "(", "-gravity", "Center",
            "(", "/r0.jpg", "-resize", "961x1080^", "-extent", "961x1080", ")",
            "(", "/r1.jpg", "-resize", "960x1080^", "-extent", "960x1080", ")",
            "-gravity", "South", "+append", ")",
            "(", "-gravity", "Center",
            "(", "/r2.jpg", "-resize", "800x600^", "-extent", "800x600", ")",
            "-gravity", "South", "-append", ")",
            "+append", "/home/user/wallswitch.jpg",
        ]
    );
}

#[test]
fn monitors_stacked_are_appended_downwards() {
    let mut config = config("gnome", vec![monitor(Orientation::Horizontal, 1, 800, 600)]);
    config.monitor_orientation = Orientation::Vertical;
    let command = create_background_image(&records(1), &config);
    let count = command.arguments.len();
    assert_eq!(command.arguments[count - 2], "-append");
}

#[test]
fn gnome_commands() {
    let config = config("pop:gnome", vec![monitor(Orientation::Horizontal, 1, 800, 600)]);
    let commands = set_gnome_wallpaper(&records(1), &config);
    assert_eq!(commands.len(), 4);
    assert_eq!(commands[0].program, "/usr/bin/magick");
    for command in &commands[1..] {
        assert_eq!(command.program, "gsettings");
    }
    assert_eq!(
        commands[1].arguments,
        ["set", "org.gnome.desktop.background", "picture-uri", "/home/user/wallswitch.jpg"]
    );
    assert_eq!(
        commands[2].arguments,
        ["set", "org.gnome.desktop.background", "picture-uri-dark", "/home/user/wallswitch.jpg"]
    );
    assert_eq!(
        commands[3].arguments,
        ["set", "org.gnome.desktop.background", "picture-options", "spanned"]
    );
}

#[test]
fn openbox_command() {
    let config = config("openbox", vec![]);
    let command = set_openbox_wallpaper(&records(2), &config);
    assert_eq!(command.program, "/usr/bin/feh");
    assert_eq!(command.arguments, ["--bg-fill", "/r0.jpg", "--bg-fill", "/r1.jpg"]);
}

#[test]
fn xfce_commands() {
    let query = xfce_monitors_command();
    assert_eq!(query.program, "xfconf-query");
    assert_eq!(
        query.arguments,
        ["--channel", "xfce4-desktop", "--property", "/backdrop", "--list"]
    );

    let listing = "\n/backdrop/screen0/monitorDP-0/workspace0/color-style\n\
                   /backdrop/screen0/monitorDP-0/workspace0/last-image\n\
                   /backdrop/screen0/monitorDP-0/workspace1/last-image\n\
                   /backdrop/screen0/monitorDP-2/workspace0/last-image /backdrop/screen1/x\n";
    let monitors = get_xfce_monitors(listing);
    assert_eq!(
        monitors,
        [
            "/backdrop/screen0/monitorDP-0/workspace0/last-image",
            "/backdrop/screen0/monitorDP-2/workspace0/last-image",
        ]
    );

    let command = apply_xfconf("/r0.jpg", &monitors[0]);
    assert_eq!(command.program, "xfconf-query");
    assert_eq!(
        command.arguments,
        [
            "--channel",
            "xfce4-desktop",
            "--property",
            "/backdrop/screen0/monitorDP-0/workspace0/last-image",
            "--set",
            "/r0.jpg",
        ]
    );

    let commands = set_xfce_wallpaper(&records(3), &monitors);
    assert_eq!(commands.len(), 2);
    assert_eq!(commands[1].arguments[3], monitors[1]);
    assert_eq!(commands[1].arguments[5], "/r1.jpg");
    assert_eq!(set_xfce_wallpaper(&records(1), &monitors).len(), 1);
}

#[test]
fn the_desktop_decides_the_commands() {
    let monitors = vec![monitor(Orientation::Horizontal, 1, 800, 600)];
    assert_eq!(desktop_kind(&config("ubuntu:gnome", monitors.clone())), Desktop::Gnome);
    assert_eq!(desktop_kind(&config("xfce", monitors.clone())), Desktop::Xfce);
    assert_eq!(desktop_kind(&config("openbox", monitors.clone())), Desktop::Openbox);
    assert_eq!(desktop_kind(&config("GNOME", monitors.clone())), Desktop::Openbox);
    assert_eq!(desktop_kind(&config("gnome-xfce", monitors.clone())), Desktop::Gnome);

    let properties = vec!["/backdrop/screen0/monitor0/workspace0/last-image".to_string()];
    let images = records(1);
    assert_eq!(set_wallpaper(&images, &config("gnome", monitors.clone()), &properties).len(), 4);
    let xfce = set_wallpaper(&images, &config("xfce", monitors.clone()), &properties);
    assert_eq!(xfce.len(), 1);
    assert_eq!(xfce[0].program, "xfconf-query");
    let openbox = set_wallpaper(&images, &config("i3", monitors), &properties);
    assert_eq!(openbox.len(), 1);
    assert_eq!(openbox[0].program, "/usr/bin/feh");
}

#[test]
fn probe_asks_for_width_and_height() {
    let command = probe_command("/r0.jpg");
    assert_eq!(command.program, "identify");
    assert_eq!(command.arguments, ["-format", "%wx%h", "/r0.jpg"]);
}
