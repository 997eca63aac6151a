//! Selection of wallpaper images: finding image files, leaving out repeated
//! contents, validating size, dimension and name, and spreading groups of
//! images over the monitors.
//!
//! Nothing here reads a file or runs a program. The functions take what
//! was read and say what is to be done.

pub mod args;
pub mod chunks;
pub mod config;
pub mod cycle;
pub mod decimal;
pub mod dependencies;
pub mod desktops;
pub mod dimension;
pub mod environment;
pub mod error;
pub mod fileinfo;
pub mod images;
pub mod monitors;
pub mod orientation;
pub mod path;
pub mod pids;
pub mod random;
pub mod scanner;
pub mod text;
pub mod traits;

pub use crate::args::{get_formatted_args, parse_orientation, parse_value, Arguments, Flag};
pub use crate::config::{
    config_boundary, get_config_path, get_directories, get_wallpaper_path, Config, ProgramLookup,
};
pub use crate::chunks::{first_size_error, validate_chunk, validate_file};
pub use crate::cycle::{fatal_error, CycleAction, CycleEvent, Phase, SelectionCycle};
pub use crate::decimal::{parse_u32, parse_u64, u64_to_string, ParseIntError};
pub use crate::dependencies::{
    bytes_to_path, confirm_program, find_program, get_feh_path, get_magick_path, where_is,
};
pub use crate::desktops::{
    apply_xfconf, create_background_image, desktop_kind, get_partitions_iter,
    get_partitions_slice, get_xfce_monitors, probe_command, set_gnome_wallpaper,
    set_openbox_wallpaper, set_wallpaper, set_xfce_wallpaper, tile_size, xfce_monitors_command,
    CommandLine, Desktop,
};
pub use crate::dimension::{split_str, Dimension};
pub use crate::environment::Environment;
pub use crate::error::{DimensionError, WallSwitchError, WallSwitchResult};
pub use crate::fileinfo::{get_hash, ContentHasher, FileInfo, FileInfoExt, SliceDisplay};
pub use crate::images::{
    display_files, gather_files, get_images, get_images_with, identical_files, identical_report,
};
pub use crate::monitors::{get_monitors, Monitor};
pub use crate::orientation::Orientation;
pub use crate::pids::{
    bytes_to_numbers, get_pids, kill_app, kill_other_instances, text_to_numbers,
};
pub use crate::random::{
    get_random_integer, get_random_integer_v2, rand, random_integer_with, shuffle, shuffle_with,
};
pub use crate::scanner::{get_files_from_directory, get_image_entries, DirEntry};
pub use crate::traits::{Colors, Countable, IntegerIterExt, U8Extension};
