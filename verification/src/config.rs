//! The settings that govern scanning, validation and layout.

use crate::args::Arguments;
use crate::decimal::{decimal, u64_to_string};
use crate::environment::Environment;
use crate::error::{WallSwitchError, WallSwitchErrorView, WallSwitchResult};
use crate::path::{join, join_spec, with_extension, with_extension_spec};
use crate::text::{lemma_texts_push, texts};
use crate::monitors::{
    get_monitors, lemma_pictures_before_monotone, lemma_pictures_before_step, nth_monitor,
    pictures_total, Monitor,
};
use crate::orientation::Orientation;
use vstd::prelude::*;

verus! {

/// The smallest interval between two wallpapers, in seconds.
pub const MIN_INTERVAL: u64 = 5;

/// The smallest value that the lower bound on dimensions may have.
pub const MIN_DIMENSION: u64 = 10;

/// The smallest value that the lower bound on file sizes may have.
pub const MIN_SIZE: u64 = 1;

/// Configuration variables.
#[derive(Debug)]
pub struct Config {
    /// The desktop environment: gnome, xfce, openbox, ...
    pub desktop: String,
    /// The directories that hold the images.
    pub directories: Vec<String>,
    /// The file extensions of images.
    pub extensions: Vec<String>,
    /// The interval between two wallpapers, in seconds.
    pub interval: u64,
    /// The smallest side that an image may have.
    pub min_dimension: u64,
    /// The largest side that an image may have.
    pub max_dimension: u64,
    /// The smallest size that an image file may have, in bytes.
    pub min_size: u64,
    /// The largest size that an image file may have, in bytes.
    pub max_size: u64,
    /// The monitors, in the order in which they are filled.
    pub monitors: Vec<Monitor>,
    /// How the monitors stand to each other.
    pub monitor_orientation: Orientation,
    /// The path of the program `feh`.
    pub path_feh: String,
    /// The path of the program `magick`.
    pub path_magick: String,
    /// Keep the images in the order of their names.
    pub sort: bool,
    /// Show intermediate messages.
    pub verbose: bool,
    /// The path of the wallpaper that is generated.
    pub wallpaper: String,
}

/// What looking for a helper program on the machine gave.
#[derive(Debug)]
pub enum ProgramLookup {
    /// The configured path names a file: nothing was looked for.
    Configured,
    /// The configured path names no file; the program was found here.
    Found(String),
    /// The configured path names no file, and the program was not found.
    Missing,
}

impl ProgramLookup {
    /// The path to go on with, where `configured` was the one before.
    pub open spec fn resolve(self, configured: String) -> String {
        match self {
            ProgramLookup::Found(path) => path,
            _ => configured,
        }
    }
}

/// The path of the wallpaper where none is configured: a file in the home
/// directory, named like the program, with the extension `jpg`.
pub open spec fn wallpaper_path_spec(env: Environment) -> Seq<char> {
    with_extension_spec(join_spec(env.home@, env.pkg_name@), "jpg"@)
}

/// The path of the configuration file:
/// `<home>/.config/<program>/<program>.json`.
pub open spec fn config_path_spec(env: Environment) -> Seq<char> {
    with_extension_spec(
        join_spec(join_spec(join_spec(env.home@, ".config"@), env.pkg_name@), env.pkg_name@),
        "json"@,
    )
}

/// The directories that are searched for images where none is configured:
/// five below the home directory, then three of the system.
pub open spec fn directories_spec(env: Environment) -> Seq<Seq<char>> {
    seq![
        join_spec(env.home@, "Figures"@),
        join_spec(env.home@, "Images"@),
        join_spec(env.home@, "Pictures"@),
        join_spec(env.home@, "Wallpapers"@),
        join_spec(env.home@, "Imagens"@),
        "/usr/share/wallpapers"@,
        "/usr/share/backgrounds"@,
        "/tmp/teste"@,
    ]
}

/// The extensions of image files where none is configured.
pub open spec fn extensions_spec() -> Seq<Seq<char>> {
    seq!["avif"@, "jpg"@, "jpeg"@, "png"@, "svg"@, "tif"@, "webp"@]
}

/// The path of the wallpaper where none is configured.
pub fn get_wallpaper_path(env: &Environment) -> (r: String)
    ensures
        r@ == wallpaper_path_spec(*env),
{
    with_extension(join(env.get_home(), env.get_pkg_name()).as_str(), "jpg")
}

/// The path of the configuration file.
pub fn get_config_path(env: &Environment) -> (r: WallSwitchResult<String>)
    ensures
        r matches Ok(path) && path@ == config_path_spec(*env),
{
    let directory = join(join(env.get_home(), ".config").as_str(), env.get_pkg_name());
    Ok(with_extension(join(directory.as_str(), env.get_pkg_name()).as_str(), "json"))
}

fn push_text(list: &mut Vec<String>, text: String)
    ensures
        texts(final(list)@) == texts(old(list)@).push(text@),
{
    proof {
        lemma_texts_push(list@, text);
    }
    list.push(text);
}

/// The directories that are searched for images where none is configured.
pub fn get_directories(env: &Environment) -> (r: Vec<String>)
    ensures
        texts(r@) == directories_spec(*env),
{
    let home = env.get_home();
    let mut directories: Vec<String> = Vec::new();
    push_text(&mut directories, join(home, "Figures"));
    push_text(&mut directories, join(home, "Images"));
    push_text(&mut directories, join(home, "Pictures"));
    push_text(&mut directories, join(home, "Wallpapers"));
    push_text(&mut directories, join(home, "Imagens"));
    push_text(&mut directories, "/usr/share/wallpapers".to_string());
    push_text(&mut directories, "/usr/share/backgrounds".to_string());
    push_text(&mut directories, "/tmp/teste".to_string());
    assert(texts(directories@) =~= directories_spec(*env));
    directories
}

fn default_extensions() -> (r: Vec<String>)
    ensures
        texts(r@) == extensions_spec(),
{
    let mut extensions: Vec<String> = Vec::new();
    push_text(&mut extensions, "avif".to_string());
    push_text(&mut extensions, "jpg".to_string());
    push_text(&mut extensions, "jpeg".to_string());
    push_text(&mut extensions, "png".to_string());
    push_text(&mut extensions, "svg".to_string());
    push_text(&mut extensions, "tif".to_string());
    push_text(&mut extensions, "webp".to_string());
    assert(texts(extensions@) =~= extensions_spec());
    extensions
}

/// The configuration with the smallest values that it may have: an
/// interval of five seconds, images from ten pixels and one byte on, and
/// one monitor. All else is as in the default configuration.
pub fn config_boundary(env: &Environment) -> (r: Config)
    ensures
        r.is_default_but(*env, MIN_INTERVAL, MIN_DIMENSION, MIN_SIZE, seq![Monitor::initial()]),
        r.well_formed(),
{
    let mut config = Config::from_environment(env);
    config.interval = MIN_INTERVAL;
    config.min_dimension = MIN_DIMENSION;
    config.min_size = MIN_SIZE;
    let mut monitors: Vec<Monitor> = Vec::new();
    monitors.push(Monitor::default());
    config.monitors = monitors;
    assert(config.monitors@ =~= seq![Monitor::initial()]);
    config
}

/// The same monitors, each with `pictures` pictures.
fn with_pictures(monitors: Vec<Monitor>, pictures: u8) -> (r: Vec<Monitor>)
    ensures
        r@ == Seq::new(
            monitors@.len(),
            |i: int| Monitor { pictures_per_monitor: pictures, ..monitors@[i] },
        ),
{
    let mut r = monitors;
    let mut i: usize = 0;
    while i < r.len()
        invariant
            i <= r@.len(),
            r@.len() == monitors@.len(),
            forall|k: int|
                0 <= k < i ==> r@[k] == (Monitor { pictures_per_monitor: pictures, ..monitors@[k] }),
            forall|k: int| i <= k < r@.len() ==> r@[k] == monitors@[k],
        decreases r@.len() - i,
    {
        let monitor = r[i];
        r.set(i, Monitor { pictures_per_monitor: pictures, ..monitor });
        i += 1;
    }
    assert(r@ =~= Seq::new(
        monitors@.len(),
        |i: int| Monitor { pictures_per_monitor: pictures, ..monitors@[i] },
    ));
    r
}

impl Config {
    /// Every monitor shows at least one picture.
    pub open spec fn monitors_filled(self) -> bool {
        forall|i: int|
            0 <= i < self.monitors@.len() ==> (#[trigger] self.monitors@[i]).pictures_per_monitor
                >= 1
    }

    /// The first rule that the configuration breaks, as the error that
    /// reports it; `None` where it breaks none.
    pub open spec fn fault(self, feh: ProgramLookup, magick: ProgramLookup) -> Option<
        WallSwitchErrorView,
    > {
        if self.interval < MIN_INTERVAL {
            Some(
                WallSwitchErrorView::AtLeastValue {
                    arg: "--interval"@,
                    value: decimal(self.interval as nat),
                    num: MIN_INTERVAL,
                },
            )
        } else if feh is Missing {
            Some(WallSwitchErrorView::UnableToFind("feh"@))
        } else if magick is Missing {
            Some(WallSwitchErrorView::UnableToFind("magick"@))
        } else if self.min_dimension < MIN_DIMENSION {
            Some(
                WallSwitchErrorView::AtLeastValue {
                    arg: "--min_dimension"@,
                    value: decimal(self.min_dimension as nat),
                    num: MIN_DIMENSION,
                },
            )
        } else if self.min_size < MIN_SIZE {
            Some(
                WallSwitchErrorView::AtLeastValue {
                    arg: "--min_size"@,
                    value: decimal(self.min_size as nat),
                    num: MIN_SIZE,
                },
            )
        } else if self.monitors@.len() == 0 {
            Some(
                WallSwitchErrorView::AtLeastValue {
                    arg: "--interval"@,
                    value: decimal(0),
                    num: 1,
                },
            )
        } else if !self.monitors_filled() {
            Some(
                WallSwitchErrorView::AtLeastValue { arg: "--picture"@, value: decimal(0), num: 1 },
            )
        } else if self.min_dimension > self.max_dimension {
            Some(
                WallSwitchErrorView::MinMax { min: self.min_dimension, max: self.max_dimension },
            )
        } else if self.min_size > self.max_size {
            Some(WallSwitchErrorView::MinMax { min: self.min_size, max: self.max_size })
        } else {
            None
        }
    }

    /// The configuration obeys every rule: bounds are in order and at least
    /// as large as they must be, and there is a monitor, each with a picture.
    pub open spec fn well_formed(self) -> bool {
        self.fault(ProgramLookup::Configured, ProgramLookup::Configured) is None
    }

    /// Whether the configuration is the default one for the environment
    /// but for the interval, the lower bounds and the monitors given.
    pub open spec fn is_default_but(
        self,
        env: Environment,
        interval: u64,
        min_dimension: u64,
        min_size: u64,
        monitors: Seq<Monitor>,
    ) -> bool {
        &&& self.desktop@ == env.desktop@
        &&& texts(self.directories@) == directories_spec(env)
        &&& texts(self.extensions@) == extensions_spec()
        &&& self.interval == interval
        &&& self.min_dimension == min_dimension
        &&& self.max_dimension == 128_000
        &&& self.min_size == min_size
        &&& self.max_size == 1024 * 1024 * 1024
        &&& self.monitors@ == monitors
        &&& self.monitor_orientation == Orientation::Horizontal
        &&& self.path_feh@ == "/usr/bin/feh"@
        &&& self.path_magick@ == "/usr/bin/magick"@
        &&& !self.sort
        &&& !self.verbose
        &&& self.wallpaper@ == wallpaper_path_spec(env)
    }

    /// Whether the configuration is the default one for the environment:
    /// half an hour between wallpapers, images of 600 to 128000 pixels
    /// and of a kibibyte to a gibibyte, and two monitors.
    pub open spec fn is_default(self, env: Environment) -> bool {
        self.is_default_but(env, 1800, 600, 1024, seq![nth_monitor(0), nth_monitor(1)])
    }

    /// The default configuration for an environment.
    pub fn from_environment(env: &Environment) -> (r: Config)
        ensures
            r.is_default(*env),
            r.well_formed(),
    {
        let monitors = get_monitors(2);
        assert(monitors@ =~= seq![nth_monitor(0), nth_monitor(1)]);
        Config {
            desktop: env.get_desktop().to_string(),
            directories: get_directories(env),
            extensions: default_extensions(),
            interval: 30 * 60,
            min_dimension: 600,
            max_dimension: 128_000,
            min_size: 1024,
            max_size: 1024 * 1024 * 1024,
            monitors,
            monitor_orientation: Orientation::Horizontal,
            path_feh: "/usr/bin/feh".to_string(),
            path_magick: "/usr/bin/magick".to_string(),
            sort: false,
            verbose: false,
            wallpaper: get_wallpaper_path(env),
        }
    }

    /// Whether `value` lies within the bounds on dimensions.
    pub fn in_range(&self, value: u64) -> (r: bool)
        ensures
            r == (self.min_dimension <= value <= self.max_dimension),
    {
        self.min_dimension <= value && value <= self.max_dimension
    }

    /// Checks the configuration against its rules, in a fixed order, and
    /// takes over the paths of helper programs that were looked up.
    #[verifier::loop_isolation(false)]
    pub fn validate_config(self, feh: ProgramLookup, magick: ProgramLookup) -> (r:
        WallSwitchResult<Config>)
        ensures
            match r {
                Ok(config) => {
                    &&& self.fault(feh, magick) is None
                    &&& config == (Config {
                        path_feh: feh.resolve(self.path_feh),
                        path_magick: magick.resolve(self.path_magick),
                        ..self
                    })
                    &&& config.well_formed()
                },
                Err(e) => self.fault(feh, magick) == Some(e@),
            },
    {
        let mut config = self;
        if config.interval < MIN_INTERVAL {
            return Err(
                WallSwitchError::AtLeastValue {
                    arg: "--interval".to_string(),
                    value: u64_to_string(config.interval),
                    num: MIN_INTERVAL,
                },
            );
        }
        match feh {
            ProgramLookup::Configured => {},
            ProgramLookup::Found(path) => {
                config.path_feh = path;
            },
            ProgramLookup::Missing => {
                return Err(WallSwitchError::UnableToFind("feh".to_string()));
            },
        }
        match magick {
            ProgramLookup::Configured => {},
            ProgramLookup::Found(path) => {
                config.path_magick = path;
            },
            ProgramLookup::Missing => {
                return Err(WallSwitchError::UnableToFind("magick".to_string()));
            },
        }
        if config.min_dimension < MIN_DIMENSION {
            return Err(
                WallSwitchError::AtLeastValue {
                    arg: "--min_dimension".to_string(),
                    value: u64_to_string(config.min_dimension),
                    num: MIN_DIMENSION,
                },
            );
        }
        if config.min_size < MIN_SIZE {
            return Err(
                WallSwitchError::AtLeastValue {
                    arg: "--min_size".to_string(),
                    value: u64_to_string(config.min_size),
                    num: MIN_SIZE,
                },
            );
        }
        if config.monitors.len() == 0 {
            return Err(
                WallSwitchError::AtLeastValue {
                    arg: "--interval".to_string(),
                    value: u64_to_string(0),
                    num: 1,
                },
            );
        }
        let mut i: usize = 0;
        while i < config.monitors.len()
            invariant
                i <= config.monitors@.len(),
                forall|k: int| 0 <= k < i ==> (#[trigger] config.monitors@[k]).pictures_per_monitor >= 1,
            decreases config.monitors@.len() - i,
        {
            if config.monitors[i].pictures_per_monitor < 1 {
                assert(!self.monitors_filled()) by {
                    assert(self.monitors@[i as int].pictures_per_monitor < 1);
                }
                return Err(
                    WallSwitchError::AtLeastValue {
                        arg: "--picture".to_string(),
                        value: u64_to_string(config.monitors[i].pictures_per_monitor as u64),
                        num: 1,
                    },
                );
            }
            i += 1;
        }
        if config.min_dimension > config.max_dimension {
            return Err(
                WallSwitchError::MinMax { min: config.min_dimension, max: config.max_dimension },
            );
        }
        if config.min_size > config.max_size {
            return Err(WallSwitchError::MinMax { min: config.min_size, max: config.max_size });
        }
        Ok(config)
    }

    /// Whether every monitor shows at least one picture.
    pub fn monitors_are_filled(&self) -> (r: bool)
        ensures
            r == self.monitors_filled(),
    {
        let mut i: usize = 0;
        while i < self.monitors.len()
            invariant
                i <= self.monitors@.len(),
                forall|k: int|
                    0 <= k < i ==> (#[trigger] self.monitors@[k]).pictures_per_monitor >= 1,
            decreases self.monitors@.len() - i,
        {
            if self.monitors[i].pictures_per_monitor < 1 {
                assert(self.monitors@[i as int].pictures_per_monitor < 1);
                return false;
            }
            i += 1;
        }
        true
    }

    /// The number of images that one wallpaper takes, if the machine can
    /// count that far.
    pub fn checked_number_of_images(&self) -> (r: Option<usize>)
        ensures
            match r {
                Some(n) => n == pictures_total(self.monitors@),
                None => pictures_total(self.monitors@) > usize::MAX,
            },
    {
        let mut total: usize = 0;
        let mut i: usize = 0;
        assert(self.monitors@.take(0) =~= Seq::<Monitor>::empty());
        while i < self.monitors.len()
            invariant
                i <= self.monitors@.len(),
                total == pictures_total(self.monitors@.take(i as int)),
            decreases self.monitors@.len() - i,
        {
            proof {
                lemma_pictures_before_step(self.monitors@, i as int);
                lemma_pictures_before_monotone(
                    self.monitors@,
                    i + 1,
                    self.monitors@.len() as int,
                );
            }
            let pictures = self.monitors[i].pictures_per_monitor as usize;
            if total > usize::MAX - pictures {
                return None;
            }
            total = total + pictures;
            i += 1;
        }
        assert(self.monitors@.take(self.monitors@.len() as int) =~= self.monitors@);
        Some(total)
    }

    /// The number of images that one wallpaper takes: the pictures of all
    /// monitors together.
    pub fn get_number_of_images(&self) -> (r: usize)
        requires
            pictures_total(self.monitors@) <= usize::MAX,
        ensures
            r == pictures_total(self.monitors@),
    {
        let mut total: usize = 0;
        let mut i: usize = 0;
        assert(self.monitors@.take(0) =~= Seq::<Monitor>::empty());
        while i < self.monitors.len()
            invariant
                i <= self.monitors@.len(),
                total == pictures_total(self.monitors@.take(i as int)),
                pictures_total(self.monitors@) <= usize::MAX,
            decreases self.monitors@.len() - i,
        {
            proof {
                lemma_pictures_before_step(self.monitors@, i as int);
                lemma_pictures_before_monotone(
                    self.monitors@,
                    i + 1,
                    self.monitors@.len() as int,
                );
            }
            total = total + self.monitors[i].pictures_per_monitor as usize;
            i += 1;
        }
        assert(self.monitors@.take(self.monitors@.len() as int) =~= self.monitors@);
        total
    }

    /// The configuration with the values that the command line gives laid
    /// over it, and with the desktop that is running now.
    pub open spec fn with_arguments(self, args: Arguments, desktop: Seq<char>, out: Config) -> bool {
        &&& out.desktop@ == desktop
        &&& out.directories == self.directories
        &&& out.extensions == self.extensions
        &&& out.interval == args.interval.unwrap_or(self.interval)
        &&& out.min_dimension == args.min_dimension.unwrap_or(self.min_dimension)
        &&& out.max_dimension == args.max_dimension.unwrap_or(self.max_dimension)
        &&& out.min_size == args.min_size.unwrap_or(self.min_size)
        &&& out.max_size == args.max_size.unwrap_or(self.max_size)
        &&& out.monitors@ == Self::monitors_with(self.monitors@, args)
        &&& out.monitor_orientation == args.monitor_orientation.unwrap_or(self.monitor_orientation)
        &&& out.path_feh == self.path_feh
        &&& out.path_magick == self.path_magick
        &&& out.sort == (self.sort != args.sort)
        &&& out.verbose == (self.verbose != args.verbose)
        &&& out.wallpaper == self.wallpaper
    }

    /// The monitors after the command line: as many fresh ones as it asks
    /// for, or those that were there; each with the number of pictures that
    /// it asks for, if it asks for one.
    pub open spec fn monitors_with(monitors: Seq<Monitor>, args: Arguments) -> Seq<Monitor> {
        let base = match args.monitor {
            Some(number) => Seq::new(number as nat, |i: int| nth_monitor(i)),
            None => monitors,
        };
        match args.pictures_per_monitor {
            Some(pictures) => Seq::new(
                base.len(),
                |i: int| Monitor { pictures_per_monitor: pictures, ..base[i] },
            ),
            None => base,
        }
    }

    /// Lays the values given on the command line over the configuration.
    /// `desktop` is the desktop environment that is running.
    pub fn set_command_line_arguments(self, args: &Arguments, desktop: &str) -> (r:
        WallSwitchResult<Config>)
        ensures
            r matches Ok(config) && self.with_arguments(*args, desktop@, config),
    {
        let mut config = self;
        if let Some(min_dimension) = args.min_dimension {
            config.min_dimension = min_dimension;
        }
        if let Some(max_dimension) = args.max_dimension {
            config.max_dimension = max_dimension;
        }
        if let Some(min_size) = args.min_size {
            config.min_size = min_size;
        }
        if let Some(max_size) = args.max_size {
            config.max_size = max_size;
        }
        if let Some(interval) = args.interval {
            config.interval = interval;
        }
        if let Some(monitor) = args.monitor {
            config.monitors = get_monitors(monitor as usize);
            assert(config.monitors@ =~= Seq::new(monitor as nat, |i: int| nth_monitor(i)));
        }
        if let Some(orientation) = args.monitor_orientation {
            config.monitor_orientation = orientation;
        }
        if let Some(pictures_per_monitor) = args.pictures_per_monitor {
            config.monitors = with_pictures(config.monitors, pictures_per_monitor);
        }
        if args.sort {
            config.sort = !config.sort;
        }
        if args.verbose {
            config.verbose = !config.verbose;
        }
        config.desktop = desktop.to_string();
        assert(config.monitors@ =~= Self::monitors_with(self.monitors@, *args));
        Ok(config)
    }
}

} // verus!
