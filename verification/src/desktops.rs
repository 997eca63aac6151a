//! How a group of images is spread over the monitors, and the commands
//! that put it on the desktop.

use crate::config::Config;
use crate::decimal::{decimal, u64_to_string};
use crate::dimension::Dimension;
use crate::fileinfo::FileInfo;
use crate::monitors::{
    lemma_pictures_before_monotone, lemma_pictures_before_step, pictures_before, pictures_total,
    Monitor,
};
use crate::orientation::Orientation;
use crate::text::{
    contains, contains_spec, lemma_texts_push, split, split_spec, texts, trim, trim_spec,
};
use vstd::arithmetic::div_mod::lemma_fundamental_div_mod;
use vstd::prelude::*;
use vstd::slice::slice_subrange;
use vstd::string::StringExecFns;

verus! {

/// The images of the `index`-th monitor: those that follow the images of
/// the monitors before it, as many as the monitor shows pictures.
pub open spec fn partition(images: Seq<FileInfo>, monitors: Seq<Monitor>, index: int) -> Seq<
    FileInfo,
> {
    images.subrange(part_start(monitors, index), part_end(monitors, index))
}

/// Where the images of the `index`-th monitor begin in the group.
pub open spec fn part_start(monitors: Seq<Monitor>, index: int) -> int {
    pictures_before(monitors, index) as int
}

/// Where the images of the `index`-th monitor end in the group.
pub open spec fn part_end(monitors: Seq<Monitor>, index: int) -> int {
    pictures_before(monitors, index + 1) as int
}

/// The images of every monitor, in the order of the monitors.
pub open spec fn partitions(images: Seq<FileInfo>, monitors: Seq<Monitor>) -> Seq<Seq<FileInfo>> {
    Seq::new(monitors.len(), |i: int| partition(images, monitors, i))
}

/// The first `count` of the parts, one after the other.
pub open spec fn joined(parts: Seq<Seq<FileInfo>>, count: int) -> Seq<FileInfo>
    decreases count,
{
    if count <= 0 {
        Seq::<FileInfo>::empty()
    } else {
        joined(parts, count - 1) + parts[count - 1]
    }
}

proof fn lemma_joined_partitions(images: Seq<FileInfo>, monitors: Seq<Monitor>, count: int)
    requires
        0 <= count <= monitors.len(),
        pictures_total(monitors) <= images.len(),
    ensures
        joined(partitions(images, monitors), count) == images.take(
            pictures_before(monitors, count) as int,
        ),
    decreases count,
{
    if count > 0 {
        lemma_joined_partitions(images, monitors, count - 1);
        lemma_pictures_before_step(monitors, count - 1);
        lemma_pictures_before_monotone(monitors, count, monitors.len() as int);
        lemma_pictures_before_step(monitors, monitors.len() - 1);
        assert(joined(partitions(images, monitors), count) =~= images.take(
            pictures_before(monitors, count) as int,
        ));
    } else {
        lemma_pictures_before_monotone(monitors, 0, 0);
        assert(monitors.take(0) =~= Seq::<Monitor>::empty());
        assert(images.take(0) =~= Seq::<FileInfo>::empty());
    }
}

/// Partitioning loses nothing and assigns nothing twice: the images of all
/// monitors, joined in the order of the monitors, are the group that was
/// partitioned, and each monitor's images end where the next monitor's begin.
pub proof fn lemma_partitions_cover(images: Seq<FileInfo>, monitors: Seq<Monitor>)
    requires
        images.len() == pictures_total(monitors),
    ensures
        joined(partitions(images, monitors), monitors.len() as int) == images,
        forall|i: int|
            0 <= i < monitors.len() ==> (#[trigger] partition(images, monitors, i)).len()
                == monitors[i].pictures_per_monitor,
        forall|i: int, j: int|
            0 <= i < j < monitors.len() ==> #[trigger] part_end(monitors, i) <= #[trigger] part_start(
                monitors,
                j,
            ),
{
    lemma_joined_partitions(images, monitors, monitors.len() as int);
    assert(monitors.take(monitors.len() as int) =~= monitors);
    assert(images.take(images.len() as int) =~= images);
    assert forall|i: int| 0 <= i < monitors.len() implies (#[trigger] partition(
        images,
        monitors,
        i,
    )).len() == monitors[i].pictures_per_monitor by {
        lemma_pictures_before_step(monitors, i);
        lemma_pictures_before_monotone(monitors, i + 1, monitors.len() as int);
    }
    assert forall|i: int, j: int| 0 <= i < j < monitors.len() implies #[trigger] part_end(
        monitors,
        i,
    ) <= #[trigger] part_start(monitors, j) by {
        lemma_pictures_before_monotone(monitors, i + 1, j);
    }
}

/// Cuts a group of images into one slice for each monitor, in the order of
/// the monitors.
pub fn get_partitions_slice<'a>(images: &'a [FileInfo], config: &'a Config) -> (r: Vec<
    &'a [FileInfo],
>)
    requires
        pictures_total(config.monitors@) <= images@.len(),
    ensures
        r@.len() == config.monitors@.len(),
        forall|i: int|
            0 <= i < r@.len() ==> (#[trigger] r@[i])@ == partition(images@, config.monitors@, i),
{
    let ghost monitors = config.monitors@;
    let mut parts: Vec<&'a [FileInfo]> = Vec::new();
    let mut rest: &'a [FileInfo] = images;
    let mut index: usize = 0;
    proof {
        assert(monitors.take(0) =~= Seq::<Monitor>::empty());
        assert(images@.skip(0) =~= images@);
    }
    while index < config.monitors.len()
        invariant
            index <= monitors.len(),
            monitors == config.monitors@,
            pictures_total(monitors) <= images@.len(),
            parts@.len() == index,
            rest@ == images@.skip(pictures_before(monitors, index as int) as int),
            pictures_before(monitors, index as int) <= images@.len(),
            forall|i: int| 0 <= i < index ==> (#[trigger] parts@[i])@ == partition(images@, monitors, i),
        decreases monitors.len() - index,
    {
        proof {
            lemma_pictures_before_step(monitors, index as int);
            lemma_pictures_before_monotone(monitors, index + 1, monitors.len() as int);
            lemma_pictures_before_step(monitors, monitors.len() - 1);
        }
        let (head, tail) = rest.split_at(config.monitors[index].pictures_per_monitor as usize);
        proof {
            let from = pictures_before(monitors, index as int) as int;
            let to = pictures_before(monitors, index + 1) as int;
            assert(head@ =~= images@.subrange(from, to));
            assert(tail@ =~= images@.skip(to));
        }
        rest = tail;
        parts.push(head);
        index += 1;
    }
    parts
}

/// The slice of a group of images that goes to the `index`-th monitor.
pub fn get_partitions_iter<'a>(images: &'a [FileInfo], config: &'a Config, index: usize) -> (r:
    &'a [FileInfo])
    requires
        pictures_total(config.monitors@) <= images@.len(),
        index < config.monitors@.len(),
    ensures
        r@ == partition(images@, config.monitors@, index as int),
{
    let ghost monitors = config.monitors@;
    let length: usize = images.len();
    let mut start: usize = 0;
    let mut i: usize = 0;
    proof {
        assert(monitors.take(0) =~= Seq::<Monitor>::empty());
    }
    while i < index
        invariant
            i <= index < monitors.len(),
            monitors == config.monitors@,
            pictures_total(monitors) <= length,
            start == pictures_before(monitors, i as int),
        decreases index - i,
    {
        proof {
            lemma_pictures_before_step(monitors, i as int);
            lemma_pictures_before_monotone(monitors, i + 1, monitors.len() as int);
            lemma_pictures_before_step(monitors, monitors.len() - 1);
        }
        start = start + config.monitors[i].pictures_per_monitor as usize;
        i += 1;
    }
    proof {
        lemma_pictures_before_step(monitors, index as int);
        lemma_pictures_before_monotone(monitors, index + 1, monitors.len() as int);
        lemma_pictures_before_step(monitors, monitors.len() - 1);
    }
    let end: usize = start + config.monitors[index].pictures_per_monitor as usize;
    slice_subrange(images, start, end)
}

/// The length of the `index`-th of `count` stretches that a line of
/// `total` pixels is cut into: the stretches are equal but that the first
/// `total % count` of them are one pixel longer.
pub open spec fn stretch(total: u64, count: u8, index: int) -> int {
    if index < total % (count as u64) {
        total / (count as u64) + 1
    } else {
        (total / (count as u64)) as int
    }
}

/// The first `n` stretches together.
pub open spec fn stretches_sum(total: u64, count: u8, n: int) -> int
    decreases n,
{
    if n <= 0 {
        0
    } else {
        stretches_sum(total, count, n - 1) + stretch(total, count, n - 1)
    }
}

proof fn lemma_stretches_sum(total: u64, count: u8, n: int)
    requires
        count >= 1,
        0 <= n <= count,
    ensures
        stretches_sum(total, count, n) == n * (total / (count as u64)) + if n < total % (
        count as u64) {
            n
        } else {
            (total % (count as u64)) as int
        },
    decreases n,
{
    if n > 0 {
        lemma_stretches_sum(total, count, n - 1);
        let q = (total / (count as u64)) as int;
        assert(n * q == (n - 1) * q + q) by (nonlinear_arith);
    } else {
        assert(0 * (total / (count as u64)) == 0);
    }
}

/// The stretches fill the line exactly, and no two of them differ by more
/// than one pixel.
pub proof fn lemma_stretches_fill(total: u64, count: u8)
    requires
        count >= 1,
    ensures
        stretches_sum(total, count, count as int) == total,
        forall|i: int, j: int|
            0 <= i < count && 0 <= j < count ==> stretch(total, count, i) - stretch(total, count, j)
                <= 1,
        forall|i: int| 0 <= i < count ==> 0 <= #[trigger] stretch(total, count, i) <= total,
{
    lemma_stretches_sum(total, count, count as int);
    lemma_fundamental_div_mod(total as int, count as int);
    let q = (total / (count as u64)) as int;
    let k = count as int;
    let rest = (total % (count as u64)) as int;
    assert(k * q == q * k) by (nonlinear_arith);
    assert(rest > 0 ==> q + 1 <= k * q + rest) by (nonlinear_arith)
        requires
            k >= 1,
            q >= 0,
    ;
    assert(q <= k * q + rest) by (nonlinear_arith)
        requires
            k >= 1,
            q >= 0,
            rest >= 0,
    ;
}

/// The size of the `index`-th picture on a monitor. A monitor that joins
/// its pictures vertically cuts its width into stretches, one that joins
/// them horizontally its height.
pub open spec fn tile(monitor: Monitor, index: int) -> Dimension {
    match monitor.picture_orientation {
        Orientation::Horizontal => Dimension {
            width: monitor.resolution.width,
            height: stretch(monitor.resolution.height, monitor.pictures_per_monitor, index) as u64,
        },
        Orientation::Vertical => Dimension {
            width: stretch(monitor.resolution.width, monitor.pictures_per_monitor, index) as u64,
            height: monitor.resolution.height,
        },
    }
}

/// The widths of the first `n` pictures of a monitor together.
pub open spec fn tiles_width(monitor: Monitor, n: int) -> int
    decreases n,
{
    if n <= 0 {
        0
    } else {
        tiles_width(monitor, n - 1) + tile(monitor, n - 1).width
    }
}

/// The heights of the first `n` pictures of a monitor together.
pub open spec fn tiles_height(monitor: Monitor, n: int) -> int
    decreases n,
{
    if n <= 0 {
        0
    } else {
        tiles_height(monitor, n - 1) + tile(monitor, n - 1).height
    }
}

proof fn lemma_tiles_are_stretches(monitor: Monitor, n: int)
    requires
        monitor.pictures_per_monitor >= 1,
        0 <= n <= monitor.pictures_per_monitor,
    ensures
        monitor.picture_orientation == Orientation::Vertical ==> tiles_width(monitor, n)
            == stretches_sum(monitor.resolution.width, monitor.pictures_per_monitor, n),
        monitor.picture_orientation == Orientation::Horizontal ==> tiles_height(monitor, n)
            == stretches_sum(monitor.resolution.height, monitor.pictures_per_monitor, n),
    decreases n,
{
    if n > 0 {
        lemma_tiles_are_stretches(monitor, n - 1);
        lemma_stretches_fill(monitor.resolution.width, monitor.pictures_per_monitor);
        lemma_stretches_fill(monitor.resolution.height, monitor.pictures_per_monitor);
    }
}

/// On a monitor that is cut along its width, the widths of the pictures add
/// up to the width of the monitor and differ by one pixel at most; every
/// picture has the monitor's height. On a monitor that is cut along its
/// height the same holds with width and height exchanged.
pub proof fn lemma_tiles_fill_monitor(monitor: Monitor)
    requires
        monitor.pictures_per_monitor >= 1,
    ensures
        monitor.picture_orientation == Orientation::Vertical ==> {
            &&& tiles_width(monitor, monitor.pictures_per_monitor as int)
                == monitor.resolution.width
            &&& forall|i: int, j: int|
                0 <= i < monitor.pictures_per_monitor && 0 <= j < monitor.pictures_per_monitor
                    ==> tile(monitor, i).width - tile(monitor, j).width <= 1
            &&& forall|i: int| #[trigger] tile(monitor, i).height == monitor.resolution.height
        },
        monitor.picture_orientation == Orientation::Horizontal ==> {
            &&& tiles_height(monitor, monitor.pictures_per_monitor as int)
                == monitor.resolution.height
            &&& forall|i: int, j: int|
                0 <= i < monitor.pictures_per_monitor && 0 <= j < monitor.pictures_per_monitor
                    ==> tile(monitor, i).height - tile(monitor, j).height <= 1
            &&& forall|i: int| #[trigger] tile(monitor, i).width == monitor.resolution.width
        },
{
    lemma_tiles_are_stretches(monitor, monitor.pictures_per_monitor as int);
    lemma_stretches_fill(monitor.resolution.width, monitor.pictures_per_monitor);
    lemma_stretches_fill(monitor.resolution.height, monitor.pictures_per_monitor);
}

/// The size of the `index`-th picture on a monitor.
pub fn tile_size(monitor: &Monitor, index: usize) -> (r: Dimension)
    requires
        monitor.pictures_per_monitor >= 1,
    ensures
        r == tile(*monitor, index as int),
{
    let count: u64 = monitor.pictures_per_monitor as u64;
    let width = monitor.resolution.width;
    let height = monitor.resolution.height;
    proof {
        lemma_fundamental_div_mod(width as int, count as int);
        lemma_fundamental_div_mod(height as int, count as int);
        assert(width % count > 0 ==> width / count < u64::MAX) by (nonlinear_arith)
            requires
                count >= 1,
                width == count * (width / count) + (width % count),
                width / count >= 0,
                width <= u64::MAX,
        ;
        assert(height % count > 0 ==> height / count < u64::MAX) by (nonlinear_arith)
            requires
                count >= 1,
                height == count * (height / count) + (height % count),
                height / count >= 0,
                height <= u64::MAX,
        ;
    }
    match monitor.picture_orientation {
        Orientation::Horizontal => {
            let extra: u64 = if (index as u64) < height % count {
                1
            } else {
                0
            };
            Dimension { width, height: height / count + extra }
        },
        Orientation::Vertical => {
            let extra: u64 = if (index as u64) < width % count {
                1
            } else {
                0
            };
            Dimension { width: width / count + extra, height }
        },
    }
}

/// One call of a program: its name or path, and its arguments.
#[derive(Debug)]
pub struct CommandLine {
    pub program: String,
    pub arguments: Vec<String>,
}

/// A [`CommandLine`] with its texts as character sequences.
pub struct CommandLineView {
    pub program: Seq<char>,
    pub arguments: Seq<Seq<char>>,
}

impl View for CommandLine {
    type V = CommandLineView;

    open spec fn view(&self) -> CommandLineView {
        CommandLineView { program: self.program@, arguments: texts(self.arguments@) }
    }
}

/// The views of a list of commands.
pub open spec fn command_views(commands: Seq<CommandLine>) -> Seq<CommandLineView> {
    Seq::new(commands.len(), |i: int| commands[i]@)
}

/// A size as the compositor reads it: `<width>x<height>`.
pub open spec fn size_text(size: Dimension) -> Seq<char> {
    decimal(size.width as nat) + "x"@ + decimal(size.height as nat)
}

/// The arguments that bring one image to the size of its place: it is
/// resized to cover the place, then cut to it.
pub open spec fn picture_args(path: Seq<char>, size: Dimension) -> Seq<Seq<char>> {
    seq!["("@, path, "-resize"@, size_text(size) + "^"@, "-extent"@, size_text(size), ")"@]
}

/// The arguments for the first `n` images of a monitor.
pub open spec fn pictures_args(part: Seq<FileInfo>, monitor: Monitor, n: int) -> Seq<Seq<char>>
    decreases n,
{
    if n <= 0 {
        Seq::<Seq<char>>::empty()
    } else {
        pictures_args(part, monitor, n - 1) + picture_args(part[n - 1].path@, tile(monitor, n - 1))
    }
}

/// The operator that joins the pictures of one monitor.
pub open spec fn pictures_join(orientation: Orientation) -> Seq<char> {
    match orientation {
        Orientation::Horizontal => "-append"@,
        Orientation::Vertical => "+append"@,
    }
}

/// The operator that joins the monitors.
pub open spec fn monitors_join(orientation: Orientation) -> Seq<char> {
    match orientation {
        Orientation::Horizontal => "+append"@,
        Orientation::Vertical => "-append"@,
    }
}

/// The arguments that compose the images `part` of one monitor.
pub open spec fn monitor_args(part: Seq<FileInfo>, monitor: Monitor) -> Seq<Seq<char>> {
    seq!["("@, "-gravity"@, "Center"@] + pictures_args(part, monitor, part.len() as int) + seq![
        "-gravity"@,
        "South"@,
        pictures_join(monitor.picture_orientation),
        ")"@,
    ]
}

/// The arguments for the first `m` monitors.
pub open spec fn monitors_args(images: Seq<FileInfo>, monitors: Seq<Monitor>, m: int) -> Seq<
    Seq<char>,
>
    decreases m,
{
    if m <= 0 {
        Seq::<Seq<char>>::empty()
    } else {
        monitors_args(images, monitors, m - 1) + monitor_args(
            partition(images, monitors, m - 1),
            monitors[m - 1],
        )
    }
}

/// The arguments with which the compositor makes one wallpaper of a group
/// of images: the composition of each monitor, the operator that joins the
/// monitors, and the path of the wallpaper.
pub open spec fn magick_args(images: Seq<FileInfo>, config: Config) -> Seq<Seq<char>> {
    monitors_args(images, config.monitors@, config.monitors@.len() as int) + seq![
        monitors_join(config.monitor_orientation),
        config.wallpaper@,
    ]
}

fn push_arg(args: &mut Vec<String>, text: &str)
    ensures
        texts(final(args)@) == texts(old(args)@).push(text@),
{
    let s = text.to_string();
    proof {
        lemma_texts_push(args@, s);
    }
    args.push(s);
}

fn size_string(size: Dimension) -> (r: String)
    ensures
        r@ == size_text(size),
{
    let mut r = u64_to_string(size.width);
    r.append("x");
    r.append(u64_to_string(size.height).as_str());
    r
}

fn push_picture(args: &mut Vec<String>, image: &FileInfo, size: Dimension)
    ensures
        texts(final(args)@) == texts(old(args)@) + picture_args(image.path@, size),
{
    let extent = size_string(size);
    let mut resize = size_string(size);
    resize.append("^");
    push_arg(args, "(");
    push_arg(args, image.path.as_str());
    push_arg(args, "-resize");
    push_arg(args, resize.as_str());
    push_arg(args, "-extent");
    push_arg(args, extent.as_str());
    push_arg(args, ")");
    assert(texts(args@) =~= texts(old(args)@) + picture_args(image.path@, size));
}

fn push_monitor(args: &mut Vec<String>, part: &[FileInfo], monitor: &Monitor)
    requires
        monitor.pictures_per_monitor >= 1,
    ensures
        texts(final(args)@) == texts(old(args)@) + monitor_args(part@, *monitor),
{
    push_arg(args, "(");
    push_arg(args, "-gravity");
    push_arg(args, "Center");
    let ghost base = texts(args@);
    let mut j: usize = 0;
    assert(base + pictures_args(part@, *monitor, 0) =~= base);
    while j < part.len()
        invariant
            j <= part@.len(),
            monitor.pictures_per_monitor >= 1,
            texts(args@) == base + pictures_args(part@, *monitor, j as int),
        decreases part@.len() - j,
    {
        let size = tile_size(monitor, j);
        push_picture(args, &part[j], size);
        j += 1;
        assert(texts(args@) =~= base + pictures_args(part@, *monitor, j as int));
    }
    push_arg(args, "-gravity");
    push_arg(args, "South");
    match monitor.picture_orientation {
        Orientation::Horizontal => push_arg(args, "-append"),
        Orientation::Vertical => push_arg(args, "+append"),
    }
    push_arg(args, ")");
    assert(texts(args@) =~= texts(old(args)@) + monitor_args(part@, *monitor));
}

/// The call of the compositor that makes one wallpaper of a group of
/// images: each monitor gets its images, each image its place.
pub fn create_background_image(images: &[FileInfo], config: &Config) -> (r: CommandLine)
    requires
        config.monitors_filled(),
        pictures_total(config.monitors@) <= images@.len(),
    ensures
        r@ == (CommandLineView {
            program: config.path_magick@,
            arguments: magick_args(images@, *config),
        }),
{
    let parts = get_partitions_slice(images, config);
    let mut args: Vec<String> = Vec::new();
    let mut m: usize = 0;
    assert(texts(args@) =~= monitors_args(images@, config.monitors@, 0));
    while m < config.monitors.len()
        invariant
            m <= config.monitors@.len(),
            config.monitors_filled(),
            parts@.len() == config.monitors@.len(),
            forall|i: int|
                0 <= i < parts@.len() ==> (#[trigger] parts@[i])@ == partition(
                    images@,
                    config.monitors@,
                    i,
                ),
            texts(args@) == monitors_args(images@, config.monitors@, m as int),
        decreases config.monitors@.len() - m,
    {
        let monitor = config.monitors[m];
        assert(config.monitors@[m as int].pictures_per_monitor >= 1);
        push_monitor(&mut args, parts[m], &monitor);
        m += 1;
    }
    match config.monitor_orientation {
        Orientation::Horizontal => push_arg(&mut args, "+append"),
        Orientation::Vertical => push_arg(&mut args, "-append"),
    }
    push_arg(&mut args, config.wallpaper.as_str());
    assert(texts(args@) =~= magick_args(images@, *config));
    CommandLine { program: config.path_magick.clone(), arguments: args }
}

/// The command that asks for width and height of an image; it answers
/// with a text of the form `<width>x<height>`.
pub open spec fn probe_command_spec(path: Seq<char>) -> CommandLineView {
    CommandLineView { program: "identify"@, arguments: seq!["-format"@, "%wx%h"@, path] }
}

/// The command that asks for width and height of an image.
pub fn probe_command(path: &str) -> (r: CommandLine)
    ensures
        r@ == probe_command_spec(path@),
{
    let mut args: Vec<String> = Vec::new();
    push_arg(&mut args, "-format");
    push_arg(&mut args, "%wx%h");
    push_arg(&mut args, path);
    assert(texts(args@) =~= seq!["-format"@, "%wx%h"@, path@]);
    CommandLine { program: "identify".to_string(), arguments: args }
}

/// The command that sets one value of the background of a Gnome desktop.
pub open spec fn gsettings_command(key: Seq<char>, value: Seq<char>) -> CommandLineView {
    CommandLineView {
        program: "gsettings"@,
        arguments: seq!["set"@, "org.gnome.desktop.background"@, key, value],
    }
}

fn gsettings(key: &str, value: &str) -> (r: CommandLine)
    ensures
        r@ == gsettings_command(key@, value@),
{
    let mut args: Vec<String> = Vec::new();
    push_arg(&mut args, "set");
    push_arg(&mut args, "org.gnome.desktop.background");
    push_arg(&mut args, key);
    push_arg(&mut args, value);
    assert(texts(args@) =~= seq!["set"@, "org.gnome.desktop.background"@, key@, value@]);
    CommandLine { program: "gsettings".to_string(), arguments: args }
}

/// The commands that put a group of images on a Gnome desktop: the
/// wallpaper is composed, set for the light and for the dark style, and
/// spanned over the monitors.
pub open spec fn gnome_commands(images: Seq<FileInfo>, config: Config) -> Seq<CommandLineView> {
    seq![
        CommandLineView { program: config.path_magick@, arguments: magick_args(images, config) },
        gsettings_command("picture-uri"@, config.wallpaper@),
        gsettings_command("picture-uri-dark"@, config.wallpaper@),
        gsettings_command("picture-options"@, "spanned"@),
    ]
}

/// The commands that put a group of images on a Gnome desktop.
pub fn set_gnome_wallpaper(images: &[FileInfo], config: &Config) -> (r: Vec<CommandLine>)
    requires
        config.monitors_filled(),
        pictures_total(config.monitors@) <= images@.len(),
    ensures
        command_views(r@) == gnome_commands(images@, *config),
{
    let mut commands: Vec<CommandLine> = Vec::new();
    commands.push(create_background_image(images, config));
    commands.push(gsettings("picture-uri", config.wallpaper.as_str()));
    commands.push(gsettings("picture-uri-dark", config.wallpaper.as_str()));
    commands.push(gsettings("picture-options", "spanned"));
    assert(command_views(commands@) =~= gnome_commands(images@, *config));
    commands
}

/// The arguments that show the first `n` images with `feh`.
pub open spec fn feh_args(images: Seq<FileInfo>, n: int) -> Seq<Seq<char>>
    decreases n,
{
    if n <= 0 {
        Seq::<Seq<char>>::empty()
    } else {
        feh_args(images, n - 1) + seq!["--bg-fill"@, images[n - 1].path@]
    }
}

/// The command that puts a group of images, one for each monitor, on an
/// Openbox desktop.
pub fn set_openbox_wallpaper(images: &[FileInfo], config: &Config) -> (r: CommandLine)
    ensures
        r@ == (CommandLineView {
            program: config.path_feh@,
            arguments: feh_args(images@, images@.len() as int),
        }),
{
    let mut args: Vec<String> = Vec::new();
    let mut n: usize = 0;
    assert(texts(args@) =~= feh_args(images@, 0));
    while n < images.len()
        invariant
            n <= images@.len(),
            texts(args@) == feh_args(images@, n as int),
        decreases images@.len() - n,
    {
        push_arg(&mut args, "--bg-fill");
        push_arg(&mut args, images[n].path.as_str());
        n += 1;
        assert(texts(args@) =~= feh_args(images@, n as int));
    }
    CommandLine { program: config.path_feh.clone(), arguments: args }
}

/// The command that sets the image of one monitor of an Xfce desktop.
pub open spec fn xfconf_command(path: Seq<char>, monitor: Seq<char>) -> CommandLineView {
    CommandLineView {
        program: "xfconf-query"@,
        arguments: seq!["--channel"@, "xfce4-desktop"@, "--property"@, monitor, "--set"@, path],
    }
}

/// The command that sets the image of one monitor of an Xfce desktop.
pub fn apply_xfconf(path: &str, monitor: &str) -> (r: CommandLine)
    ensures
        r@ == xfconf_command(path@, monitor@),
{
    let mut args: Vec<String> = Vec::new();
    push_arg(&mut args, "--channel");
    push_arg(&mut args, "xfce4-desktop");
    push_arg(&mut args, "--property");
    push_arg(&mut args, monitor);
    push_arg(&mut args, "--set");
    push_arg(&mut args, path);
    assert(texts(args@) =~= seq![
        "--channel"@,
        "xfce4-desktop"@,
        "--property"@,
        monitor@,
        "--set"@,
        path@,
    ]);
    CommandLine { program: "xfconf-query".to_string(), arguments: args }
}

/// The command that lists the properties of an Xfce desktop.
pub fn xfce_monitors_command() -> (r: CommandLine)
    ensures
        r@ == (CommandLineView {
            program: "xfconf-query"@,
            arguments: seq![
                "--channel"@,
                "xfce4-desktop"@,
                "--property"@,
                "/backdrop"@,
                "--list"@,
            ],
        }),
{
    let mut args: Vec<String> = Vec::new();
    push_arg(&mut args, "--channel");
    push_arg(&mut args, "xfce4-desktop");
    push_arg(&mut args, "--property");
    push_arg(&mut args, "/backdrop");
    push_arg(&mut args, "--list");
    assert(texts(args@) =~= seq![
        "--channel"@,
        "xfce4-desktop"@,
        "--property"@,
        "/backdrop"@,
        "--list"@,
    ]);
    CommandLine { program: "xfconf-query".to_string(), arguments: args }
}

/// Whether a property of an Xfce desktop is the image of a monitor on the
/// first screen and workspace.
pub open spec fn is_backdrop_property(property: Seq<char>) -> bool {
    &&& contains_spec(property, "screen0"@)
    &&& contains_spec(property, "workspace0"@)
    &&& contains_spec(property, "last-image"@)
}

/// The properties of an Xfce desktop that are images of monitors, among
/// those that the listing command printed.
pub fn get_xfce_monitors(stdout: &str) -> (r: Vec<String>)
    ensures
        texts(r@) == split_spec(trim_spec(stdout@), '\n', ' ').filter(
            |property: Seq<char>| is_backdrop_property(property),
        ),
{
    let trimmed = trim(stdout);
    let tokens = split(trimmed.as_str(), '\n', ' ');
    let ghost all = texts(tokens@);
    let ghost keep = |property: Seq<char>| is_backdrop_property(property);
    let mut monitors: Vec<String> = Vec::new();
    let mut i: usize = 0;
    proof {
        reveal(Seq::filter);
        assert(all.take(0) =~= Seq::<Seq<char>>::empty());
        assert(texts(monitors@) =~= all.take(0).filter(keep));
    }
    while i < tokens.len()
        invariant
            i <= tokens@.len(),
            all == texts(tokens@),
            keep == |property: Seq<char>| is_backdrop_property(property),
            texts(monitors@) == all.take(i as int).filter(keep),
        decreases tokens@.len() - i,
    {
        let token = tokens[i].as_str();
        proof {
            reveal(Seq::filter);
            let next = all.take(i + 1);
            assert(next.drop_last() =~= all.take(i as int));
            assert(next.last() == token@);
        }
        if contains(token, "screen0") && contains(token, "workspace0") && contains(
            token,
            "last-image",
        ) {
            push_arg(&mut monitors, token);
        }
        i += 1;
    }
    assert(all.take(tokens@.len() as int) =~= all);
    monitors
}

/// The commands that put a group of images on an Xfce desktop: the first
/// image goes to the first monitor, the second to the second, and so on,
/// as far as both images and monitors go.
pub open spec fn xfce_commands(images: Seq<FileInfo>, monitors: Seq<Seq<char>>) -> Seq<
    CommandLineView,
> {
    Seq::new(
        if images.len() <= monitors.len() {
            images.len()
        } else {
            monitors.len()
        },
        |i: int| xfconf_command(images[i].path@, monitors[i]),
    )
}

/// The commands that put a group of images on an Xfce desktop whose
/// monitors have the properties `monitors`.
pub fn set_xfce_wallpaper(images: &[FileInfo], monitors: &Vec<String>) -> (r: Vec<CommandLine>)
    ensures
        command_views(r@) == xfce_commands(images@, texts(monitors@)),
{
    let count: usize = if images.len() <= monitors.len() {
        images.len()
    } else {
        monitors.len()
    };
    let mut commands: Vec<CommandLine> = Vec::new();
    let mut i: usize = 0;
    while i < count
        invariant
            i <= count,
            count <= images@.len(),
            count <= monitors@.len(),
            commands@.len() == i,
            forall|k: int|
                0 <= k < i ==> (#[trigger] commands@[k])@ == xfconf_command(
                    images@[k].path@,
                    monitors@[k]@,
                ),
        decreases count - i,
    {
        commands.push(apply_xfconf(images[i].path.as_str(), monitors[i].as_str()));
        i += 1;
    }
    assert(command_views(commands@) =~= xfce_commands(images@, texts(monitors@)));
    commands
}

/// The kinds of desktop that a wallpaper can be put on.
#[derive(Debug, Clone, Copy, PartialEq, Eq, Structural)]
pub enum Desktop {
    Gnome,
    Xfce,
    Openbox,
}

/// The kind of a desktop by its name: Gnome where the name holds `gnome`,
/// Xfce where it holds `xfce`, and Openbox otherwise.
pub open spec fn desktop_of(name: Seq<char>) -> Desktop {
    if contains_spec(name, "gnome"@) {
        Desktop::Gnome
    } else if contains_spec(name, "xfce"@) {
        Desktop::Xfce
    } else {
        Desktop::Openbox
    }
}

/// The kind of the desktop that is configured.
pub fn desktop_kind(config: &Config) -> (r: Desktop)
    ensures
        r == desktop_of(config.desktop@),
{
    if contains(config.desktop.as_str(), "gnome") {
        Desktop::Gnome
    } else if contains(config.desktop.as_str(), "xfce") {
        Desktop::Xfce
    } else {
        Desktop::Openbox
    }
}

/// The commands that put a group of images on the desktop. On Xfce the
/// properties of the monitors, `xfce_monitors`, must have been looked up;
/// on other desktops they are not read.
pub fn set_wallpaper(images: &[FileInfo], config: &Config, xfce_monitors: &Vec<String>) -> (r: Vec<
    CommandLine,
>)
    requires
        desktop_of(config.desktop@) == Desktop::Gnome ==> config.monitors_filled()
            && pictures_total(config.monitors@) <= images@.len(),
    ensures
        command_views(r@) == match desktop_of(config.desktop@) {
            Desktop::Gnome => gnome_commands(images@, *config),
            Desktop::Xfce => xfce_commands(images@, texts(xfce_monitors@)),
            Desktop::Openbox => seq![
                CommandLineView {
                    program: config.path_feh@,
                    arguments: feh_args(images@, images@.len() as int),
                },
            ],
        },
{
    match desktop_kind(config) {
        Desktop::Gnome => set_gnome_wallpaper(images, config),
        Desktop::Xfce => set_xfce_wallpaper(images, xfce_monitors),
        Desktop::Openbox => {
            let mut commands: Vec<CommandLine> = Vec::new();
            commands.push(set_openbox_wallpaper(images, config));
            assert(command_views(commands@) =~= seq![
                CommandLineView {
                    program: config.path_feh@,
                    arguments: feh_args(images@, images@.len() as int),
                },
            ]);
            commands
        },
    }
}

} // verus!
