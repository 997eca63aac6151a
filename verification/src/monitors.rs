//! The output surfaces that a wallpaper is spread over.

use crate::dimension::Dimension;
use crate::orientation::Orientation;
use vstd::prelude::*;

verus! {

/// One monitor: how many pictures it shows, how they are joined, and its
/// resolution.
#[derive(Debug, Clone, Copy, PartialEq, Eq, Structural, PartialOrd, Ord, Hash)]
pub struct Monitor {
    /// How the pictures of this monitor are joined.
    pub picture_orientation: Orientation,
    /// The number of pictures shown on this monitor.
    pub pictures_per_monitor: u8,
    /// The resolution of the monitor.
    pub resolution: Dimension,
}

impl Default for Monitor {
    fn default() -> (r: Monitor)
        ensures
            r == Monitor::initial(),
    {
        Monitor {
            picture_orientation: Orientation::Horizontal,
            pictures_per_monitor: 1,
            resolution: Dimension { width: 3840, height: 2160 },
        }
    }
}

impl Monitor {
    /// One picture, joined horizontally, at 4K UHD.
    pub open spec fn initial() -> Monitor {
        Monitor {
            picture_orientation: Orientation::Horizontal,
            pictures_per_monitor: 1,
            resolution: Dimension { width: 3840, height: 2160 },
        }
    }

    /// The same monitor with the other picture orientation.
    pub open spec fn flipped(self) -> Monitor {
        Monitor { picture_orientation: self.picture_orientation.flipped(), ..self }
    }

    /// Exchanges horizontal and vertical joining of the pictures.
    pub fn flip(self) -> (r: Monitor)
        ensures
            r == self.flipped(),
    {
        Monitor { picture_orientation: self.picture_orientation.flip(), ..self }
    }
}

/// The `index`-th of the monitors that [`get_monitors`] makes: pictures are
/// joined vertically on the first, third, fifth monitor and so on, and
/// horizontally on the others.
pub open spec fn nth_monitor(index: int) -> Monitor {
    if index % 2 == 0 {
        Monitor::initial().flipped()
    } else {
        Monitor::initial()
    }
}

/// `number` monitors with default settings, their picture orientation
/// alternating.
pub fn get_monitors(number: usize) -> (r: Vec<Monitor>)
    ensures
        r@.len() == number,
        forall|i: int| 0 <= i < number ==> #[trigger] r@[i] == nth_monitor(i),
{
    let mut monitors: Vec<Monitor> = Vec::new();
    let mut index: usize = 0;
    while index < number
        invariant
            index <= number,
            monitors@.len() == index,
            forall|i: int| 0 <= i < index ==> monitors@[i] == nth_monitor(i),
        decreases number - index,
    {
        let monitor = Monitor::default();
        if index % 2 == 0 {
            monitors.push(monitor.flip());
        } else {
            monitors.push(monitor);
        }
        index += 1;
    }
    monitors
}

/// The number of pictures that the monitors show together.
pub open spec fn pictures_total(monitors: Seq<Monitor>) -> nat
    decreases monitors.len(),
{
    if monitors.len() == 0 {
        0
    } else {
        pictures_total(monitors.drop_last()) + monitors.last().pictures_per_monitor as nat
    }
}

/// The number of pictures that the monitors before the `index`-th show
/// together: where the pictures of that monitor begin.
pub open spec fn pictures_before(monitors: Seq<Monitor>, index: int) -> nat {
    pictures_total(monitors.take(index))
}

/// Monitors that show a picture each show at least as many pictures as
/// there are monitors.
pub proof fn lemma_pictures_total_at_least(monitors: Seq<Monitor>)
    requires
        forall|i: int| 0 <= i < monitors.len() ==> (#[trigger] monitors[i]).pictures_per_monitor >= 1,
    ensures
        pictures_total(monitors) >= monitors.len(),
    decreases monitors.len(),
{
    if monitors.len() > 0 {
        let front = monitors.drop_last();
        assert forall|i: int| 0 <= i < front.len() implies (#[trigger] front[i]).pictures_per_monitor
            >= 1 by {
            assert(front[i] == monitors[i]);
        }
        lemma_pictures_total_at_least(front);
    }
}

/// The starts of the monitors' pictures follow one another.
pub proof fn lemma_pictures_before_step(monitors: Seq<Monitor>, index: int)
    requires
        0 <= index < monitors.len(),
    ensures
        pictures_before(monitors, index + 1) == pictures_before(monitors, index)
            + monitors[index].pictures_per_monitor,
        pictures_before(monitors, 0) == 0,
        pictures_before(monitors, monitors.len() as int) == pictures_total(monitors),
{
    assert(monitors.take(index + 1).drop_last() =~= monitors.take(index));
    assert(monitors.take(monitors.len() as int) =~= monitors);
    assert(monitors.take(0) =~= Seq::<Monitor>::empty());
}

/// Later monitors start later.
pub proof fn lemma_pictures_before_monotone(monitors: Seq<Monitor>, i: int, j: int)
    requires
        0 <= i <= j <= monitors.len(),
    ensures
        pictures_before(monitors, i) <= pictures_before(monitors, j),
    decreases j - i,
{
    if i < j {
        lemma_pictures_before_monotone(monitors, i, j - 1);
        lemma_pictures_before_step(monitors, j - 1);
    }
}

} // verus!
