//! The selection cycle as a state machine.
//!
//! A pass begins with a scan. The files found are made into a pool, the
//! pool is cut into groups of as many images as the monitors show together,
//! and each group is probed, validated and shown, or left out. A pass that
//! showed something is followed by the next scan; one that showed nothing
//! ends the cycle.
//!
//! The machine decides; whoever runs it scans, probes, shows the wallpaper,
//! waits, and reports back.

use crate::chunks::{
    chunk_count, chunk_of, chunk_verdict, copy_files, first_size_error, lemma_chunk_bounds,
    lemma_chunk_verdict_idempotent, lemma_chunks_tile_the_pool, lemma_size_fault_none,
    size_fault, validate_chunk,
};
use crate::config::Config;
use crate::error::{error_views, WallSwitchError, WallSwitchErrorView};
use crate::fileinfo::FileInfo;
use crate::images::{
    clone_texts, count_fault, distinct, gather_files, get_images_with, hashes_differ,
    lemma_distinct, lemma_pool_hashes_differ, numbered, paths, paths_of, pool_of,
};
use crate::monitors::{lemma_pictures_total_at_least, pictures_total};
use crate::random::{lemma_shuffled_is_permutation, rand, shuffle_steps};
use crate::text::texts;
use vstd::prelude::*;

verus! {

/// What the machine waits for.
#[derive(Debug, Clone, Copy, PartialEq, Eq, Structural)]
pub enum Phase {
    /// The files that a scan found.
    Scanning,
    /// Nothing: the next group is to be looked at.
    Chunking,
    /// The answers of the probes for the current group.
    Enriching,
    /// The news that the current group is on the desktop.
    Emitting,
    /// Nothing any more: no wallpaper can be made.
    Fatal,
}

/// The state of the selection cycle.
#[derive(Debug)]
pub struct SelectionCycle {
    /// The images of this pass, in the order in which they are shown.
    pub pool: Vec<FileInfo>,
    /// The number of images in a group.
    pub chunk_size: usize,
    /// The number of groups of this pass that are done with.
    pub cursor: usize,
    /// The number of groups of this pass that were shown.
    pub emitted: usize,
    /// What the machine waits for.
    pub phase: Phase,
}

/// What happened outside the machine.
#[derive(Debug)]
pub enum CycleEvent {
    /// Nothing: the machine is asked to go on.
    Resume,
    /// The scan found these files; each has its size, path and content hash.
    Scanned(Vec<FileInfo>),
    /// The probes answered: one text of the form `<width>x<height>` for
    /// each image of the group, in order.
    Probed(Vec<String>),
    /// The group is on the desktop, and the interval has passed.
    Shown,
}

/// What is to be done outside the machine.
#[derive(Debug)]
pub enum CycleAction {
    /// Scan the directories for image files; report `Scanned`.
    Scan,
    /// Probe the dimension of each of these images; report `Probed`.
    Probe(Vec<FileInfo>),
    /// Show these images, wait for the interval; report `Shown`.
    Show(Vec<FileInfo>),
    /// This group was left out, and these are the reports on it; go on with
    /// `Resume`.
    Skip(Vec<FileInfo>, Vec<WallSwitchError>),
    /// No wallpaper can be made, for this reason: give up.
    Fatal(WallSwitchError),
}

/// Why a pool can show nothing: it is empty, or smaller than the number of
/// monitors, or none of its groups was valid.
pub open spec fn fatal_fault(pool: Seq<FileInfo>, config: Config) -> WallSwitchErrorView {
    if pool.len() == 0 {
        WallSwitchErrorView::NoImages { paths: texts(config.directories@) }
    } else if pool.len() < config.monitors@.len() {
        WallSwitchErrorView::InsufficientImages {
            paths: paths_of(pool),
            nfiles: pool.len() as usize,
        }
    } else {
        WallSwitchErrorView::InsufficientNumber
    }
}

/// Why a pool can show nothing.
pub fn fatal_error(pool: &Vec<FileInfo>, config: &Config) -> (r: WallSwitchError)
    ensures
        r@ == fatal_fault(pool@, *config),
{
    if pool.len() == 0 {
        WallSwitchError::NoImages { paths: clone_texts(&config.directories) }
    } else if pool.len() < config.monitors.len() {
        WallSwitchError::InsufficientImages { paths: paths(pool), nfiles: pool.len() }
    } else {
        WallSwitchError::InsufficientNumber
    }
}

impl SelectionCycle {
    /// The number of whole groups in the pool.
    pub open spec fn chunks(self) -> int {
        chunk_count(self.pool@.len() as int, self.chunk_size as int)
    }

    /// The `index`-th group of the pool.
    pub open spec fn chunk(self, index: int) -> Seq<FileInfo> {
        chunk_of(self.pool@, self.chunk_size as int, index)
    }

    /// A group holds an image at least. During a pass the pool holds an
    /// image for each monitor at least; no more groups are done with than
    /// there are, and no more were shown than are done with; and where the
    /// machine waits for probes or for the desktop, it is about a group of
    /// the pool whose files have sizes within bounds.
    pub open spec fn well_formed(self, config: Config) -> bool {
        &&& self.chunk_size >= 1
        &&& (self.phase == Phase::Chunking || self.phase == Phase::Enriching || self.phase
            == Phase::Emitting) ==> {
            &&& self.pool@.len() >= 1
            &&& self.pool@.len() >= config.monitors@.len()
            &&& self.emitted <= self.cursor <= self.chunks()
            &&& self.phase != Phase::Chunking ==> {
                &&& self.cursor < self.chunks()
                &&& size_fault(self.chunk(self.cursor as int), config) is None
            }
        }
    }

    /// Whether the machine stands at the given place.
    pub open spec fn at(self, cursor: int, emitted: int, phase: Phase) -> bool {
        self.cursor == cursor && self.emitted == emitted && self.phase == phase
    }

    /// What a machine does that stands before the group `cursor` of `pool`,
    /// with `emitted` groups shown. After the last group the pass is over:
    /// that is fatal if nothing was shown; otherwise the next scan is due.
    /// A group with a file of the wrong size is left out, and the reports
    /// name the file. Any other group is probed.
    pub open spec fn decides(
        self,
        pool: Seq<FileInfo>,
        cursor: int,
        emitted: int,
        config: Config,
        next: SelectionCycle,
        action: CycleAction,
    ) -> bool {
        &&& next.pool@ == pool
        &&& if cursor >= chunk_count(pool.len() as int, self.chunk_size as int) {
            if emitted == 0 {
                &&& next.at(cursor, emitted, Phase::Fatal)
                &&& action matches CycleAction::Fatal(e)
                &&& e@ == WallSwitchErrorView::InsufficientNumber
            } else {
                next.at(0, 0, Phase::Scanning) && action is Scan
            }
        } else {
            match size_fault(chunk_of(pool, self.chunk_size as int, cursor), config) {
                Some(fault) => {
                    &&& next.at(cursor + 1, emitted, Phase::Chunking)
                    &&& action matches CycleAction::Skip(files, reports)
                    &&& files@ == chunk_of(pool, self.chunk_size as int, cursor)
                    &&& error_views(reports@) == fault
                },
                None => {
                    &&& next.at(cursor, emitted, Phase::Enriching)
                    &&& action matches CycleAction::Probe(files)
                    &&& files@ == chunk_of(pool, self.chunk_size as int, cursor)
                },
            }
        }
    }

    /// What one step makes of a state and an event, where a shuffle takes
    /// its random numbers from `draws`.
    ///
    /// A machine that has failed fails again, for the same reason.
    ///
    /// A machine that waits for a scan and gets one makes the pool: files
    /// with repeated content are left out, the files are numbered and,
    /// unless they are to stay sorted, shuffled. No file, or fewer files
    /// than monitors, is fatal. Otherwise the machine decides on the first
    /// group. Without a scan it asks for one.
    ///
    /// A machine that waits for probes and gets their answers validates the
    /// group: a group that passes is to be shown, one that fails is left
    /// out.
    ///
    /// In every other case the machine moves on: a group that it waited for
    /// is done with, and counts as shown if that is what was reported; then
    /// the machine decides on the group that follows.
    pub open spec fn steps_to(
        self,
        event: CycleEvent,
        config: Config,
        draws: Seq<u64>,
        next: SelectionCycle,
        action: CycleAction,
    ) -> bool {
        if self.phase == Phase::Fatal {
            &&& next.pool@ == self.pool@
            &&& next.at(self.cursor as int, self.emitted as int, Phase::Fatal)
            &&& action matches CycleAction::Fatal(e)
            &&& e@ == fatal_fault(self.pool@, config)
        } else if self.phase == Phase::Scanning {
            match event {
                CycleEvent::Scanned(found) => match count_fault(found@, config) {
                    Some(fault) => {
                        &&& next.pool@ == distinct(found@)
                        &&& next.at(0, 0, Phase::Fatal)
                        &&& action matches CycleAction::Fatal(e)
                        &&& e@ == fault
                    },
                    None => self.decides(
                        pool_of(found@, config.sort, draws),
                        0,
                        0,
                        config,
                        next,
                        action,
                    ),
                },
                _ => {
                    &&& next.pool@ == self.pool@
                    &&& next.at(self.cursor as int, self.emitted as int, Phase::Scanning)
                    &&& action is Scan
                },
            }
        } else if self.phase == Phase::Enriching && event is Probed {
            &&& next.pool@ == self.pool@
            &&& match chunk_verdict(
                self.chunk(self.cursor as int),
                texts(event->Probed_0@),
                config,
            ) {
                Ok(figures) => {
                    &&& next.at(self.cursor as int, self.emitted as int, Phase::Emitting)
                    &&& action matches CycleAction::Show(files)
                    &&& files@ == figures
                },
                Err(fault) => {
                    &&& next.at(self.cursor + 1, self.emitted as int, Phase::Chunking)
                    &&& action matches CycleAction::Skip(files, reports)
                    &&& files@ == self.chunk(self.cursor as int)
                    &&& error_views(reports@) == seq![fault]
                },
            }
        } else {
            let cursor = if self.phase == Phase::Chunking {
                self.cursor as int
            } else {
                self.cursor + 1
            };
            let emitted = if self.phase == Phase::Emitting && event is Shown {
                self.emitted + 1
            } else {
                self.emitted as int
            };
            self.decides(self.pool@, cursor, emitted, config, next, action)
        }
    }

    /// How many random numbers a step from this state with this event
    /// takes. Only a step that shuffles a pool takes any: as many as the
    /// pool holds files, less one.
    pub open spec fn draws_needed(self, event: CycleEvent, config: Config) -> int {
        if self.phase == Phase::Scanning && !config.sort && event is Scanned {
            shuffle_steps(distinct(event->Scanned_0@).len() as int)
        } else {
            0
        }
    }

    /// A cycle that has not begun: the first scan is due. The pool will be
    /// cut into groups of as many images as the monitors show together.
    pub fn new(config: &Config) -> (r: SelectionCycle)
        requires
            config.monitors@.len() > 0,
            config.monitors_filled(),
            pictures_total(config.monitors@) <= usize::MAX,
        ensures
            r.well_formed(*config),
            r.pool@.len() == 0,
            r.chunk_size == pictures_total(config.monitors@),
            r.at(0, 0, Phase::Scanning),
    {
        proof {
            lemma_pictures_total_at_least(config.monitors@);
        }
        let chunk_size = config.get_number_of_images();
        SelectionCycle {
            pool: Vec::new(),
            chunk_size,
            cursor: 0,
            emitted: 0,
            phase: Phase::Scanning,
        }
    }

    /// A cycle that has not begun, if the monitors of the configuration
    /// can be filled: there must be a monitor, each one must show a picture,
    /// and the machine must be able to count the pictures.
    pub fn begin(config: &Config) -> (r: Option<SelectionCycle>)
        ensures
            r is Some <==> config.monitors@.len() > 0 && config.monitors_filled() && pictures_total(
                config.monitors@,
            ) <= usize::MAX,
            r matches Some(cycle) ==> {
                &&& cycle.well_formed(*config)
                &&& cycle.pool@.len() == 0
                &&& cycle.chunk_size == pictures_total(config.monitors@)
                &&& cycle.at(0, 0, Phase::Scanning)
            },
    {
        if config.monitors.len() == 0 || !config.monitors_are_filled() {
            return None;
        }
        match config.checked_number_of_images() {
            None => None,
            Some(_) => Some(SelectionCycle::new(config)),
        }
    }

    /// The images of the group that the machine stands at.
    fn current(&self) -> (r: Vec<FileInfo>)
        requires
            self.chunk_size >= 1,
            self.cursor < self.chunks(),
        ensures
            r@ == self.chunk(self.cursor as int),
    {
        let len: usize = self.pool.len();
        proof {
            lemma_chunk_bounds(len as int, self.chunk_size as int, self.cursor as int);
        }
        let start: usize = self.cursor * self.chunk_size;
        copy_files(vstd::slice::slice_subrange(self.pool.as_slice(), start, start + self.chunk_size))
    }

    /// Whether the state is one that the machine can be in.
    pub fn is_well_formed(&self, config: &Config) -> (r: bool)
        ensures
            r == self.well_formed(*config),
    {
        if self.chunk_size < 1 {
            return false;
        }
        match self.phase {
            Phase::Scanning | Phase::Fatal => true,
            _ => {
                if self.pool.len() < 1 || self.pool.len() < config.monitors.len() {
                    return false;
                }
                let count: usize = self.pool.len() / self.chunk_size;
                if self.emitted > self.cursor || self.cursor > count {
                    return false;
                }
                match self.phase {
                    Phase::Chunking => true,
                    _ => {
                        if self.cursor >= count {
                            return false;
                        }
                        let files = self.current();
                        first_size_error(files.as_slice(), config).is_none()
                    },
                }
            },
        }
    }

    /// Decides on the group that the machine stands before.
    fn decide(self, config: &Config) -> (r: (SelectionCycle, CycleAction))
        requires
            self.chunk_size >= 1,
            self.pool@.len() >= 1,
            self.pool@.len() >= config.monitors@.len(),
            self.emitted <= self.cursor <= self.chunks(),
        ensures
            r.0.well_formed(*config),
            r.0.chunk_size == self.chunk_size,
            self.decides(
                self.pool@,
                self.cursor as int,
                self.emitted as int,
                *config,
                r.0,
                r.1,
            ),
            r.1 matches CycleAction::Probe(files) ==> files@.len() == self.chunk_size,
            !(r.1 is Show),
    {
        proof {
            lemma_chunks_tile_the_pool(self.pool@, self.chunk_size as int);
        }
        let mut state = self;
        let count: usize = state.pool.len() / state.chunk_size;
        if state.cursor >= count {
            if state.emitted == 0 {
                state.phase = Phase::Fatal;
                return (state, CycleAction::Fatal(WallSwitchError::InsufficientNumber));
            }
            state.cursor = 0;
            state.emitted = 0;
            state.phase = Phase::Scanning;
            return (state, CycleAction::Scan);
        }
        let files = state.current();
        match first_size_error(files.as_slice(), config) {
            Some(reports) => {
                state.cursor = state.cursor + 1;
                state.phase = Phase::Chunking;
                (state, CycleAction::Skip(files, reports))
            },
            None => {
                state.phase = Phase::Enriching;
                (state, CycleAction::Probe(files))
            },
        }
    }

    /// Takes in what happened and says what is to be done next. Where the
    /// step shuffles a pool, the random numbers are taken from `draws`.
    pub fn step_with(self, event: CycleEvent, config: &Config, draws: &[u64]) -> (r: (
        SelectionCycle,
        CycleAction,
    ))
        requires
            self.well_formed(*config),
            draws@.len() >= self.draws_needed(event, *config),
        ensures
            r.0.well_formed(*config),
            r.0.chunk_size == self.chunk_size,
            self.steps_to(event, *config, draws@, r.0, r.1),
            r.1 matches CycleAction::Show(files) ==> files@.len() == self.chunk_size && forall|
                i: int,
            |
                0 <= i < files@.len() ==> (#[trigger] files@[i]).passes(*config),
            r.1 matches CycleAction::Probe(files) ==> files@.len() == self.chunk_size,
            (self.phase == Phase::Scanning && event is Scanned) || hashes_differ(self.pool@)
                ==> hashes_differ(r.0.pool@),
    {
        proof {
            if self.phase == Phase::Scanning && event is Scanned {
                lemma_pool_hashes_differ(event->Scanned_0@, config.sort, draws@);
                lemma_distinct(event->Scanned_0@);
            }
        }
        let mut state = self;
        let count: usize = state.pool.len() / state.chunk_size;
        assert(count == state.chunks());
        match state.phase {
            Phase::Fatal => {
                let error = fatal_error(&state.pool, config);
                return (state, CycleAction::Fatal(error));
            },
            Phase::Scanning => {
                match event {
                    CycleEvent::Scanned(found) => {
                        match get_images_with(found.as_slice(), config, draws) {
                            Err(e) => {
                                state.pool = gather_files(found.as_slice());
                                state.cursor = 0;
                                state.emitted = 0;
                                state.phase = Phase::Fatal;
                                return (state, CycleAction::Fatal(e));
                            },
                            Ok(images) => {
                                proof {
                                    lemma_distinct(found@);
                                    let files = numbered(distinct(found@));
                                    lemma_shuffled_is_permutation(
                                        files,
                                        draws@,
                                        shuffle_steps(files.len() as int),
                                    );
                                }
                                state.pool = images;
                                state.cursor = 0;
                                state.emitted = 0;
                                return state.decide(config);
                            },
                        }
                    },
                    _ => {
                        return (state, CycleAction::Scan);
                    },
                }
            },
            Phase::Enriching => {
                match event {
                    CycleEvent::Probed(answers) => {
                        let files = state.current();
                        match validate_chunk(files.as_slice(), &answers, config) {
                            Ok(figures) => {
                                proof {
                                    lemma_chunk_verdict_idempotent(
                                        files@,
                                        texts(answers@),
                                        *config,
                                    );
                                    lemma_size_fault_none(files@, *config);
                                    lemma_chunks_tile_the_pool(
                                        state.pool@,
                                        state.chunk_size as int,
                                    );
                                }
                                state.phase = Phase::Emitting;
                                return (state, CycleAction::Show(figures));
                            },
                            Err(e) => {
                                let mut reports: Vec<WallSwitchError> = Vec::new();
                                reports.push(e);
                                assert(error_views(reports@) =~= seq![e@]);
                                state.cursor = state.cursor + 1;
                                state.phase = Phase::Chunking;
                                return (state, CycleAction::Skip(files, reports));
                            },
                        }
                    },
                    _ => {
                        state.cursor = state.cursor + 1;
                    },
                }
            },
            Phase::Emitting => {
                match event {
                    CycleEvent::Shown => {
                        state.emitted = state.emitted + 1;
                    },
                    _ => {},
                }
                state.cursor = state.cursor + 1;
            },
            Phase::Chunking => {},
        }
        state.decide(config)
    }

    /// Takes in what happened and says what is to be done next. Where the
    /// step shuffles a pool, it does so with random numbers of the process.
    pub fn step(self, event: CycleEvent, config: &Config) -> (r: (SelectionCycle, CycleAction))
        requires
            self.well_formed(*config),
        ensures
            r.0.well_formed(*config),
            r.0.chunk_size == self.chunk_size,
            exists|draws: Seq<u64>|
                draws.len() >= self.draws_needed(event, *config) && #[trigger] self.steps_to(
                    event,
                    *config,
                    draws,
                    r.0,
                    r.1,
                ),
            r.1 matches CycleAction::Show(files) ==> files@.len() == self.chunk_size && forall|
                i: int,
            |
                0 <= i < files@.len() ==> (#[trigger] files@[i]).passes(*config),
            r.1 matches CycleAction::Probe(files) ==> files@.len() == self.chunk_size,
            (self.phase == Phase::Scanning && event is Scanned) || hashes_differ(self.pool@)
                ==> hashes_differ(r.0.pool@),
    {
        let wanted: usize = match &event {
            CycleEvent::Scanned(found) => found.len(),
            _ => 0,
        };
        proof {
            if event is Scanned {
                lemma_distinct(event->Scanned_0@);
            }
        }
        let mut draws: Vec<u64> = Vec::new();
        let mut i: usize = 0;
        while i < wanted
            invariant
                i <= wanted,
                draws@.len() == i,
            decreases wanted - i,
        {
            draws.push(rand());
            i += 1;
        }
        let r = self.step_with(event, config, draws.as_slice());
        assert(self.steps_to(event, *config, draws@, r.0, r.1));
        r
    }
}

} // verus!
