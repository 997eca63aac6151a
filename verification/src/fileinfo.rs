//! What is known of one image file, and the checks that it must pass.

use crate::config::Config;
use crate::decimal::{decimal, decimal_width, u64_to_string};
use crate::dimension::{split_str_spec, Dimension};
use crate::error::{
    DimensionError, DimensionErrorView, WallSwitchError, WallSwitchErrorView, WallSwitchResult,
};
use crate::path::{file_name, file_name_spec};
use crate::text::{
    contains, contains_spec, debug_spec, debug_text, pad_left, pad_left_spec, same_text,
};
use std::hash::{DefaultHasher, Hasher};
use vstd::prelude::*;
use vstd::string::StringExecFns;
use vstd::std_specs::hash::DefaultHasherAdditionalSpecFns;

verus! {

/// Image information.
#[derive(Debug, PartialEq, Eq, PartialOrd, Ord, Hash)]
pub struct FileInfo {
    /// The position of the file among the images found, counted from one.
    pub number: usize,
    /// The number of images found.
    pub total: usize,
    /// Width and height of the image.
    pub dimension: Dimension,
    /// The size of the file, in bytes.
    pub size: u64,
    /// The hash of the file's content.
    pub hash: String,
    /// The path of the file.
    pub path: String,
}

impl Clone for FileInfo {
    fn clone(&self) -> (r: FileInfo)
        ensures
            r == *self,
    {
        FileInfo {
            number: self.number,
            total: self.total,
            dimension: self.dimension,
            size: self.size,
            hash: self.hash.clone(),
            path: self.path.clone(),
        }
    }
}

impl Default for FileInfo {
    fn default() -> (r: FileInfo)
        ensures
            r.number == 0,
            r.total == 0,
            r.dimension == (Dimension { width: 3840, height: 2160 }),
            r.size == 0,
            r.hash@ == Seq::<char>::empty(),
            r.path@ == Seq::<char>::empty(),
    {
        FileInfo {
            number: 0,
            total: 0,
            dimension: Dimension { width: 3840, height: 2160 },
            size: 0,
            hash: String::new(),
            path: String::new(),
        }
    }
}

impl FileInfo {
    /// The size lies within the configured bounds.
    pub open spec fn size_fits(self, config: Config) -> bool {
        config.min_size <= self.size <= config.max_size
    }

    /// Both sides of the image lie within the configured bounds.
    pub open spec fn dimension_fits(self, config: Config) -> bool {
        self.dimension.fits(config.min_dimension, config.max_dimension)
    }

    /// The file is not named like the wallpaper that is generated.
    pub open spec fn name_fits(self, config: Config) -> bool {
        file_name_spec(self.path@) != file_name_spec(config.wallpaper@)
    }

    /// The file passes every check: size, dimension and name.
    pub open spec fn passes(self, config: Config) -> bool {
        self.size_fits(config) && self.dimension_fits(config) && self.name_fits(config)
    }

    /// Whether `string` occurs in the path.
    pub fn path_contains(&self, string: &str) -> (r: bool)
        ensures
            r == contains_spec(self.path@, string@),
    {
        contains(self.path.as_str(), string)
    }

    /// Takes the dimension from the answer of a probe, a text of the form
    /// `<width>x<height>`. Nothing changes where the text is malformed.
    pub fn update_info(&mut self, probe: &str) -> (r: WallSwitchResult<()>)
        ensures
            match r {
                Ok(_) => split_str_spec(probe@) == Ok::<Seq<u64>, DimensionErrorView>(
                    seq![final(self).dimension.width, final(self).dimension.height],
                ) && *final(self) == (FileInfo { dimension: final(self).dimension, ..*old(self) }),
                Err(e) => e@ matches WallSwitchErrorView::InvalidDimension(cause)
                    && split_str_spec(probe@) == Err::<Seq<u64>, DimensionErrorView>(cause)
                    && *final(self) == *old(self),
            },
    {
        match Dimension::new(probe) {
            Ok(dimension) => {
                self.dimension = dimension;
                Ok(())
            },
            Err(e) => Err(e),
        }
    }

    /// Whether both sides of the image lie within the configured bounds.
    pub fn dimension_is_valid(&self, config: &Config) -> (r: bool)
        ensures
            r == self.dimension_fits(*config),
    {
        self.dimension.is_valid(config)
    }

    /// The report on a dimension outside the configured bounds; `None`
    /// where the dimension is inside.
    pub fn dimension_error(&self, config: &Config) -> (r: Option<WallSwitchError>)
        ensures
            r is None <==> self.dimension_fits(*config),
            r matches Some(e) ==> e@ == WallSwitchErrorView::InvalidDimension(
                DimensionErrorView::DimensionFormatError {
                    dimension: self.dimension,
                    log_min: self.dimension.log_min(config.min_dimension, config.max_dimension),
                    log_max: self.dimension.log_max(config.min_dimension, config.max_dimension),
                    path: self.path@,
                },
            ),
    {
        if self.dimension.is_valid(config) {
            None
        } else {
            Some(
                WallSwitchError::InvalidDimension(
                    DimensionError::DimensionFormatError {
                        dimension: self.dimension,
                        log_min: self.dimension.get_log_min(config),
                        log_max: self.dimension.get_log_max(config),
                        path: self.path.clone(),
                    },
                ),
            )
        }
    }

    /// Whether the size lies within the configured bounds.
    pub fn size_is_valid(&self, config: &Config) -> (r: bool)
        ensures
            r == self.size_fits(*config),
    {
        self.size >= config.min_size && self.size <= config.max_size
    }

    /// The report on a size outside the configured bounds; `None` where the
    /// size is inside.
    pub fn size_error(&self, config: &Config) -> (r: Option<WallSwitchError>)
        ensures
            r is None <==> self.size_fits(*config),
            r matches Some(e) ==> e@ == (WallSwitchErrorView::InvalidSize {
                min_size: config.min_size,
                size: self.size,
                max_size: config.max_size,
            }),
    {
        if self.size_is_valid(config) {
            None
        } else {
            Some(
                WallSwitchError::InvalidSize {
                    min_size: config.min_size,
                    size: self.size,
                    max_size: config.max_size,
                },
            )
        }
    }

    /// Whether the file is named otherwise than the wallpaper that is
    /// generated.
    pub fn name_is_valid(&self, config: &Config) -> (r: bool)
        ensures
            r == self.name_fits(*config),
    {
        let own = file_name(self.path.as_str());
        let reserved = file_name(config.wallpaper.as_str());
        match (own, reserved) {
            (None, None) => false,
            (Some(a), Some(b)) => !same_text(a.as_str(), b.as_str()),
            _ => true,
        }
    }

    /// The report on a file named like the wallpaper; `None` where the name
    /// differs or the path has no file name.
    pub fn name_error(&self, config: &Config) -> (r: Option<WallSwitchError>)
        ensures
            r is Some <==> !self.name_fits(*config) && file_name_spec(self.path@) is Some,
            r matches Some(e) ==> e@ matches WallSwitchErrorView::InvalidFilename(name)
                && file_name_spec(self.path@) == Some(name),
    {
        if self.name_is_valid(config) {
            None
        } else {
            match file_name(self.path.as_str()) {
                Some(name) => Some(WallSwitchError::InvalidFilename(name)),
                None => None,
            }
        }
    }
}

/// What holds of a list of image files as a whole.
pub trait FileInfoExt {
    spec fn records(&self) -> Seq<FileInfo>;

    /// The smallest width; `None` where the list is empty.
    fn get_width_min(&self) -> (r: Option<u64>)
        ensures
            r is None <==> self.records().len() == 0,
            r matches Some(m) ==> {
                &&& forall|i: int|
                    0 <= i < self.records().len() ==> m <= (#[trigger] self.records()[i]).dimension.width
                &&& exists|i: int|
                    0 <= i < self.records().len() && (#[trigger] self.records()[i]).dimension.width
                        == m
            },
    ;

    /// The largest size; `None` where the list is empty.
    fn get_max_size(&self) -> (r: Option<u64>)
        ensures
            r is None <==> self.records().len() == 0,
            r matches Some(m) ==> {
                &&& forall|i: int|
                    0 <= i < self.records().len() ==> (#[trigger] self.records()[i]).size <= m
                &&& exists|i: int|
                    0 <= i < self.records().len() && (#[trigger] self.records()[i]).size == m
            },
    ;

    /// The largest number; `None` where the list is empty.
    fn get_max_number(&self) -> (r: Option<usize>)
        ensures
            r is None <==> self.records().len() == 0,
            r matches Some(m) ==> {
                &&& forall|i: int|
                    0 <= i < self.records().len() ==> (#[trigger] self.records()[i]).number <= m
                &&& exists|i: int|
                    0 <= i < self.records().len() && (#[trigger] self.records()[i]).number == m
            },
    ;

    /// The largest side of any image; `None` where the list is empty.
    fn get_max_dimension(&self) -> (r: Option<u64>)
        ensures
            r is None <==> self.records().len() == 0,
            r matches Some(m) ==> {
                &&& forall|i: int|
                    0 <= i < self.records().len() ==> (
                    #[trigger] self.records()[i]).dimension.max_side() <= m
                &&& exists|i: int|
                    0 <= i < self.records().len() && (
                    #[trigger] self.records()[i]).dimension.max_side() == m
            },
    ;

    /// Whether every file has a size within the configured bounds.
    fn sizes_are_valid(&self, config: &Config) -> (r: bool)
        ensures
            r == forall|i: int|
                0 <= i < self.records().len() ==> (#[trigger] self.records()[i]).size_fits(*config),
    ;

    /// Numbers the files from one and tells each how many there are.
    fn update_number(&mut self)
        ensures
            final(self).records().len() == old(self).records().len(),
            forall|i: int|
                0 <= i < old(self).records().len() ==> (#[trigger] final(self).records()[i])
                    == (FileInfo {
                    number: (i + 1) as usize,
                    total: old(self).records().len() as usize,
                    ..old(self).records()[i]
                }),
    ;

    /// Gives each file the hash of its content, where every file could be
    /// hashed. `hashes` holds what hashing each file gave, in order: the
    /// hash, or what went wrong. One file that could not be hashed fails
    /// them all: the first failure is reported and no file is changed.
    fn update_hash(&mut self, hashes: Vec<Result<String, String>>) -> (r: WallSwitchResult<()>)
        requires
            hashes@.len() == old(self).records().len(),
        ensures
            match r {
                Ok(_) => {
                    &&& hash_failure(hashes@) is None
                    &&& final(self).records().len() == old(self).records().len()
                    &&& forall|i: int|
                        0 <= i < old(self).records().len() ==> hashes@[i] is Ok && (
                        #[trigger] final(self).records()[i]) == (FileInfo {
                            hash: hashes@[i]->Ok_0,
                            ..old(self).records()[i]
                        })
                },
                Err(e) => {
                    &&& hash_failure(hashes@) matches Some(cause)
                    &&& e@ == WallSwitchErrorView::Io(cause)
                    &&& final(self).records() == old(self).records()
                },
            },
    ;
}

/// What went wrong with the first of the files that could not be hashed;
/// `None` where every file was hashed.
pub open spec fn hash_failure(outcomes: Seq<Result<String, String>>) -> Option<Seq<char>>
    decreases outcomes.len(),
{
    if outcomes.len() == 0 {
        None
    } else {
        match hash_failure(outcomes.drop_last()) {
            Some(cause) => Some(cause),
            None => match outcomes.last() {
                Ok(_) => None,
                Err(cause) => Some(cause@),
            },
        }
    }
}

/// A failure among the first outcomes is the failure of the whole.
proof fn lemma_hash_failure_prefix(outcomes: Seq<Result<String, String>>, k: int)
    requires
        0 <= k <= outcomes.len(),
        hash_failure(outcomes.take(k)) is Some,
    ensures
        hash_failure(outcomes) == hash_failure(outcomes.take(k)),
    decreases outcomes.len() - k,
{
    if k < outcomes.len() {
        assert(outcomes.drop_last().take(k) =~= outcomes.take(k));
        lemma_hash_failure_prefix(outcomes.drop_last(), k);
    } else {
        assert(outcomes.take(k) =~= outcomes);
    }
}

/// Where nothing failed, every file was hashed.
pub proof fn lemma_hash_failure_none(outcomes: Seq<Result<String, String>>)
    requires
        hash_failure(outcomes) is None,
    ensures
        forall|i: int| 0 <= i < outcomes.len() ==> (#[trigger] outcomes[i]) is Ok,
    decreases outcomes.len(),
{
    if outcomes.len() > 0 {
        let front = outcomes.drop_last();
        lemma_hash_failure_none(front);
        assert forall|i: int| 0 <= i < outcomes.len() implies (#[trigger] outcomes[i]) is Ok by {
            if i < front.len() {
                assert(front[i] == outcomes[i]);
            }
        }
    }
}

impl FileInfoExt for [FileInfo] {
    open spec fn records(&self) -> Seq<FileInfo> {
        self@
    }

    fn get_width_min(&self) -> (r: Option<u64>) {
        if self.len() == 0 {
            return None;
        }
        let mut best: u64 = self[0].dimension.width;
        let mut i: usize = 1;
        while i < self.len()
            invariant
                1 <= i <= self@.len(),
                forall|k: int| 0 <= k < i ==> best <= (#[trigger] self@[k]).dimension.width,
                exists|k: int| 0 <= k < i && (#[trigger] self@[k]).dimension.width == best,
            decreases self@.len() - i,
        {
            if self[i].dimension.width < best {
                best = self[i].dimension.width;
            }
            i += 1;
        }
        Some(best)
    }

    fn get_max_size(&self) -> (r: Option<u64>) {
        if self.len() == 0 {
            return None;
        }
        let mut best: u64 = self[0].size;
        let mut i: usize = 1;
        while i < self.len()
            invariant
                1 <= i <= self@.len(),
                forall|k: int| 0 <= k < i ==> (#[trigger] self@[k]).size <= best,
                exists|k: int| 0 <= k < i && (#[trigger] self@[k]).size == best,
            decreases self@.len() - i,
        {
            if self[i].size > best {
                best = self[i].size;
            }
            i += 1;
        }
        Some(best)
    }

    fn get_max_number(&self) -> (r: Option<usize>) {
        if self.len() == 0 {
            return None;
        }
        let mut best: usize = self[0].number;
        let mut i: usize = 1;
        while i < self.len()
            invariant
                1 <= i <= self@.len(),
                forall|k: int| 0 <= k < i ==> (#[trigger] self@[k]).number <= best,
                exists|k: int| 0 <= k < i && (#[trigger] self@[k]).number == best,
            decreases self@.len() - i,
        {
            if self[i].number > best {
                best = self[i].number;
            }
            i += 1;
        }
        Some(best)
    }

    fn get_max_dimension(&self) -> (r: Option<u64>) {
        if self.len() == 0 {
            return None;
        }
        let mut best: u64 = self[0].dimension.maximum();
        let mut i: usize = 1;
        while i < self.len()
            invariant
                1 <= i <= self@.len(),
                forall|k: int| 0 <= k < i ==> (#[trigger] self@[k]).dimension.max_side() <= best,
                exists|k: int| 0 <= k < i && (#[trigger] self@[k]).dimension.max_side() == best,
            decreases self@.len() - i,
        {
            let side = self[i].dimension.maximum();
            if side > best {
                best = side;
            }
            i += 1;
        }
        Some(best)
    }

    fn sizes_are_valid(&self, config: &Config) -> (r: bool) {
        let mut i: usize = 0;
        while i < self.len()
            invariant
                i <= self@.len(),
                forall|k: int| 0 <= k < i ==> (#[trigger] self@[k]).size_fits(*config),
            decreases self@.len() - i,
        {
            if !self[i].size_is_valid(config) {
                assert(!self.records()[i as int].size_fits(*config));
                return false;
            }
            i += 1;
        }
        true
    }

    fn update_number(&mut self) {
        let total = self.len();
        let mut i: usize = 0;
        while i < total
            invariant
                i <= total,
                total == self@.len(),
                self@.len() == old(self)@.len(),
                forall|k: int|
                    0 <= k < i ==> (#[trigger] self@[k]) == (FileInfo {
                        number: (k + 1) as usize,
                        total,
                        ..old(self)@[k]
                    }),
                forall|k: int| i <= k < total ==> self@[k] == old(self)@[k],
            decreases total - i,
        {
            let mut file = self[i].clone();
            file.number = i + 1;
            file.total = total;
            self[i] = file;
            i += 1;
        }
    }

    fn update_hash(&mut self, hashes: Vec<Result<String, String>>) -> (r: WallSwitchResult<()>) {
        let total = self.len();
        let mut k: usize = 0;
        assert(hashes@.take(0) =~= Seq::<Result<String, String>>::empty());
        while k < total
            invariant
                k <= total,
                total == self@.len(),
                self@ == old(self)@,
                hashes@.len() == total,
                hash_failure(hashes@.take(k as int)) is None,
            decreases total - k,
        {
            proof {
                let next = hashes@.take(k + 1);
                assert(next.drop_last() =~= hashes@.take(k as int));
                assert(next.last() == hashes@[k as int]);
            }
            match &hashes[k] {
                Ok(_) => {},
                Err(cause) => {
                    proof {
                        lemma_hash_failure_prefix(hashes@, k + 1);
                    }
                    return Err(WallSwitchError::Io(cause.clone()));
                },
            }
            k += 1;
        }
        proof {
            assert(hashes@.take(total as int) =~= hashes@);
            lemma_hash_failure_none(hashes@);
        }
        let mut i: usize = 0;
        while i < total
            invariant
                i <= total,
                total == self@.len(),
                self@.len() == old(self)@.len(),
                hashes@.len() == total,
                forall|j: int| 0 <= j < total ==> (#[trigger] hashes@[j]) is Ok,
                forall|j: int|
                    0 <= j < i ==> (#[trigger] self@[j]) == (FileInfo {
                        hash: hashes@[j]->Ok_0,
                        ..old(self)@[j]
                    }),
                forall|j: int| i <= j < total ==> self@[j] == old(self)@[j],
            decreases total - i,
        {
            assert(hashes@[i as int] is Ok);
            match &hashes[i] {
                Ok(hash) => {
                    let mut file = self[i].clone();
                    file.hash = hash.clone();
                    self[i] = file;
                },
                Err(_) => {},
            }
            i += 1;
        }
        Ok(())
    }
}

/// A list of image files as a table: one line for each file, the columns
/// aligned.
pub struct SliceDisplay<'a>(pub &'a [FileInfo]);

/// The largest number of any of the files; zero where there is none.
pub open spec fn max_number(files: Seq<FileInfo>) -> nat
    decreases files.len(),
{
    if files.len() == 0 {
        0
    } else if files.last().number >= max_number(files.drop_last()) {
        files.last().number as nat
    } else {
        max_number(files.drop_last())
    }
}

/// The largest size of any of the files; zero where there is none.
pub open spec fn max_size(files: Seq<FileInfo>) -> nat
    decreases files.len(),
{
    if files.len() == 0 {
        0
    } else if files.last().size >= max_size(files.drop_last()) {
        files.last().size as nat
    } else {
        max_size(files.drop_last())
    }
}

/// The largest side of any of the images; zero where there is none.
pub open spec fn max_dimension(files: Seq<FileInfo>) -> nat
    decreases files.len(),
{
    if files.len() == 0 {
        0
    } else if files.last().dimension.max_side() >= max_dimension(files.drop_last()) {
        files.last().dimension.max_side() as nat
    } else {
        max_dimension(files.drop_last())
    }
}

/// The line of the table for one file. The number is padded with zeros to
/// `number_width` characters; sides and size are right-aligned to
/// `dimension_width` and `size_width` characters.
pub open spec fn table_line(
    file: FileInfo,
    number_width: nat,
    size_width: nat,
    dimension_width: nat,
) -> Seq<char> {
    "images["@ + pad_left_spec(decimal(file.number as nat), number_width, '0') + "/"@ + decimal(
        file.total as nat,
    ) + "]: Dimension { width: "@ + pad_left_spec(
        decimal(file.dimension.width as nat),
        dimension_width,
        ' ',
    ) + ", height: "@ + pad_left_spec(decimal(file.dimension.height as nat), dimension_width, ' ')
        + " }, size: "@ + pad_left_spec(decimal(file.size as nat), size_width, ' ') + ", path: "@
        + debug_spec(file.path@) + "\n"@
}

/// The first `n` lines of the table of `files`.
pub open spec fn table_lines(files: Seq<FileInfo>, n: int) -> Seq<char>
    decreases n,
{
    if n <= 0 {
        Seq::<char>::empty()
    } else {
        table_lines(files, n - 1) + table_line(
            files[n - 1],
            decimal(max_number(files)).len(),
            decimal(max_size(files)).len(),
            decimal(max_dimension(files)).len(),
        )
    }
}

/// The largest number, size and side of the files.
fn maxima(files: &[FileInfo]) -> (r: (usize, u64, u64))
    ensures
        r.0 == max_number(files@),
        r.1 == max_size(files@),
        r.2 == max_dimension(files@),
{
    let mut number: usize = 0;
    let mut size: u64 = 0;
    let mut side: u64 = 0;
    let mut i: usize = 0;
    assert(files@.take(0) =~= Seq::<FileInfo>::empty());
    while i < files.len()
        invariant
            i <= files@.len(),
            number == max_number(files@.take(i as int)),
            size == max_size(files@.take(i as int)),
            side == max_dimension(files@.take(i as int)),
        decreases files@.len() - i,
    {
        proof {
            let next = files@.take(i + 1);
            assert(next.drop_last() =~= files@.take(i as int));
            assert(next.last() == files@[i as int]);
        }
        if files[i].number >= number {
            number = files[i].number;
        }
        if files[i].size >= size {
            size = files[i].size;
        }
        let longer = files[i].dimension.maximum();
        if longer >= side {
            side = longer;
        }
        i += 1;
    }
    assert(files@.take(files@.len() as int) =~= files@);
    (number, size, side)
}

impl SliceDisplay<'_> {
    /// The table of the files: a line for each, in order.
    pub fn to_string(&self) -> (r: String)
        ensures
            r@ == table_lines(self.0@, self.0@.len() as int),
    {
        let files = self.0;
        let (number, size, side) = maxima(files);
        let number_width = decimal_width(number as u64);
        let size_width = decimal_width(size);
        let dimension_width = decimal_width(side);
        let mut r = String::new();
        let mut n: usize = 0;
        while n < files.len()
            invariant
                n <= files@.len(),
                number_width == decimal(max_number(files@)).len(),
                size_width == decimal(max_size(files@)).len(),
                dimension_width == decimal(max_dimension(files@)).len(),
                r@ == table_lines(files@, n as int),
            decreases files@.len() - n,
        {
            let file = &files[n];
            let mut line = String::from_str("images[");
            line.append(
                pad_left(u64_to_string(file.number as u64).as_str(), number_width, '0').as_str(),
            );
            line.append("/");
            line.append(u64_to_string(file.total as u64).as_str());
            line.append("]: Dimension { width: ");
            line.append(
                pad_left(
                    u64_to_string(file.dimension.width).as_str(),
                    dimension_width,
                    ' ',
                ).as_str(),
            );
            line.append(", height: ");
            line.append(
                pad_left(
                    u64_to_string(file.dimension.height).as_str(),
                    dimension_width,
                    ' ',
                ).as_str(),
            );
            line.append(" }, size: ");
            line.append(pad_left(u64_to_string(file.size).as_str(), size_width, ' ').as_str());
            line.append(", path: ");
            line.append(debug_text(file.path.as_str()).as_str());
            line.append("\n");
            r.append(line.as_str());
            n += 1;
        }
        r
    }
}

/// The text that stands for the content written in the pieces `chunks`: the
/// decimal notation of its 64-bit hash.
pub open spec fn hash_text(chunks: Seq<Seq<u8>>) -> Seq<char> {
    decimal(DefaultHasher::spec_finish(chunks) as nat)
}

/// The number of bytes that are hashed at a time.
pub const BUFFER_SIZE: usize = 65536;

/// The content cut into blocks of [`BUFFER_SIZE`] bytes; the last block
/// holds what is left.
pub open spec fn blocks(content: Seq<u8>) -> Seq<Seq<u8>>
    decreases content.len(),
{
    if content.len() == 0 {
        Seq::<Seq<u8>>::empty()
    } else if content.len() < BUFFER_SIZE {
        seq![content]
    } else {
        seq![content.take(BUFFER_SIZE as int)] + blocks(content.skip(BUFFER_SIZE as int))
    }
}

/// The text that stands for a content: the decimal notation of the hash of
/// its blocks. Equal contents have equal texts.
pub open spec fn content_hash(content: Seq<u8>) -> Seq<char> {
    hash_text(blocks(content))
}

/// The pieces, one after the other.
pub open spec fn flat(pieces: Seq<Seq<u8>>) -> Seq<u8>
    decreases pieces.len(),
{
    if pieces.len() == 0 {
        Seq::<u8>::empty()
    } else {
        pieces[0] + flat(pieces.drop_first())
    }
}

/// Whether every piece is a block of [`BUFFER_SIZE`] bytes.
pub open spec fn all_full(pieces: Seq<Seq<u8>>) -> bool {
    forall|i: int| 0 <= i < pieces.len() ==> (#[trigger] pieces[i]).len() == BUFFER_SIZE
}

/// A piece more at the end is a piece more at the end of the whole.
proof fn lemma_flat_push(pieces: Seq<Seq<u8>>, piece: Seq<u8>)
    ensures
        flat(pieces.push(piece)) == flat(pieces) + piece,
    decreases pieces.len(),
{
    if pieces.len() == 0 {
        let none = Seq::<Seq<u8>>::empty();
        assert(pieces.push(piece).drop_first() =~= none);
        assert(flat(none) =~= Seq::<u8>::empty());
        assert(flat(pieces) =~= Seq::<u8>::empty());
        assert(pieces.push(piece)[0] == piece);
        assert(flat(pieces.push(piece)) =~= flat(pieces) + piece);
    } else {
        lemma_flat_push(pieces.drop_first(), piece);
        assert(pieces.push(piece).drop_first() =~= pieces.drop_first().push(piece));
        assert(flat(pieces.push(piece)) =~= flat(pieces) + piece);
    }
}

/// Full blocks followed by less than a block are the blocks of the whole.
proof fn lemma_blocks_of_flat(pieces: Seq<Seq<u8>>, rest: Seq<u8>)
    requires
        all_full(pieces),
        rest.len() < BUFFER_SIZE,
    ensures
        blocks(flat(pieces) + rest) == if rest.len() > 0 {
            pieces.push(rest)
        } else {
            pieces
        },
    decreases pieces.len(),
{
    let content = flat(pieces) + rest;
    if pieces.len() == 0 {
        assert(content =~= rest);
        if rest.len() > 0 {
            assert(pieces.push(rest) =~= seq![rest]);
        } else {
            assert(pieces =~= Seq::<Seq<u8>>::empty());
        }
    } else {
        let tail = pieces.drop_first();
        assert(all_full(tail)) by {
            assert forall|i: int| 0 <= i < tail.len() implies (#[trigger] tail[i]).len()
                == BUFFER_SIZE by {
                assert(tail[i] == pieces[i + 1]);
            }
        }
        lemma_blocks_of_flat(tail, rest);
        assert(pieces[0].len() == BUFFER_SIZE);
        assert(content.take(BUFFER_SIZE as int) =~= pieces[0]);
        assert(content.skip(BUFFER_SIZE as int) =~= flat(tail) + rest);
        if rest.len() > 0 {
            assert(seq![pieces[0]] + tail.push(rest) =~= pieces.push(rest));
        } else {
            assert(seq![pieces[0]] + tail =~= pieces);
        }
    }
}

/// A running hash of a content that comes in pieces of any size. The hash
/// depends on the content alone, not on how it was cut.
pub struct ContentHasher {
    hasher: DefaultHasher,
    buffer: Vec<u8>,
}

impl ContentHasher {
    /// The content taken in so far.
    pub closed spec fn content(&self) -> Seq<u8> {
        flat(self.hasher@) + self.buffer@
    }

    /// What came in full blocks is hashed; less than a block waits.
    #[verifier::type_invariant]
    spec fn well_formed(self) -> bool {
        all_full(self.hasher@) && self.buffer@.len() < BUFFER_SIZE
    }

    /// A hasher that has taken in nothing.
    pub fn new() -> (r: ContentHasher)
        ensures
            r.content() == Seq::<u8>::empty(),
    {
        let r = ContentHasher { hasher: DefaultHasher::new(), buffer: Vec::new() };
        assert(r.content() =~= Seq::<u8>::empty());
        r
    }

    /// Takes in the next piece of content.
    pub fn write(self, bytes: &[u8]) -> (r: ContentHasher)
        ensures
            r.content() == self.content() + bytes@,
    {
        proof {
            use_type_invariant(&self);
        }
        let mut hasher = self.hasher;
        let mut buffer = self.buffer;
        let mut at: usize = 0;
        assert(self.content() + bytes@.take(0) =~= self.content());
        while at < bytes.len()
            invariant
                at <= bytes@.len(),
                all_full(hasher@),
                buffer@.len() < BUFFER_SIZE,
                flat(hasher@) + buffer@ == self.content() + bytes@.take(at as int),
            decreases bytes@.len() - at,
        {
            let ghost before = flat(hasher@) + buffer@;
            buffer.push(bytes[at]);
            at += 1;
            assert(bytes@.take(at as int) =~= bytes@.take(at - 1).push(bytes@[at - 1]));
            assert(flat(hasher@) + buffer@ =~= before.push(bytes@[at - 1]));
            if buffer.len() == BUFFER_SIZE {
                let ghost full = buffer@;
                let ghost hashed = hasher@;
                hasher.write(buffer.as_slice());
                buffer.clear();
                proof {
                    lemma_flat_push(hashed, full);
                    assert(flat(hasher@) + buffer@ =~= flat(hashed) + full);
                }
            }
        }
        assert(bytes@.take(bytes@.len() as int) =~= bytes@);
        ContentHasher { hasher, buffer }
    }

    /// The hash of the content, as text.
    pub fn finish(self) -> (r: String)
        ensures
            r@ == content_hash(self.content()),
    {
        proof {
            use_type_invariant(&self);
        }
        let mut hasher = self.hasher;
        proof {
            lemma_blocks_of_flat(hasher@, self.buffer@);
        }
        if self.buffer.len() > 0 {
            hasher.write(self.buffer.as_slice());
        }
        u64_to_string(hasher.finish())
    }
}

/// The hash of a content, as text. Equal contents give equal hashes.
pub fn get_hash(content: &[u8]) -> (r: String)
    ensures
        r@ == content_hash(content@),
{
    let hasher = ContentHasher::new().write(content);
    assert(Seq::<u8>::empty() + content@ =~= content@);
    hasher.finish()
}

} // verus!
