//! Groups of images: how the pool is cut into them, and how a group is
//! validated.

use crate::config::Config;
use crate::dimension::{split_str_spec, Dimension};
use crate::error::{error_views, DimensionErrorView, WallSwitchError, WallSwitchErrorView};
use crate::fileinfo::FileInfo;
use crate::path::{file_name, file_name_spec};
use crate::text::texts;
use vstd::arithmetic::div_mod::lemma_fundamental_div_mod;
use vstd::prelude::*;

verus! {

/// The number of whole groups of `size` images in a pool of `len` images.
pub open spec fn chunk_count(len: int, size: int) -> int {
    if size > 0 {
        len / size
    } else {
        0
    }
}

/// The `index`-th group of `size` images.
pub open spec fn chunk_of(pool: Seq<FileInfo>, size: int, index: int) -> Seq<FileInfo> {
    pool.subrange(index * size, index * size + size)
}

/// The reports on a file whose size is outside the bounds: what the size
/// is and should be, and which file is disregarded for it.
pub open spec fn size_reports(file: FileInfo, config: Config) -> Seq<WallSwitchErrorView> {
    seq![
        WallSwitchErrorView::InvalidSize {
            min_size: config.min_size,
            size: file.size,
            max_size: config.max_size,
        },
        WallSwitchErrorView::DisregardPath(file.path@),
    ]
}

/// The reports on the first of the files whose size is outside the bounds;
/// `None` where every size is inside.
pub open spec fn size_fault(files: Seq<FileInfo>, config: Config) -> Option<
    Seq<WallSwitchErrorView>,
>
    decreases files.len(),
{
    if files.len() == 0 {
        None
    } else {
        match size_fault(files.drop_last(), config) {
            Some(reports) => Some(reports),
            None => if files.last().size_fits(config) {
                None
            } else {
                Some(size_reports(files.last(), config))
            },
        }
    }
}

/// The file with the dimension that the probe answered, if the answer is
/// well formed, the dimension within bounds and the file not named like
/// the wallpaper; the report on what is wrong otherwise.
pub open spec fn file_verdict(file: FileInfo, answer: Seq<char>, config: Config) -> Result<
    FileInfo,
    WallSwitchErrorView,
> {
    match split_str_spec(answer) {
        Err(cause) => Err(WallSwitchErrorView::InvalidDimension(cause)),
        Ok(numbers) => {
            let figure = FileInfo {
                dimension: Dimension { width: numbers[0], height: numbers[1] },
                ..file
            };
            if !figure.dimension_fits(config) {
                Err(
                    WallSwitchErrorView::InvalidDimension(
                        DimensionErrorView::DimensionFormatError {
                            dimension: figure.dimension,
                            log_min: figure.dimension.log_min(
                                config.min_dimension,
                                config.max_dimension,
                            ),
                            log_max: figure.dimension.log_max(
                                config.min_dimension,
                                config.max_dimension,
                            ),
                            path: figure.path@,
                        },
                    ),
                )
            } else if !figure.name_fits(config) {
                Err(
                    WallSwitchErrorView::InvalidFilename(
                        match file_name_spec(figure.path@) {
                            Some(name) => name,
                            None => figure.path@,
                        },
                    ),
                )
            } else {
                Ok(figure)
            }
        },
    }
}

/// The answer for the `index`-th image; an answer that is missing counts as
/// an empty one.
pub open spec fn answer_at(answers: Seq<Seq<char>>, index: int) -> Seq<char> {
    if 0 <= index < answers.len() {
        answers[index]
    } else {
        Seq::<char>::empty()
    }
}

/// The group with the dimensions that the probes answered, if every image
/// passes; otherwise the report on the first image that does not.
pub open spec fn chunk_verdict(files: Seq<FileInfo>, answers: Seq<Seq<char>>, config: Config)
    -> Result<Seq<FileInfo>, WallSwitchErrorView>
    decreases files.len(),
{
    if files.len() == 0 {
        Ok(Seq::<FileInfo>::empty())
    } else {
        match chunk_verdict(files.drop_last(), answers, config) {
            Err(e) => Err(e),
            Ok(figures) => match file_verdict(
                files.last(),
                answer_at(answers, files.len() - 1),
                config,
            ) {
                Err(e) => Err(e),
                Ok(figure) => Ok(figures.push(figure)),
            },
        }
    }
}

/// Validation is idempotent: a file that passed with an answer passes with
/// it again, unchanged.
pub proof fn lemma_file_verdict_idempotent(file: FileInfo, answer: Seq<char>, config: Config)
    requires
        file_verdict(file, answer, config) is Ok,
    ensures
        file_verdict(file_verdict(file, answer, config)->Ok_0, answer, config) == file_verdict(
            file,
            answer,
            config,
        ),
        file_verdict(file, answer, config)->Ok_0.dimension_fits(config),
        file_verdict(file, answer, config)->Ok_0.name_fits(config),
{
}

/// A group that passed passes again, unchanged, and each of its images has
/// a dimension within bounds and a name of its own.
pub proof fn lemma_chunk_verdict_idempotent(
    files: Seq<FileInfo>,
    answers: Seq<Seq<char>>,
    config: Config,
)
    requires
        chunk_verdict(files, answers, config) is Ok,
    ensures
        chunk_verdict(chunk_verdict(files, answers, config)->Ok_0, answers, config)
            == chunk_verdict(files, answers, config),
        chunk_verdict(files, answers, config)->Ok_0.len() == files.len(),
        forall|i: int|
            0 <= i < files.len() ==> {
                let figure = #[trigger] chunk_verdict(files, answers, config)->Ok_0[i];
                &&& figure.dimension_fits(config)
                &&& figure.name_fits(config)
                &&& figure == FileInfo { dimension: figure.dimension, ..files[i] }
            },
    decreases files.len(),
{
    if files.len() > 0 {
        let front = files.drop_last();
        lemma_chunk_verdict_idempotent(front, answers, config);
        let figures = chunk_verdict(files, answers, config)->Ok_0;
        let before = chunk_verdict(front, answers, config)->Ok_0;
        lemma_file_verdict_idempotent(files.last(), answer_at(answers, files.len() - 1), config);
        assert(figures.drop_last() =~= before);
        assert forall|i: int| 0 <= i < files.len() implies {
            let figure = #[trigger] figures[i];
            &&& figure.dimension_fits(config)
            &&& figure.name_fits(config)
            &&& figure == FileInfo { dimension: figure.dimension, ..files[i] }
        } by {
            if i < front.len() {
                assert(figures[i] == before[i]);
                assert(front[i] == files[i]);
            }
        }
    }
}

/// Where no size is at fault, every size is within bounds.
pub proof fn lemma_size_fault_none(files: Seq<FileInfo>, config: Config)
    requires
        size_fault(files, config) is None,
    ensures
        forall|i: int| 0 <= i < files.len() ==> (#[trigger] files[i]).size_fits(config),
    decreases files.len(),
{
    if files.len() > 0 {
        let front = files.drop_last();
        lemma_size_fault_none(front, config);
        assert forall|i: int| 0 <= i < files.len() implies (#[trigger] files[i]).size_fits(
            config,
        ) by {
            if i < front.len() {
                assert(front[i] == files[i]);
            }
        }
    }
}

/// A failure among the first files is the failure of the whole.
proof fn lemma_size_fault_prefix(files: Seq<FileInfo>, k: int, config: Config)
    requires
        0 <= k <= files.len(),
        size_fault(files.take(k), config) is Some,
    ensures
        size_fault(files, config) == size_fault(files.take(k), config),
    decreases files.len() - k,
{
    if k < files.len() {
        assert(files.drop_last().take(k) =~= files.take(k));
        lemma_size_fault_prefix(files.drop_last(), k, config);
    } else {
        assert(files.take(k) =~= files);
    }
}

/// A failure among the first files is the failure of the whole.
proof fn lemma_chunk_verdict_prefix(
    files: Seq<FileInfo>,
    k: int,
    answers: Seq<Seq<char>>,
    config: Config,
)
    requires
        0 <= k <= files.len(),
        chunk_verdict(files.take(k), answers, config) is Err,
    ensures
        chunk_verdict(files, answers, config) == chunk_verdict(files.take(k), answers, config),
    decreases files.len() - k,
{
    if k < files.len() {
        assert(files.drop_last().take(k) =~= files.take(k));
        lemma_chunk_verdict_prefix(files.drop_last(), k, answers, config);
    } else {
        assert(files.take(k) =~= files);
    }
}

/// The groups are cut one after the other, each of `size` images; what is
/// left of the pool after the last whole group is less than a group and
/// belongs to none.
pub proof fn lemma_chunks_tile_the_pool(pool: Seq<FileInfo>, size: int)
    requires
        size > 0,
    ensures
        forall|index: int|
            0 <= index < chunk_count(pool.len() as int, size) ==> (#[trigger] chunk_of(
                pool,
                size,
                index,
            )).len() == size,
        forall|index: int, i: int|
            0 <= index < chunk_count(pool.len() as int, size) && 0 <= i < size ==> (
            #[trigger] chunk_of(pool, size, index)[i]) == pool[index * size + i],
        pool.len() - chunk_count(pool.len() as int, size) * size == pool.len() % (size as nat),
        0 <= pool.len() - chunk_count(pool.len() as int, size) * size < size,
{
    let len = pool.len() as int;
    assert forall|index: int| 0 <= index < chunk_count(len, size) implies (#[trigger] chunk_of(
        pool,
        size,
        index,
    )).len() == size by {
        lemma_chunk_bounds(len, size, index);
    }
    assert forall|index: int, i: int|
        0 <= index < chunk_count(len, size) && 0 <= i < size implies (#[trigger] chunk_of(
        pool,
        size,
        index,
    )[i]) == pool[index * size + i] by {
        lemma_chunk_bounds(len, size, index);
    }
    lemma_fundamental_div_mod(len, size);
    assert(size * (len / size) == (len / size) * size) by (nonlinear_arith);
}

/// Where the `index`-th group lies in the pool.
pub proof fn lemma_chunk_bounds(len: int, size: int, index: int)
    requires
        size > 0,
        len >= 0,
        0 <= index < len / size,
    ensures
        0 <= index * size,
        index * size + size <= len,
{
    lemma_fundamental_div_mod(len, size);
    let count = len / size;
    assert(index * size + size <= count * size) by (nonlinear_arith)
        requires
            0 <= index < count,
            size > 0,
    ;
    assert(size * count == count * size) by (nonlinear_arith);
    assert(0 <= index * size) by (nonlinear_arith)
        requires
            0 <= index,
            size > 0,
    ;
}

/// The reports on the first of the files whose size is outside the bounds:
/// the size error, and the path of the file that is disregarded for it.
pub fn first_size_error(files: &[FileInfo], config: &Config) -> (r: Option<Vec<WallSwitchError>>)
    ensures
        match r {
            Some(reports) => size_fault(files@, *config) == Some(error_views(reports@)),
            None => size_fault(files@, *config) is None,
        },
{
    let mut i: usize = 0;
    assert(files@.take(0) =~= Seq::<FileInfo>::empty());
    while i < files.len()
        invariant
            i <= files@.len(),
            size_fault(files@.take(i as int), *config) is None,
        decreases files@.len() - i,
    {
        proof {
            let next = files@.take(i + 1);
            assert(next.drop_last() =~= files@.take(i as int));
            assert(next.last() == files@[i as int]);
        }
        match files[i].size_error(config) {
            Some(e) => {
                let mut reports: Vec<WallSwitchError> = Vec::new();
                reports.push(e);
                reports.push(WallSwitchError::DisregardPath(files[i].path.clone()));
                proof {
                    lemma_size_fault_prefix(files@, i + 1, *config);
                    assert(error_views(reports@) =~= size_reports(files@[i as int], *config));
                }
                return Some(reports);
            },
            None => {},
        }
        i += 1;
    }
    assert(files@.take(files@.len() as int) =~= files@);
    None
}

/// Gives a file the dimension that its probe answered and checks dimension
/// and name.
pub fn validate_file(file: &FileInfo, answer: &str, config: &Config) -> (r: Result<
    FileInfo,
    WallSwitchError,
>)
    ensures
        match r {
            Ok(figure) => file_verdict(*file, answer@, *config) == Ok::<
                FileInfo,
                WallSwitchErrorView,
            >(figure),
            Err(e) => file_verdict(*file, answer@, *config) == Err::<FileInfo, WallSwitchErrorView>(
                e@,
            ),
        },
{
    let mut figure = file.clone();
    match figure.update_info(answer) {
        Err(e) => {
            return Err(e);
        },
        Ok(_) => {},
    }
    match figure.dimension_error(config) {
        Some(e) => {
            return Err(e);
        },
        None => {},
    }
    if !figure.name_is_valid(config) {
        let name = match file_name(figure.path.as_str()) {
            Some(name) => name,
            None => figure.path.clone(),
        };
        return Err(WallSwitchError::InvalidFilename(name));
    }
    Ok(figure)
}

/// Gives each image of a group the dimension that its probe answered and
/// checks dimensions and names: one image that fails fails the group.
pub fn validate_chunk(files: &[FileInfo], answers: &Vec<String>, config: &Config) -> (r: Result<
    Vec<FileInfo>,
    WallSwitchError,
>)
    ensures
        match r {
            Ok(figures) => chunk_verdict(files@, texts(answers@), *config) == Ok::<
                Seq<FileInfo>,
                WallSwitchErrorView,
            >(figures@),
            Err(e) => chunk_verdict(files@, texts(answers@), *config) == Err::<
                Seq<FileInfo>,
                WallSwitchErrorView,
            >(e@),
        },
{
    let mut figures: Vec<FileInfo> = Vec::new();
    let mut i: usize = 0;
    assert(files@.take(0) =~= Seq::<FileInfo>::empty());
    while i < files.len()
        invariant
            i <= files@.len(),
            chunk_verdict(files@.take(i as int), texts(answers@), *config) == Ok::<
                Seq<FileInfo>,
                WallSwitchErrorView,
            >(figures@),
        decreases files@.len() - i,
    {
        proof {
            let next = files@.take(i + 1);
            assert(next.drop_last() =~= files@.take(i as int));
            assert(next.last() == files@[i as int]);
        }
        let verdict = if i < answers.len() {
            validate_file(&files[i], answers[i].as_str(), config)
        } else {
            proof {
                reveal_strlit("");
                assert(""@ =~= Seq::<char>::empty());
            }
            validate_file(&files[i], "", config)
        };
        match verdict {
            Ok(figure) => {
                figures.push(figure);
            },
            Err(e) => {
                proof {
                    lemma_chunk_verdict_prefix(files@, i + 1, texts(answers@), *config);
                }
                return Err(e);
            },
        }
        i += 1;
    }
    assert(files@.take(files@.len() as int) =~= files@);
    Ok(figures)
}

/// A copy of the files.
pub fn copy_files(files: &[FileInfo]) -> (r: Vec<FileInfo>)
    ensures
        r@ == files@,
{
    let mut r: Vec<FileInfo> = Vec::new();
    let mut i: usize = 0;
    while i < files.len()
        invariant
            i <= files@.len(),
            r@ == files@.take(i as int),
        decreases files@.len() - i,
    {
        r.push(files[i].clone());
        i += 1;
        assert(files@.take(i as int) =~= files@.take(i - 1).push(files@[i - 1]));
    }
    assert(files@.take(files@.len() as int) =~= files@);
    r
}

} // verus!
