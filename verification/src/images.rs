//! From the files that a scan found to the ordered pool of images.

use crate::config::Config;
use crate::decimal::{decimal, decimal_width, u64_to_string};
use crate::error::{
    debug_list, debug_list_text, WallSwitchError, WallSwitchErrorView, WallSwitchResult,
};
use crate::fileinfo::{FileInfo, FileInfoExt};
use crate::random::{
    lemma_shuffled_is_permutation, pick, rand, shuffle_steps, shuffle_with, shuffled, swapped,
};
use crate::text::{debug_spec, debug_text, lemma_texts_push, pad_left, pad_left_spec, texts};
use crate::traits::{painted, Colors, YELLOW};
use vstd::prelude::*;
use vstd::string::StringExecFns;

verus! {

/// Whether one of the files has the content hash `hash`.
pub open spec fn hash_seen(files: Seq<FileInfo>, hash: Seq<char>) -> bool {
    exists|k: int| 0 <= k < files.len() && (#[trigger] files[k]).hash@ == hash
}

/// The files without those whose content hash an earlier file has: of files
/// with the same content the first one stays.
pub open spec fn distinct(files: Seq<FileInfo>) -> Seq<FileInfo>
    decreases files.len(),
{
    if files.len() == 0 {
        Seq::<FileInfo>::empty()
    } else if hash_seen(files.drop_last(), files.last().hash@) {
        distinct(files.drop_last())
    } else {
        distinct(files.drop_last()).push(files.last())
    }
}

/// No two of the files have the same content hash.
pub open spec fn hashes_differ(files: Seq<FileInfo>) -> bool {
    forall|i: int, j: int|
        0 <= i < j < files.len() ==> (#[trigger] files[i]).hash@ != (#[trigger] files[j]).hash@
}

/// Leaving out repeated contents keeps every content, once.
pub proof fn lemma_distinct(files: Seq<FileInfo>)
    ensures
        hashes_differ(distinct(files)),
        forall|hash: Seq<char>|
            #![trigger hash_seen(distinct(files), hash)]
            #![trigger hash_seen(files, hash)]
            hash_seen(distinct(files), hash) <==> hash_seen(files, hash),
        distinct(files).len() <= files.len(),
        files.len() > 0 ==> distinct(files).len() > 0,
    decreases files.len(),
{
    if files.len() > 0 {
        let front = files.drop_last();
        let last = files.last();
        lemma_distinct(front);
        let kept = distinct(front);
        let all = distinct(files);
        assert forall|hash: Seq<char>| hash_seen(all, hash) <==> hash_seen(files, hash) by {
            if hash_seen(all, hash) {
                let k = choose|k: int| 0 <= k < all.len() && (#[trigger] all[k]).hash@ == hash;
                if k < kept.len() {
                    assert(kept[k].hash@ == hash);
                    assert(hash_seen(kept, hash));
                    let m = choose|m: int| 0 <= m < front.len() && (#[trigger] front[m]).hash@ == hash;
                    assert(files[m].hash@ == hash);
                } else {
                    assert(files[files.len() - 1].hash@ == hash);
                }
            }
            if hash_seen(files, hash) {
                let m = choose|m: int| 0 <= m < files.len() && (#[trigger] files[m]).hash@ == hash;
                if m < front.len() {
                    assert(front[m].hash@ == hash);
                    assert(hash_seen(kept, hash));
                    let k = choose|k: int| 0 <= k < kept.len() && (#[trigger] kept[k]).hash@ == hash;
                    assert(all[k].hash@ == hash);
                } else if hash_seen(front, last.hash@) {
                    assert(hash_seen(kept, hash));
                    let k = choose|k: int| 0 <= k < kept.len() && (#[trigger] kept[k]).hash@ == hash;
                    assert(all[k].hash@ == hash);
                } else {
                    assert(all[all.len() - 1].hash@ == hash);
                }
            }
        }
        assert forall|i: int, j: int| 0 <= i < j < all.len() implies (#[trigger] all[i]).hash@ != (
        #[trigger] all[j]).hash@ by {
            if j < kept.len() {
                assert(kept[i].hash@ != kept[j].hash@);
            } else {
                assert(kept[i] == all[i]);
                if all[i].hash@ == last.hash@ {
                    assert(hash_seen(kept, last.hash@));
                }
            }
        }
        if front.len() == 0 {
            assert(!hash_seen(front, last.hash@));
        }
    }
}

/// Whether the file at `index` is the first with its content: no file
/// before it has its content hash.
pub open spec fn is_first_seen(files: Seq<FileInfo>, index: int) -> bool {
    0 <= index < files.len() && !hash_seen(files.take(index), files[index].hash@)
}

/// The positions of the files that are the first with their content, in
/// rising order.
pub open spec fn first_seen(files: Seq<FileInfo>) -> Seq<int>
    decreases files.len(),
{
    if files.len() == 0 {
        Seq::<int>::empty()
    } else if hash_seen(files.drop_last(), files.last().hash@) {
        first_seen(files.drop_last())
    } else {
        first_seen(files.drop_last()).push(files.len() - 1)
    }
}

/// The files that stay are those that were seen first with their content,
/// and they stay in the order in which they were found: the `j`-th of them
/// is the file at the `j`-th of the positions `first_seen`, these positions
/// rise, and they are all the positions of files seen first.
pub proof fn lemma_distinct_first_seen(files: Seq<FileInfo>)
    ensures
        distinct(files).len() == first_seen(files).len(),
        forall|j: int|
            0 <= j < first_seen(files).len() ==> {
                let at = #[trigger] first_seen(files)[j];
                &&& is_first_seen(files, at)
                &&& distinct(files)[j] == files[at]
            },
        forall|i: int, j: int|
            0 <= i < j < first_seen(files).len() ==> first_seen(files)[i] < first_seen(files)[j],
        forall|k: int| is_first_seen(files, k) ==> first_seen(files).contains(k),
    decreases files.len(),
{
    if files.len() > 0 {
        let front = files.drop_last();
        let last = files.len() - 1;
        lemma_distinct_first_seen(front);
        let before = first_seen(front);
        let all = first_seen(files);
        assert(files.take(last) =~= front);
        assert forall|j: int| 0 <= j < all.len() implies {
            let at = #[trigger] all[j];
            &&& is_first_seen(files, at)
            &&& distinct(files)[j] == files[at]
        } by {
            if j < before.len() {
                let at = before[j];
                assert(is_first_seen(front, at));
                assert(front.take(at) =~= files.take(at));
                assert(front[at] == files[at]);
                assert(distinct(front)[j] == front[at]);
            }
        }
        assert forall|i: int, j: int| 0 <= i < j < all.len() implies all[i] < all[j] by {
            assert(is_first_seen(front, before[i]));
            if j < before.len() {
                assert(before[i] < before[j]);
            }
        }
        assert forall|k: int| is_first_seen(files, k) implies all.contains(k) by {
            if k < last {
                assert(front.take(k) =~= files.take(k));
                assert(front[k] == files[k]);
                assert(is_first_seen(front, k));
                assert(before.contains(k));
                let j = choose|j: int| 0 <= j < before.len() && before[j] == k;
                assert(all[j] == k);
            } else {
                assert(all[all.len() - 1] == k);
            }
        }
    }
}

/// Whether `files` holds a file with the content hash of `file`.
fn holds_hash(files: &Vec<FileInfo>, file: &FileInfo) -> (r: bool)
    ensures
        r == hash_seen(files@, file.hash@),
{
    let mut k: usize = 0;
    while k < files.len()
        invariant
            k <= files@.len(),
            forall|m: int| 0 <= m < k ==> (#[trigger] files@[m]).hash@ != file.hash@,
        decreases files@.len() - k,
    {
        if files[k].hash == file.hash {
            assert(files@[k as int].hash@ == file.hash@);
            return true;
        }
        k += 1;
    }
    false
}

/// Leaves out every file whose content an earlier file has. No two of the
/// files that stay have the same content hash, and every content hash that
/// was found stays. The files that stay are those seen first with their
/// content, in the order in which they were found.
pub fn gather_files(found: &[FileInfo]) -> (r: Vec<FileInfo>)
    ensures
        r@ == distinct(found@),
        hashes_differ(r@),
        forall|hash: Seq<char>|
            #![trigger hash_seen(r@, hash)]
            #![trigger hash_seen(found@, hash)]
            hash_seen(r@, hash) <==> hash_seen(found@, hash),
        r@.len() == first_seen(found@).len(),
        forall|j: int|
            0 <= j < r@.len() ==> #[trigger] r@[j] == found@[first_seen(found@)[j]] && is_first_seen(
                found@,
                first_seen(found@)[j],
            ),
{
    proof {
        lemma_distinct_first_seen(found@);
    }
    let mut files: Vec<FileInfo> = Vec::new();
    let mut i: usize = 0;
    assert(found@.take(0) =~= Seq::<FileInfo>::empty());
    while i < found.len()
        invariant
            i <= found@.len(),
            files@ == distinct(found@.take(i as int)),
        decreases found@.len() - i,
    {
        proof {
            let next = found@.take(i + 1);
            assert(next.drop_last() =~= found@.take(i as int));
            assert(next.last() == found@[i as int]);
            lemma_distinct(found@.take(i as int));
        }
        if !holds_hash(&files, &found[i]) {
            files.push(found[i].clone());
        }
        i += 1;
    }
    proof {
        assert(found@.take(found@.len() as int) =~= found@);
        lemma_distinct(found@);
    }
    files
}

/// The paths of the files that have the content hash `hash`, in order.
pub open spec fn paths_with_hash(files: Seq<FileInfo>, hash: Seq<char>) -> Seq<Seq<char>>
    decreases files.len(),
{
    if files.len() == 0 {
        Seq::<Seq<char>>::empty()
    } else if files.last().hash@ == hash {
        paths_with_hash(files.drop_last(), hash).push(files.last().path@)
    } else {
        paths_with_hash(files.drop_last(), hash)
    }
}

/// The groups of paths of files with the same content, for the first `n`
/// of the contents `firsts`: a content that only one file has gives no
/// group.
pub open spec fn identical_groups(found: Seq<FileInfo>, firsts: Seq<FileInfo>, n: int) -> Seq<
    Seq<Seq<char>>,
>
    decreases n,
{
    if n <= 0 {
        Seq::<Seq<Seq<char>>>::empty()
    } else {
        let group = paths_with_hash(found, firsts[n - 1].hash@);
        if group.len() > 1 {
            identical_groups(found, firsts, n - 1).push(group)
        } else {
            identical_groups(found, firsts, n - 1)
        }
    }
}

/// The groups of paths of files with the same content, in the order in
/// which the contents were found.
pub open spec fn identical_files_spec(found: Seq<FileInfo>) -> Seq<Seq<Seq<char>>> {
    identical_groups(found, distinct(found), distinct(found).len() as int)
}

/// The views of a list of lists of strings.
pub open spec fn text_lists(lists: Seq<Vec<String>>) -> Seq<Seq<Seq<char>>> {
    Seq::new(lists.len(), |i: int| texts(lists[i]@))
}

fn collect_paths(found: &[FileInfo], hash: &String) -> (r: Vec<String>)
    ensures
        texts(r@) == paths_with_hash(found@, hash@),
{
    let mut paths: Vec<String> = Vec::new();
    let mut i: usize = 0;
    assert(found@.take(0) =~= Seq::<FileInfo>::empty());
    assert(texts(paths@) =~= paths_with_hash(found@.take(0), hash@));
    while i < found.len()
        invariant
            i <= found@.len(),
            texts(paths@) == paths_with_hash(found@.take(i as int), hash@),
        decreases found@.len() - i,
    {
        proof {
            let next = found@.take(i + 1);
            assert(next.drop_last() =~= found@.take(i as int));
            assert(next.last() == found@[i as int]);
        }
        if found[i].hash == *hash {
            let path = found[i].path.clone();
            proof {
                lemma_texts_push(paths@, path);
            }
            paths.push(path);
        }
        i += 1;
    }
    assert(found@.take(found@.len() as int) =~= found@);
    paths
}

/// The groups of files with the same content, each as the list of its
/// paths: what the pool of images leaves out, and in favour of what.
pub fn identical_files(found: &[FileInfo]) -> (r: Vec<Vec<String>>)
    ensures
        text_lists(r@) == identical_files_spec(found@),
{
    let firsts = gather_files(found);
    let mut groups: Vec<Vec<String>> = Vec::new();
    let mut n: usize = 0;
    assert(text_lists(groups@) =~= identical_groups(found@, firsts@, 0));
    while n < firsts.len()
        invariant
            n <= firsts@.len(),
            text_lists(groups@) == identical_groups(found@, firsts@, n as int),
        decreases firsts@.len() - n,
    {
        let group = collect_paths(found, &firsts[n].hash);
        if group.len() > 1 {
            let ghost before = text_lists(groups@);
            groups.push(group);
            assert(text_lists(groups@) =~= before.push(texts(group@)));
        }
        n += 1;
    }
    groups
}

/// The report on one group of files with the same content.
pub open spec fn identical_report_spec(paths: Seq<Seq<char>>) -> Seq<char> {
    painted(YELLOW@, "identical files"@) + ": "@ + debug_list(paths) + "\n"@
}

/// The report on one group of files with the same content.
pub fn identical_report(paths: &Vec<String>) -> (r: String)
    ensures
        r@ == identical_report_spec(texts(paths@)),
{
    let mut r = "identical files".yellow();
    r.append(": ");
    r.append(debug_list_text(paths).as_str());
    r.append("\n");
    r
}

/// The line that shows one image of the pool, its number padded with
/// zeros to `width` characters.
pub open spec fn listing_line(file: FileInfo, width: nat) -> Seq<char> {
    "images["@ + pad_left_spec(decimal(file.number as nat), width, '0') + "/"@ + decimal(
        file.total as nat,
    ) + "]: "@ + debug_spec(file.path@) + "\n"@
}

/// The lines that show the first `n` images of the pool.
pub open spec fn listing_lines(files: Seq<FileInfo>, n: int) -> Seq<char>
    decreases n,
{
    if n <= 0 {
        Seq::<char>::empty()
    } else {
        listing_lines(files, n - 1) + listing_line(files[n - 1], decimal(files.len()).len())
    }
}

/// What is shown of the pool of images: how many there are, whether they
/// are sorted or shuffled, and a line for each; then an empty line.
pub open spec fn listing_spec(files: Seq<FileInfo>, sort: bool) -> Seq<char> {
    decimal(files.len()) + if sort {
        " images were found (sorted):\n"@
    } else {
        " images were found (shuffled):\n"@
    } + listing_lines(files, files.len() as int) + "\n"@
}

/// Shows the pool of images.
pub fn display_files(files: &[FileInfo], config: &Config) -> (r: String)
    ensures
        r@ == listing_spec(files@, config.sort),
{
    let nfiles: usize = files.len();
    let ndigits: usize = decimal_width(nfiles as u64);
    let mut lines = String::new();
    let mut n: usize = 0;
    while n < nfiles
        invariant
            n <= nfiles,
            nfiles == files@.len(),
            ndigits == decimal(files@.len()).len(),
            lines@ == listing_lines(files@, n as int),
        decreases nfiles - n,
    {
        let file = &files[n];
        let mut line = String::from_str("images[");
        line.append(pad_left(u64_to_string(file.number as u64).as_str(), ndigits, '0').as_str());
        line.append("/");
        line.append(u64_to_string(file.total as u64).as_str());
        line.append("]: ");
        line.append(debug_text(file.path.as_str()).as_str());
        line.append("\n");
        lines.append(line.as_str());
        n += 1;
    }
    let mut r = u64_to_string(nfiles as u64);
    if config.sort {
        r.append(" images were found (sorted):\n");
    } else {
        r.append(" images were found (shuffled):\n");
    }
    r.append(lines.as_str());
    r.append("\n");
    r
}

/// The files, each with its position, counted from one, and their number.
pub open spec fn numbered(files: Seq<FileInfo>) -> Seq<FileInfo> {
    Seq::new(
        files.len(),
        |i: int| FileInfo { number: (i + 1) as usize, total: files.len() as usize, ..files[i] },
    )
}

/// The paths of the files.
pub open spec fn paths_of(files: Seq<FileInfo>) -> Seq<Seq<char>> {
    Seq::new(files.len(), |i: int| files[i].path@)
}

/// Why no wallpaper can be made of the files found: there is none, or there
/// are fewer than monitors. `None` where there are enough.
pub open spec fn count_fault(found: Seq<FileInfo>, config: Config) -> Option<WallSwitchErrorView> {
    let pool = distinct(found);
    if pool.len() == 0 {
        Some(WallSwitchErrorView::NoImages { paths: texts(config.directories@) })
    } else if pool.len() < config.monitors@.len() {
        Some(
            WallSwitchErrorView::InsufficientImages {
                paths: paths_of(pool),
                nfiles: pool.len() as usize,
            },
        )
    } else {
        None
    }
}

/// The pool made of the files found: repeated contents left out, the files
/// numbered, and then, unless they are to stay sorted, shuffled with the
/// numbers `draws`.
pub open spec fn pool_of(found: Seq<FileInfo>, sort: bool, draws: Seq<u64>) -> Seq<FileInfo> {
    let files = numbered(distinct(found));
    if sort {
        files
    } else {
        shuffled(files, draws, shuffle_steps(files.len() as int))
    }
}

/// Exchanging two files leaves the content hashes distinct.
proof fn lemma_swapped_hashes_differ(files: Seq<FileInfo>, i: int, j: int)
    requires
        hashes_differ(files),
        0 <= i < files.len(),
        0 <= j < files.len(),
    ensures
        hashes_differ(swapped(files, i, j)),
{
    let after = swapped(files, i, j);
    assert forall|a: int, b: int| 0 <= a < b < after.len() implies (#[trigger] after[a]).hash@ != (
    #[trigger] after[b]).hash@ by {
        let from_a = if a == i {
            j
        } else if a == j {
            i
        } else {
            a
        };
        let from_b = if b == i {
            j
        } else if b == j {
            i
        } else {
            b
        };
        assert(after[a] == files[from_a]);
        assert(after[b] == files[from_b]);
        if from_a < from_b {
            assert(files[from_a].hash@ != files[from_b].hash@);
        } else {
            assert(files[from_b].hash@ != files[from_a].hash@);
        }
    }
}

/// Shuffling leaves the content hashes distinct.
proof fn lemma_shuffled_hashes_differ(files: Seq<FileInfo>, draws: Seq<u64>, steps: int)
    requires
        hashes_differ(files),
        0 <= steps <= shuffle_steps(files.len() as int),
    ensures
        hashes_differ(shuffled(files, draws, steps)),
        shuffled(files, draws, steps).len() == files.len(),
    decreases steps,
{
    if steps > 0 {
        lemma_shuffled_hashes_differ(files, draws, steps - 1);
        let n = files.len() as int;
        let i = steps - 1;
        assert(0 <= draws[i] as int % (n - i) < n - i);
        lemma_swapped_hashes_differ(
            shuffled(files, draws, steps - 1),
            i,
            pick(n, i, draws[i]),
        );
    }
}

/// The pool holds every content that was found, once: no two of its files
/// have the same content hash, whatever the order in which they are shown.
pub proof fn lemma_pool_hashes_differ(found: Seq<FileInfo>, sort: bool, draws: Seq<u64>)
    ensures
        hashes_differ(pool_of(found, sort, draws)),
        pool_of(found, sort, draws).len() == distinct(found).len(),
        forall|hash: Seq<char>|
            #![trigger hash_seen(pool_of(found, sort, draws), hash)]
            #![trigger hash_seen(found, hash)]
            hash_seen(pool_of(found, sort, draws), hash) <==> hash_seen(found, hash),
{
    lemma_distinct(found);
    let kept = distinct(found);
    let files = numbered(kept);
    assert forall|a: int, b: int| 0 <= a < b < files.len() implies (#[trigger] files[a]).hash@ != (
    #[trigger] files[b]).hash@ by {
        assert(kept[a].hash@ != kept[b].hash@);
    }
    lemma_shuffled_hashes_differ(files, draws, shuffle_steps(files.len() as int));
    lemma_shuffled_is_permutation(files, draws, shuffle_steps(files.len() as int));
    let pool = pool_of(found, sort, draws);
    assert forall|hash: Seq<char>| hash_seen(pool, hash) <==> hash_seen(found, hash) by {
        if hash_seen(pool, hash) {
            let k = choose|k: int| 0 <= k < pool.len() && (#[trigger] pool[k]).hash@ == hash;
            pool.to_multiset_ensures();
            files.to_multiset_ensures();
            assert(pool.contains(pool[k]));
            assert(pool.to_multiset().count(pool[k]) > 0);
            assert(files.to_multiset().count(pool[k]) > 0);
            assert(files.contains(pool[k]));
            let m = choose|m: int| 0 <= m < files.len() && files[m] == pool[k];
            assert(kept[m].hash@ == hash);
            assert(hash_seen(kept, hash));
        }
        if hash_seen(found, hash) {
            assert(hash_seen(kept, hash));
            let m = choose|m: int| 0 <= m < kept.len() && (#[trigger] kept[m]).hash@ == hash;
            assert(files[m].hash@ == hash);
            pool.to_multiset_ensures();
            files.to_multiset_ensures();
            assert(files.contains(files[m]));
            assert(files.to_multiset().count(files[m]) > 0);
            assert(pool.to_multiset().count(files[m]) > 0);
            assert(pool.contains(files[m]));
            let k = choose|k: int| 0 <= k < pool.len() && pool[k] == files[m];
            assert(pool[k].hash@ == hash);
        }
    }
}

/// A copy of the list.
pub fn clone_texts(v: &Vec<String>) -> (r: Vec<String>)
    ensures
        texts(r@) == texts(v@),
{
    let mut r: Vec<String> = Vec::new();
    let mut i: usize = 0;
    while i < v.len()
        invariant
            i <= v@.len(),
            r@ == v@.take(i as int),
        decreases v@.len() - i,
    {
        r.push(v[i].clone());
        i += 1;
        assert(v@.take(i as int) =~= v@.take(i - 1).push(v@[i - 1]));
    }
    assert(v@.take(v@.len() as int) =~= v@);
    r
}

/// The paths of the files.
pub fn paths(files: &Vec<FileInfo>) -> (r: Vec<String>)
    ensures
        texts(r@) == paths_of(files@),
{
    let mut r: Vec<String> = Vec::new();
    let mut i: usize = 0;
    while i < files.len()
        invariant
            i <= files@.len(),
            r@.len() == i,
            forall|k: int| 0 <= k < i ==> (#[trigger] r@[k])@ == files@[k].path@,
        decreases files@.len() - i,
    {
        r.push(files[i].path.clone());
        i += 1;
    }
    assert(texts(r@) =~= paths_of(files@));
    r
}

/// Makes the pool of images of the files found, taking the random numbers
/// for the shuffle from `draws`.
pub fn get_images_with(found: &[FileInfo], config: &Config, draws: &[u64]) -> (r:
    WallSwitchResult<Vec<FileInfo>>)
    requires
        config.sort || draws@.len() >= shuffle_steps(distinct(found@).len() as int),
    ensures
        match r {
            Ok(images) => count_fault(found@, *config) is None && images@ == pool_of(
                found@,
                config.sort,
                draws@,
            ) && hashes_differ(images@),
            Err(e) => count_fault(found@, *config) == Some(e@),
        },
{
    proof {
        lemma_pool_hashes_differ(found@, config.sort, draws@);
    }
    let mut images = gather_files(found);
    if images.len() == 0 {
        return Err(WallSwitchError::NoImages { paths: clone_texts(&config.directories) });
    }
    let nimages: usize = images.len();
    if nimages < config.monitors.len() {
        return Err(WallSwitchError::InsufficientImages { paths: paths(&images), nfiles: nimages });
    }
    images.as_mut_slice().update_number();
    assert(images@ =~= numbered(distinct(found@)));
    if !config.sort {
        shuffle_with(images.as_mut_slice(), draws);
    }
    Ok(images)
}

/// Makes the pool of images of the files found: files with repeated
/// content are left out, the files are numbered and, unless they are to
/// stay sorted, shuffled.
pub fn get_images(found: &[FileInfo], config: &Config) -> (r: WallSwitchResult<Vec<FileInfo>>)
    ensures
        match r {
            Ok(images) => {
                &&& count_fault(found@, *config) is None
                &&& hashes_differ(images@)
                &&& images@.len() == distinct(found@).len()
                &&& images@.to_multiset() == numbered(distinct(found@)).to_multiset()
                &&& config.sort ==> images@ == numbered(distinct(found@))
            },
            Err(e) => count_fault(found@, *config) == Some(e@),
        },
{
    let mut draws: Vec<u64> = Vec::new();
    if !config.sort {
        let mut i: usize = 0;
        while i < found.len()
            invariant
                i <= found@.len(),
                draws@.len() == i,
            decreases found@.len() - i,
        {
            draws.push(rand());
            i += 1;
        }
    }
    proof {
        lemma_distinct(found@);
        let files = numbered(distinct(found@));
        lemma_shuffled_is_permutation(files, draws@, shuffle_steps(files.len() as int));
    }
    get_images_with(found, config, draws.as_slice())
}

} // verus!
