//! From the entries of a directory tree to the image files among them.

use crate::config::Config;
use crate::dimension::Dimension;
use crate::fileinfo::FileInfo;
use crate::path::{extension, extension_spec};
use crate::text::{eq_ignore_ascii_case, eq_ignore_ascii_case_spec, texts};
use vstd::prelude::*;

verus! {

/// What a walk through a directory tree tells of one entry.
#[derive(Debug)]
pub struct DirEntry {
    /// The path of the entry.
    pub path: String,
    /// Whether the entry is a regular file.
    pub is_file: bool,
    /// The size of the entry in bytes, where its metadata could be read.
    pub size: Option<u64>,
}

impl Clone for DirEntry {
    fn clone(&self) -> (r: DirEntry)
        ensures
            r == *self,
    {
        DirEntry { path: self.path.clone(), is_file: self.is_file, size: self.size }
    }
}

/// Whether `extension` is one of `extensions`, the case of ASCII letters
/// left aside.
pub open spec fn is_listed(extension: Seq<char>, extensions: Seq<Seq<char>>) -> bool {
    exists|i: int|
        0 <= i < extensions.len() && eq_ignore_ascii_case_spec(extension, #[trigger] extensions[i])
}

/// Whether an entry is an image file: a regular file whose extension is
/// one of those configured.
pub open spec fn is_image_entry(entry: DirEntry, config: Config) -> bool {
    entry.is_file && match extension_spec(entry.path@) {
        Some(extension) => is_listed(extension, texts(config.extensions@)),
        None => false,
    }
}

/// Whether an entry is an image file whose size is known.
pub open spec fn is_image_file(entry: DirEntry, config: Config) -> bool {
    is_image_entry(entry, config) && entry.size is Some
}

/// Whether a record is what a scan knows of an entry: its size and path,
/// and nothing else yet.
pub open spec fn is_record_of(file: FileInfo, entry: DirEntry) -> bool {
    &&& file.size == entry.size->0
    &&& file.path == entry.path
    &&& file.number == 0
    &&& file.total == 0
    &&& file.dimension == Dimension { width: 3840, height: 2160 }
    &&& file.hash@ == Seq::<char>::empty()
}

fn has_listed_extension(path: &str, extensions: &Vec<String>) -> (r: bool)
    ensures
        r == match extension_spec(path@) {
            Some(extension) => is_listed(extension, texts(extensions@)),
            None => false,
        },
{
    match extension(path) {
        None => false,
        Some(found) => {
            let mut i: usize = 0;
            while i < extensions.len()
                invariant
                    i <= extensions@.len(),
                    extension_spec(path@) == Some(found@),
                    forall|k: int|
                        0 <= k < i ==> !eq_ignore_ascii_case_spec(
                            found@,
                            #[trigger] texts(extensions@)[k],
                        ),
                decreases extensions@.len() - i,
            {
                if eq_ignore_ascii_case(found.as_str(), extensions[i].as_str()) {
                    assert(eq_ignore_ascii_case_spec(found@, texts(extensions@)[i as int]));
                    return true;
                }
                i += 1;
            }
            false
        },
    }
}

fn entry_is_image(entry: &DirEntry, config: &Config) -> (r: bool)
    ensures
        r == is_image_entry(*entry, *config),
{
    entry.is_file && has_listed_extension(entry.path.as_str(), &config.extensions)
}

/// The image files among the entries, in the order of the entries.
pub fn get_image_entries(entries: &[DirEntry], config: &Config) -> (r: Vec<DirEntry>)
    ensures
        r@ == entries@.filter(|entry: DirEntry| is_image_entry(entry, *config)),
{
    let ghost keep = |entry: DirEntry| is_image_entry(entry, *config);
    let mut images: Vec<DirEntry> = Vec::new();
    let mut i: usize = 0;
    proof {
        reveal(Seq::filter);
        assert(entries@.take(0) =~= Seq::<DirEntry>::empty());
    }
    while i < entries.len()
        invariant
            i <= entries@.len(),
            keep == |entry: DirEntry| is_image_entry(entry, *config),
            images@ == entries@.take(i as int).filter(keep),
        decreases entries@.len() - i,
    {
        proof {
            reveal(Seq::filter);
            let next = entries@.take(i + 1);
            assert(next.drop_last() =~= entries@.take(i as int));
            assert(next.last() == entries@[i as int]);
        }
        if entry_is_image(&entries[i], config) {
            images.push(entries[i].clone());
        }
        i += 1;
    }
    assert(entries@.take(entries@.len() as int) =~= entries@);
    images
}

/// What a scan knows of the image files among the entries: of each one
/// whose size is known its size and its path, in the order of the entries.
pub fn get_files_from_directory(entries: &[DirEntry], config: &Config) -> (r: Vec<FileInfo>)
    ensures
        r@.len() == entries@.filter(|entry: DirEntry| is_image_file(entry, *config)).len(),
        forall|i: int|
            0 <= i < r@.len() ==> is_record_of(
                #[trigger] r@[i],
                entries@.filter(|entry: DirEntry| is_image_file(entry, *config))[i],
            ),
{
    let ghost keep = |entry: DirEntry| is_image_file(entry, *config);
    let mut files: Vec<FileInfo> = Vec::new();
    let mut i: usize = 0;
    proof {
        reveal(Seq::filter);
        assert(entries@.take(0) =~= Seq::<DirEntry>::empty());
    }
    while i < entries.len()
        invariant
            i <= entries@.len(),
            keep == |entry: DirEntry| is_image_file(entry, *config),
            files@.len() == entries@.take(i as int).filter(keep).len(),
            forall|k: int|
                0 <= k < files@.len() ==> is_record_of(
                    #[trigger] files@[k],
                    entries@.take(i as int).filter(keep)[k],
                ),
        decreases entries@.len() - i,
    {
        proof {
            reveal(Seq::filter);
            let next = entries@.take(i + 1);
            assert(next.drop_last() =~= entries@.take(i as int));
            assert(next.last() == entries@[i as int]);
        }
        if entry_is_image(&entries[i], config) {
            match entries[i].size {
                Some(size) => {
                    let mut file = FileInfo::default();
                    file.size = size;
                    file.path = entries[i].path.clone();
                    files.push(file);
                },
                None => {},
            }
        }
        i += 1;
    }
    assert(entries@.take(entries@.len() as int) =~= entries@);
    files
}

} // verus!
