use std::collections::hash_map::DefaultHasher;
use std::hash::Hasher;
use vstd::prelude::*;
use vstd::std_specs::hash::DefaultHasherAdditionalSpecFns;

use crate::entry::FileEntry;

verus! {

/// The bytes of the last component of `path`, as `std::path::Path::file_name`
/// finds it; `None` where the path has no such component.
pub uninterp spec fn file_name_of(path: Seq<char>) -> Option<Seq<u8>>;

/// Relies on `std::path::Path::file_name`: the final component of a path, and
/// on `OsStr::to_string_lossy`, exact here since the path came from a `&str`.
#[verifier::external_body]
fn file_name_bytes(path: &str) -> (r: Option<Vec<u8>>)
    ensures
        r matches Some(v) ==> file_name_of(path@) == Some(v@),
        r is None ==> file_name_of(path@) is None,
{
    match std::path::Path::new(path).file_name() {
        Some(name) => Some(name.to_string_lossy().as_bytes().to_vec()),
        None => None,
    }
}

/// The strategy that decides when two files count as duplicates.
#[derive(Clone, Copy, Debug, PartialEq, Eq, Structural)]
pub enum Mode {
    /// Same basename.
    Filename,
    /// Same basename and same size.
    FilenameFilesize,
    /// Same content hash.
    Exhaustive,
}

/// ASCII decimal digits of `n`, most significant first, with no leading zero.
pub open spec fn decimal(n: nat) -> Seq<u8>
    decreases n,
{
    if n < 10 {
        seq![(48 + n) as u8]
    } else {
        decimal(n / 10).push((48 + n % 10) as u8)
    }
}

/// The hash that `DefaultHasher` gives after the writes `writes`.
pub open spec fn hash_of_writes(writes: Seq<Seq<u8>>) -> u64 {
    DefaultHasher::spec_finish(writes)
}

/// Key of the `filename` strategy: the hash of the basename's bytes.
pub open spec fn name_key(path: Seq<char>) -> Option<u64> {
    match file_name_of(path) {
        Some(name) => Some(hash_of_writes(seq![name])),
        None => None,
    }
}

/// Key of the `filename_filesize` strategy: the hash of the basename's bytes
/// followed by the decimal digits of the size.
pub open spec fn name_size_key(path: Seq<char>, size: u64) -> Option<u64> {
    match file_name_of(path) {
        Some(name) => Some(hash_of_writes(seq![name, decimal(size as nat)])),
        None => None,
    }
}

/// The decimal digits of `n` as ASCII bytes.
pub fn decimal_bytes(n: u64) -> (r: Vec<u8>)
    ensures
        r@ == decimal(n as nat),
    decreases n,
{
    if n < 10 {
        let mut v: Vec<u8> = Vec::new();
        v.push(48u8 + n as u8);
        v
    } else {
        let mut v = decimal_bytes(n / 10);
        v.push(48u8 + (n % 10) as u8);
        v
    }
}

/// Key of `entry` under the `filename` strategy; `None` where its path has
/// no basename.
pub fn filename_key(entry: &FileEntry) -> (r: Option<u64>)
    ensures
        r == name_key(entry@.path),
{
    match file_name_bytes(entry.fullpath.as_str()) {
        Some(name) => {
            let mut hasher = DefaultHasher::new();
            hasher.write(name.as_slice());
            assert(hasher@ =~= seq![name@]);
            Some(hasher.finish())
        },
        None => None,
    }
}

/// Key of `entry` under the `filename_filesize` strategy; `None` where its
/// path has no basename.
pub fn filename_filesize_key(entry: &FileEntry) -> (r: Option<u64>)
    ensures
        r == name_size_key(entry@.path, entry@.size),
{
    match file_name_bytes(entry.fullpath.as_str()) {
        Some(name) => {
            let digits = decimal_bytes(entry.filesize);
            let mut hasher = DefaultHasher::new();
            hasher.write(name.as_slice());
            hasher.write(digits.as_slice());
            assert(hasher@ =~= seq![name@, digits@]);
            Some(hasher.finish())
        },
        None => None,
    }
}

} // verus!
