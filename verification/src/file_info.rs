//! Basic metadata about a particular version of a file.

use crate::clock::{epoch_offset, unix_nanos, NANOS_PER_SECOND};
use crate::error::SerdirError;
use crate::text::text;
use std::hash::{DefaultHasher, Hasher};
use std::io::Error;
use std::time::SystemTime;
use vstd::bytes::{spec_u64_to_le_bytes, u64_to_le_bytes};
use vstd::prelude::*;
use vstd::std_specs::hash::DefaultHasherAdditionalSpecFns;

verus! {

/// What kind of thing an open file handle refers to.
#[derive(Copy, Clone, Debug, PartialEq, Eq, Structural)]
pub enum FileKind {
    /// A regular file.
    File,
    /// A directory.
    Directory,
    /// Anything else, such as a device or a socket.
    Other,
}

/// Basic metadata about a particular version of a file, used as a cache key.
#[derive(Clone, Copy)]
pub struct FileInfo {
    /// A hash of the path of the file.
    pub path_hash: u64,
    /// The length of the file in bytes.
    pub len: u64,
    /// The last modification time of the file.
    pub mtime: SystemTime,
}

/// The hash of a path.
pub open spec fn path_hash_of(path: Seq<char>) -> u64 {
    DefaultHasher::spec_finish(seq![text(path)])
}

/// The distance of a number from zero.
pub open spec fn magnitude(n: int) -> nat {
    if n < 0 {
        (-n) as nat
    } else {
        n as nat
    }
}

/// The metadata of a file as numbers: the path hash, the length, whether the modification
/// time is before the Unix epoch, and the seconds and nanoseconds in between.
pub open spec fn key_words(info: FileInfo) -> Seq<u64> {
    let nanos = unix_nanos(info.mtime);
    seq![
        info.path_hash,
        info.len,
        if nanos < 0 { 1 } else { 0 },
        (magnitude(nanos) / NANOS_PER_SECOND as nat) as u64,
        (magnitude(nanos) % NANOS_PER_SECOND as nat) as u64,
    ]
}

impl FileInfo {
    /// The metadata as numbers, by which it is found in a cache.
    pub fn words(&self) -> (r: [u64; 5])
        ensures
            r@ == key_words(*self),
    {
        let (before, secs, nanos) = epoch_offset(self.mtime);
        let sign: u64 = if before { 1 } else { 0 };
        let r: [u64; 5] = [self.path_hash, self.len, sign, secs, nanos as u64];
        proof {
            let m = magnitude(unix_nanos(self.mtime));
            assert(m == secs * NANOS_PER_SECOND + nanos);
            assert(m / NANOS_PER_SECOND as nat == secs);
            assert(m % NANOS_PER_SECOND as nat == nanos);
            assert(r@ =~= key_words(*self));
        }
        r
    }

    /// Takes the metadata of an open file. A directory is an error, and what is
    /// neither a directory nor a regular file counts as absent.
    pub fn open_file(path: &str, kind: FileKind, len: u64, modified: Result<SystemTime, Error>) -> (r:
        Result<Self, SerdirError>)
        ensures
            match kind {
                FileKind::Directory => r matches Err(SerdirError::IsDirectory(p)) && p@ == path@,
                FileKind::Other => r == Err::<FileInfo, SerdirError>(SerdirError::NotFound(None)),
                FileKind::File => match modified {
                    Ok(mtime) => r == Ok::<FileInfo, SerdirError>(
                        FileInfo { path_hash: path_hash_of(path@), len, mtime },
                    ),
                    Err(e) => r matches Err(err) && err.comes_from(e),
                },
            },
    {
        match kind {
            FileKind::Directory => Err(SerdirError::is_directory(String::from_str(path))),
            FileKind::Other => Err(SerdirError::not_found(None)),
            FileKind::File => {
                let mut hasher = DefaultHasher::new();
                hasher.write(path.as_bytes());
                let path_hash: u64 = hasher.finish();
                assert(seq![text(path@)] =~= Seq::empty().push(text(path@)));
                match modified {
                    Ok(mtime) => Ok(FileInfo { path_hash, len, mtime }),
                    Err(e) => Err(SerdirError::from(e)),
                }
            },
        }
    }

    /// Returns the length of the file in bytes.
    pub fn len(&self) -> (r: u64)
        ensures
            r == self.len,
    {
        self.len
    }

    /// Returns the last modification time of the file.
    pub fn mtime(&self) -> (r: SystemTime)
        ensures
            r == self.mtime,
    {
        self.mtime
    }

    /// What goes into the hash of the metadata.
    pub open spec fn hash_input(self) -> Seq<Seq<u8>> {
        key_words(self).map_values(|w: u64| spec_u64_to_le_bytes(w))
    }

    /// A hash of the metadata as a whole.
    pub fn get_hash(&self) -> (r: u64)
        ensures
            r == DefaultHasher::spec_finish(self.hash_input()),
    {
        let words = self.words();
        let mut hasher = DefaultHasher::new();
        let mut i: usize = 0;
        while i < 5
            invariant
                i <= 5,
                words@ == key_words(*self),
                hasher@ == self.hash_input().take(i as int),
            decreases 5 - i,
        {
            hasher.write(u64_to_le_bytes(words[i]).as_slice());
            i += 1;
            assert(hasher@ =~= self.hash_input().take(i as int));
        }
        assert(hasher@ =~= self.hash_input());
        hasher.finish()
    }
}

/// Whether the distance of a point in time from the Unix epoch can be told in seconds, as it
/// can of every point in time that a machine deals with.
pub open spec fn is_representable(t: SystemTime) -> bool {
    magnitude(unix_nanos(t)) / NANOS_PER_SECOND as nat <= u64::MAX
}

/// Metadata as numbers tells files apart: it is the same only for the same path hash, length
/// and modification time.
pub proof fn key_words_tell_files_apart(a: FileInfo, b: FileInfo)
    requires
        is_representable(a.mtime),
        is_representable(b.mtime),
    ensures
        key_words(a) == key_words(b) <==> a.path_hash == b.path_hash && a.len == b.len
            && unix_nanos(a.mtime) == unix_nanos(b.mtime),
{
    let ka = key_words(a);
    let kb = key_words(b);
    if ka == kb {
        assert(ka[0] == kb[0]);
        assert(ka[1] == kb[1]);
        assert(ka[2] == kb[2]);
        assert(ka[3] == kb[3]);
        assert(ka[4] == kb[4]);
        let d = NANOS_PER_SECOND as nat;
        let ma = magnitude(unix_nanos(a.mtime));
        let mb = magnitude(unix_nanos(b.mtime));
        vstd::arithmetic::div_mod::lemma_fundamental_div_mod(ma as int, d as int);
        vstd::arithmetic::div_mod::lemma_fundamental_div_mod(mb as int, d as int);
    }
}

} // verus!
