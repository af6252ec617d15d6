//! The working-tree walk's state: pending file paths to hand out and pending
//! directories to scan.
//!
//! The walk itself reads the filesystem and is the caller's business; this
//! type holds its two stacks and the decisions — which directory names are
//! skipped, and how a discovered path is recorded. A discovered file has the
//! root prefix (the root path and its slash) stripped; the store's own
//! control directory and other VCS control directories are never scanned.

use vstd::prelude::*;

use vstd::utf8::encode_utf8;
use vstd::utf8::is_char_boundary;

verus! {

pub struct FilePathProducer {
    pub file_paths: Vec<String>,
    pub directory_paths: Vec<String>,
    pub prefix_length: usize,
}

impl FilePathProducer {
    pub fn new(path: String) -> (r: FilePathProducer)
        requires
            encode_utf8(path@).len() < usize::MAX,
        ensures
            r.file_paths@.len() == 0,
            r.directory_paths@.len() == 1,
            r.directory_paths@[0] == path,
            r.prefix_length == encode_utf8(path@).len() + 1,
    {
        let prefix_length = path.as_str().len() + 1;
        let mut directory_paths: Vec<String> = Vec::new();
        directory_paths.push(path);
        FilePathProducer { file_paths: Vec::new(), directory_paths, prefix_length }
    }

    /// Hands out the most recently discovered pending file path, if any.
    pub fn take_pending_file(&mut self) -> (r: Option<String>)
        ensures
            final(self).directory_paths == old(self).directory_paths,
            final(self).prefix_length == old(self).prefix_length,
            match r {
                Some(p) => old(self).file_paths@.len() > 0 && p == old(self).file_paths@.last()
                    && final(self).file_paths@ == old(self).file_paths@.drop_last(),
                None => old(self).file_paths@.len() == 0 && final(self).file_paths@ == old(
                    self,
                ).file_paths@,
            },
    {
        self.file_paths.pop()
    }

    /// Hands out the most recently discovered pending directory path, if any.
    pub fn take_pending_directory(&mut self) -> (r: Option<String>)
        ensures
            final(self).file_paths == old(self).file_paths,
            final(self).prefix_length == old(self).prefix_length,
            match r {
                Some(p) => old(self).directory_paths@.len() > 0 && p == old(
                    self,
                ).directory_paths@.last() && final(self).directory_paths@ == old(
                    self,
                ).directory_paths@.drop_last(),
                None => old(self).directory_paths@.len() == 0 && final(self).directory_paths@
                    == old(self).directory_paths@,
            },
    {
        self.directory_paths.pop()
    }

    /// Whether a directory of this name is scanned at all: the store's own
    /// control directory and other VCS control directories are skipped.
    pub fn should_scan(name: &str) -> (r: bool)
        ensures
            r == !(name@ == ".zatsu"@ || name@ == ".jj"@ || name@ == ".git"@),
    {
        let owned = name.to_owned();
        if owned == String::from_str(".zatsu") {
            return false;
        }
        if owned == String::from_str(".jj") {
            return false;
        }
        if owned == String::from_str(".git") {
            return false;
        }
        true
    }

    /// Records one path the walk discovered: a file is queued for output with
    /// the root prefix stripped, a directory is queued for scanning whole.
    pub fn record_discovered(&mut self, path: String, is_file: bool)
        requires
            is_file ==> old(self).prefix_length <= encode_utf8(path@).len() && is_char_boundary(
                encode_utf8(path@),
                old(self).prefix_length as int,
            ),
        ensures
            final(self).prefix_length == old(self).prefix_length,
            is_file ==> {
                &&& final(self).directory_paths == old(self).directory_paths
                &&& final(self).file_paths@.len() == old(self).file_paths@.len() + 1
                &&& final(self).file_paths@.drop_last() == old(self).file_paths@
                &&& encode_utf8(final(self).file_paths@.last()@) == encode_utf8(path@).skip(
                    old(self).prefix_length as int,
                )
            },
            !is_file ==> {
                &&& final(self).file_paths == old(self).file_paths
                &&& final(self).directory_paths@ == old(self).directory_paths@.push(path)
            },
    {
        if is_file {
            let ghost old_files = self.file_paths@;
            let (_, tail) = path.as_str().split_at(self.prefix_length);
            self.file_paths.push(tail.to_owned());
            proof {
                assert(self.file_paths@.drop_last() =~= old_files);
            }
        } else {
            self.directory_paths.push(path);
        }
    }
}

} // verus!
