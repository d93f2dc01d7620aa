//! Downloaders: what fetches package sources.
use vstd::prelude::*;

verus! {

/// The downloader that fetches files over HTTP.
#[derive(Debug, Copy, Clone, Default)]
pub struct DefaultDownloader;

/// A downloader that hands out the same file for every URL.
#[derive(Debug, Clone)]
pub struct MockDownloader {
    /// The bytes of the file it hands out.
    pub file: Vec<u8>,
}

impl MockDownloader {
    /// A downloader that hands out `file`.
    pub fn new(file: Vec<u8>) -> (r: Self)
        ensures
            r.file@ == file@,
    {
        MockDownloader { file }
    }
}

} // verus!
