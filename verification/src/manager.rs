//! The download manager's rules: what a submission needs before any job is
//! queued, which error each shortfall earns, how identifiers are handed out,
//! and the one job per segment that an accepted download enqueues. The
//! surrounding process creates the destination file, runs the size probe over
//! the network, and feeds the results in; it owns the worker threads and the
//! queue itself.
use vstd::prelude::*;

use crate::meta::{is_partition_of, Location, Meta, SEGMENT_SIZE};
use crate::schema::{schema_of, spec_schema_of};

verus! {

/// Why a submission was refused. Every variant is recoverable: the manager
/// and its other downloads go on untouched.
#[derive(Clone, Copy, PartialEq, Eq, Structural, Debug)]
pub enum DownloadError {
    /// The address's scheme tag names no supported scheme provider.
    UnsupportedScheme,
    /// The destination file could not be created or truncated.
    FileCreateFailed,
    /// The size probe could not determine the resource's total size.
    ProbeFailed,
}

/// One unit of work for the pool: the segment at `segment` of the download
/// registered under `download`.
#[derive(Clone, Copy, PartialEq, Eq, Structural, Debug)]
pub struct Job {
    pub download: usize,
    pub segment: usize,
}

/// The registry of submitted downloads. Identifiers are dense and handed out
/// in increasing order from zero, so the record of download `id` stands at
/// index `id`; records are never removed.
pub struct DownloadManager {
    pub files: Vec<Meta>,
}

impl DownloadManager {
    /// Every registered record keeps the record invariant.
    pub open spec fn wf(self) -> bool {
        forall|i: int| 0 <= i < self.files@.len() ==> (#[trigger] self.files@[i]).wf()
    }

    /// A manager that has seen no submission.
    pub fn new() -> (m: Self)
        ensures
            m.wf(),
            m.files@.len() == 0,
    {
        DownloadManager { files: Vec::new() }
    }

    /// Submit a download. The outside steps — creating the destination file,
    /// probing the size over the network — have already run, and their
    /// results come in as `created` and `probe`; they are owed in that order,
    /// and an unsupported scheme refuses the submission before either
    /// matters. An accepted submission registers a fresh record under the
    /// next identifier and returns one job per segment, in increasing offset
    /// order, none of it touching any earlier download.
    pub fn download(
        &mut self,
        location: Location,
        path: String,
        created: bool,
        probe: Option<usize>,
    ) -> (r: Result<(usize, Vec<Job>), DownloadError>)
        requires
            old(self).wf(),
        ensures
            final(self).wf(),
            spec_schema_of(location.scheme@) is None ==> r == Err::<(usize, Vec<Job>),
                DownloadError,
            >(DownloadError::UnsupportedScheme) && *final(self) == *old(self),
            spec_schema_of(location.scheme@) is Some && !created ==> r == Err::<(
                usize,
                Vec<Job>,
            ), DownloadError>(DownloadError::FileCreateFailed) && *final(self) == *old(self),
            spec_schema_of(location.scheme@) is Some && created && probe is None ==> r == Err::<(
                usize,
                Vec<Job>,
            ), DownloadError>(DownloadError::ProbeFailed) && *final(self) == *old(self),
            (spec_schema_of(location.scheme@) is Some && created && probe is Some) ==> (
            r matches Ok(p) && {
                let size = probe->Some_0;
                let meta = final(self).files@.last();
                &&& p.0 == old(self).files@.len()
                &&& final(self).files@ == old(self).files@.push(meta)
                &&& meta.header.location == location
                &&& meta.header.path == path
                &&& meta.header.size == size
                &&& is_partition_of(meta.segments@, size as int, SEGMENT_SIZE as int)
                &&& meta.spec_progress() == 0
                &&& p.1@.len() == meta.segments@.len()
                &&& forall|j: int|
                    0 <= j < p.1@.len() ==> (#[trigger] p.1@[j]).download == p.0 && p.1@[j].segment
                        == j
            }),
    {
        if schema_of(&location.scheme).is_none() {
            return Err(DownloadError::UnsupportedScheme);
        }
        if !created {
            return Err(DownloadError::FileCreateFailed);
        }
        match probe {
            None => Err(DownloadError::ProbeFailed),
            Some(size) => {
                let id = self.files.len();
                let meta = Meta::new(location, path, size);
                let count = meta.segments.len();
                let mut jobs: Vec<Job> = Vec::new();
                let mut j: usize = 0;
                while j < count
                    invariant
                        j <= count,
                        jobs@.len() == j,
                        forall|k: int|
                            0 <= k < j ==> (#[trigger] jobs@[k]).download == id && jobs@[k].segment
                                == k,
                    decreases count - j,
                {
                    jobs.push(Job { download: id, segment: j });
                    j = j + 1;
                }
                self.files.push(meta);
                Ok((id, jobs))
            },
        }
    }

    /// The record registered under `id`, for progress inspection. The
    /// identifier must be one this manager handed out.
    pub fn get_info(&self, id: usize) -> (m: &Meta)
        requires
            self.wf(),
            id < self.files@.len(),
        ensures
            *m == self.files@[id as int],
            m.wf(),
    {
        &self.files[id]
    }
}

} // verus!
