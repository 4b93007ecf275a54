//! Options for creation, extraction, and parallel I/O.
//!
//! Paths are plain strings here; the caller that touches the file
//! system turns them into platform paths. Both parallelism limits must
//! be at least one; `Default` falls back to a single I/O thread, and
//! callers that know the machine's available parallelism raise it.

use vstd::prelude::*;

verus! {

/// The default memory budget for payload buffers: 2 GiB.
pub const DEFAULT_MAX_IO_MEMORY_USAGE: usize = 2147483648;

/// How much parallel I/O may be used.
pub struct ParalellismConfig {
    /// The maximum number of threads to use for I/O.
    pub max_io_threads: usize,
    /// The maximum number of bytes of entry payload held in worker
    /// buffers at any instant.
    pub max_io_memory_usage: usize,
}

impl ParalellismConfig {
    /// Both limits are meaningful only from one up.
    pub open spec fn wf(&self) -> bool {
        self.max_io_threads >= 1 && self.max_io_memory_usage >= 1
    }
}

impl Default for ParalellismConfig {
    fn default() -> (c: Self)
        ensures
            c.max_io_threads == 1,
            c.max_io_memory_usage == DEFAULT_MAX_IO_MEMORY_USAGE,
            c.wf(),
    {
        ParalellismConfig {
            max_io_threads: 1,
            max_io_memory_usage: DEFAULT_MAX_IO_MEMORY_USAGE,
        }
    }
}

/// Options for archive creation.
pub struct CreateGmaConfig {
    /// The directory to archive.
    pub folder: String,
    /// Whether a file outside the whitelist is dropped with a warning
    /// rather than failing the creation.
    pub warn_invalid: bool,
    /// The maximum number of threads to use for I/O.
    pub max_io_threads: usize,
    /// The maximum number of bytes of entry payload held in worker
    /// buffers at any instant.
    pub max_io_memory_usage: usize,
}

impl CreateGmaConfig {
    /// The parallelism limits are at least one.
    pub open spec fn wf(&self) -> bool {
        self.max_io_threads >= 1 && self.max_io_memory_usage >= 1
    }
}

impl Default for CreateGmaConfig {
    fn default() -> (c: Self)
        ensures
            c.folder@ == Seq::<char>::empty(),
            !c.warn_invalid,
            c.max_io_threads == 1,
            c.max_io_memory_usage == DEFAULT_MAX_IO_MEMORY_USAGE,
            c.wf(),
    {
        CreateGmaConfig {
            folder: String::new(),
            warn_invalid: false,
            max_io_threads: 1,
            max_io_memory_usage: DEFAULT_MAX_IO_MEMORY_USAGE,
        }
    }
}

/// Where a created archive goes.
pub enum CreateGmadOut {
    /// The standard output stream, which cannot seek.
    Stdout,
    /// A file at the given path.
    File(String),
}

/// Options for archive extraction.
pub struct ExtractGmaConfig {
    /// The directory to extract into.
    pub out: String,
    /// The maximum number of threads to use for I/O.
    pub max_io_threads: usize,
    /// The maximum number of bytes of entry payload held in writer
    /// buffers at any instant.
    pub max_io_memory_usage: usize,
}

impl ExtractGmaConfig {
    /// The parallelism limits are at least one.
    pub open spec fn wf(&self) -> bool {
        self.max_io_threads >= 1 && self.max_io_memory_usage >= 1
    }
}

impl Default for ExtractGmaConfig {
    fn default() -> (c: Self)
        ensures
            c.out@ == Seq::<char>::empty(),
            c.max_io_threads == 1,
            c.max_io_memory_usage == DEFAULT_MAX_IO_MEMORY_USAGE,
            c.wf(),
    {
        ExtractGmaConfig {
            out: String::new(),
            max_io_threads: 1,
            max_io_memory_usage: DEFAULT_MAX_IO_MEMORY_USAGE,
        }
    }
}

/// Where an archive to extract comes from.
pub enum ExtractGmadIn {
    /// The standard input stream, which cannot seek.
    Stdin,
    /// A file at the given path.
    File(String),
}

} // verus!
