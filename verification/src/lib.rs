//! A segmented downloader's verified core: partitioning a resource into
//! contiguous byte ranges, the wire format of the size probe and the ranged
//! fetch, the transfer strategies' byte accounting, and the manager's
//! submission and progress rules. The surrounding process (sockets, files,
//! threads, the kernel-level data path) drives these functions and is kept
//! outside the library.
pub mod http;
pub mod manager;
pub mod meta;
pub mod schema;
pub mod transfer;
pub mod utility;
