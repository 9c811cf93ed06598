//! The screens' view of the network layer: jobs they can ask for and the events they
//! read.

use vstd::prelude::*;

verus! {

/// Something to fetch.
#[derive(Clone, Debug, PartialEq, Eq)]
pub enum FetchRequest {
    /// Download a book from a URL into the library.
    Book {
        /// Source URL.
        url: String,
        /// Title for the queue.
        title: String,
        /// Author line.
        author: String,
        /// Expected size, if known.
        size: Option<u64>,
    },
    /// Fetch an OPDS feed.
    Opds(String),
    /// Refresh the Bookshop shelves.
    Shelves,
    /// Fetch a dictionary or Wikipedia summary for a word.
    Wikipedia(String),
    /// Weather for the configured place.
    Weather,
    /// News feeds.
    News,
    /// Sleep image pack index.
    SleepPacks,
    /// Install a sleep image pack by name.
    SleepPack(String),
    /// Check for a firmware update.
    OtaCheck,
    /// Cancel a queued download by index.
    Cancel(usize),
    /// Retry a failed download.
    Retry(usize),
}

/// Download state.
#[derive(Clone, Debug, PartialEq, Eq)]
pub enum DownloadState {
    /// Waiting.
    Queued,
    /// Transferring.
    Working,
    /// Done and in the library.
    Done,
    /// Failed with a message.
    Failed(String),
    /// Waiting for a retry, with the seconds left.
    Retrying(u16),
}

/// An OPDS catalog entry.
#[derive(Clone, Debug, PartialEq, Eq)]
pub struct OpdsEntry {
    /// Title.
    pub title: String,
    /// Author.
    pub author: String,
    /// Navigation link (a sub-catalog) or none.
    pub nav: Option<String>,
    /// Acquisition link (a book file) or none.
    pub acquisition: Option<String>,
    /// Summary.
    pub summary: String,
}

impl Default for OpdsEntry {
    fn default() -> (e: OpdsEntry)
        ensures
            e.title@.len() == 0,
            e.author@.len() == 0,
            e.nav is None,
            e.acquisition is None,
            e.summary@.len() == 0,
    {
        OpdsEntry { title: String::new(), author: String::new(), nav: None, acquisition: None, summary: String::new() }
    }
}

/// An available firmware update.
#[derive(Clone, Debug, PartialEq, Eq)]
pub struct OtaInfo {
    /// Version string.
    pub version: String,
    /// Release notes.
    pub notes: String,
    /// Download URL.
    pub url: String,
    /// Size bytes.
    pub size: u64,
}

/// Events from the network layer.
#[derive(Debug, PartialEq, Eq)]
pub enum NetEvent {
    /// The download queue changed.
    Downloads,
    /// An OPDS feed arrived (or failed).
    Opds(Result<(String, Vec<OpdsEntry>), String>),
    /// Shelves refreshed.
    Shelves,
    /// Wikipedia summary for a word.
    Wikipedia(Result<(String, String), String>),
    /// Weather arrived.
    Weather,
    /// News refreshed.
    News,
    /// OTA check finished.
    Ota(Result<Option<OtaInfo>, String>),
    /// OTA progress (bytes done, total) or finished.
    OtaProgress {
        /// Bytes.
        done: u64,
        /// Total.
        total: u64,
        /// Finished with Ok or an error.
        finished: Option<Result<(), String>>,
    },
    /// A Calibre transfer began or ended.
    Calibre(String),
    /// Sync finished.
    Sync(Result<u32, String>),
    /// Sleep packs list arrived.
    SleepPacks,
}

impl Clone for NetEvent {
    fn clone(&self) -> (e: NetEvent) {
        match self {
            NetEvent::Downloads => NetEvent::Downloads,
            NetEvent::Opds(r) => NetEvent::Opds(
                match r {
                    Ok((t, es)) => Ok((t.clone(), es.clone())),
                    Err(m) => Err(m.clone()),
                },
            ),
            NetEvent::Shelves => NetEvent::Shelves,
            NetEvent::Wikipedia(r) => NetEvent::Wikipedia(
                match r {
                    Ok((a, b)) => Ok((a.clone(), b.clone())),
                    Err(m) => Err(m.clone()),
                },
            ),
            NetEvent::Weather => NetEvent::Weather,
            NetEvent::News => NetEvent::News,
            NetEvent::Ota(r) => NetEvent::Ota(
                match r {
                    Ok(Some(i)) => Ok(Some(i.clone())),
                    Ok(None) => Ok(None),
                    Err(m) => Err(m.clone()),
                },
            ),
            NetEvent::OtaProgress { done, total, finished } => NetEvent::OtaProgress {
                done: *done,
                total: *total,
                finished: match finished {
                    Some(Ok(())) => Some(Ok(())),
                    Some(Err(m)) => Some(Err(m.clone())),
                    None => None,
                },
            },
            NetEvent::Calibre(s) => NetEvent::Calibre(s.clone()),
            NetEvent::Sync(r) => NetEvent::Sync(
                match r {
                    Ok(n) => Ok(*n),
                    Err(m) => Err(m.clone()),
                },
            ),
            NetEvent::SleepPacks => NetEvent::SleepPacks,
        }
    }
}

} // verus!
