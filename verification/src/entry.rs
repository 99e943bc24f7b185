//! The records the engine works on: one file of a scanned folder, and one
//! file name found in both folders.

use vstd::prelude::*;

verus! {

/// A point in time, counted from the Unix epoch: whole seconds, negative
/// before the epoch, and the nanoseconds past that second. How it is shown
/// to a reader, and in which time zone, is left to whoever shows it.
#[derive(Clone, Copy, Debug, PartialEq, Eq, Structural)]
pub struct Timestamp {
    pub secs: i64,
    pub nanos: u32,
}

/// Nanoseconds in a second.
pub const NANOS_PER_SEC: u32 = 1_000_000_000;

impl Timestamp {
    /// The nanoseconds part is less than a second.
    pub open spec fn wf(self) -> bool {
        self.nanos < 1_000_000_000
    }

    /// The time in nanoseconds since the epoch, negative before it.
    pub open spec fn nanos_since_epoch(self) -> int {
        self.secs * 1_000_000_000 + self.nanos
    }

    /// The time that lies `secs` seconds and `nanos` nanoseconds after the
    /// epoch; none if `nanos` is a second or more, or the time too late to
    /// be held.
    pub fn after_epoch(secs: u64, nanos: u32) -> (r: Option<Timestamp>)
        ensures
            r is Some <==> nanos < 1_000_000_000 && secs <= i64::MAX,
            r matches Some(t) ==> t.wf() && t.nanos_since_epoch() == secs * 1_000_000_000 + nanos,
    {
        if nanos >= NANOS_PER_SEC || secs > i64::MAX as u64 {
            None
        } else {
            Some(Timestamp { secs: secs as i64, nanos })
        }
    }

    /// The time that lies `secs` seconds and `nanos` nanoseconds before the
    /// epoch; none if `nanos` is a second or more, or the time too early to
    /// be held.
    pub fn before_epoch(secs: u64, nanos: u32) -> (r: Option<Timestamp>)
        ensures
            r is Some <==> nanos < 1_000_000_000 && secs * 1_000_000_000 + nanos
                <= 0x8000_0000_0000_0000 * 1_000_000_000,
            r matches Some(t) ==> t.wf() && t.nanos_since_epoch() == -(secs * 1_000_000_000
                + nanos),
    {
        if nanos >= NANOS_PER_SEC {
            None
        } else if nanos == 0 {
            if secs <= i64::MAX as u64 {
                Some(Timestamp { secs: -(secs as i64), nanos: 0 })
            } else if secs == 0x8000_0000_0000_0000 {
                Some(Timestamp { secs: i64::MIN, nanos: 0 })
            } else {
                None
            }
        } else if secs <= i64::MAX as u64 {
            Some(Timestamp { secs: -(secs as i64) - 1, nanos: NANOS_PER_SEC - nanos })
        } else {
            None
        }
    }
}

/// One file found directly inside a scanned folder.
#[derive(Debug, PartialEq, Eq)]
pub struct DirectoryEntry {
    /// Base name of the file: the key on which two folders are joined.
    pub name: String,
    /// Length in bytes at the time of the scan.
    pub size_bytes: u64,
    /// Last modification, as the file system reported it.
    pub modified_at: Timestamp,
}

/// What a [`DirectoryEntry`] stands for.
pub struct EntryView {
    pub name: Seq<char>,
    pub size_bytes: u64,
    pub modified_at: Timestamp,
}

impl View for DirectoryEntry {
    type V = EntryView;

    open spec fn view(&self) -> EntryView {
        EntryView { name: self.name@, size_bytes: self.size_bytes, modified_at: self.modified_at }
    }
}

/// The views of a sequence of entries, in the same order.
pub open spec fn entry_views(entries: Seq<DirectoryEntry>) -> Seq<EntryView> {
    entries.map_values(|e: DirectoryEntry| e@)
}

/// Bytes in the unit in which sizes are shown.
pub const BYTES_PER_KIB: u64 = 1024;

impl DirectoryEntry {
    /// The record of a file of that name, size and modification time.
    pub fn new(name: String, size_bytes: u64, modified_at: Timestamp) -> (r: DirectoryEntry)
        ensures
            r.name == name,
            r.size_bytes == size_bytes,
            r.modified_at == modified_at,
    {
        DirectoryEntry { name, size_bytes, modified_at }
    }

    /// The size in whole kibibytes, rounded down.
    pub fn size_kib(&self) -> (r: u64)
        ensures
            r == self.size_bytes / 1024,
    {
        self.size_bytes / BYTES_PER_KIB
    }
}

impl Clone for DirectoryEntry {
    fn clone(&self) -> (r: DirectoryEntry)
        ensures
            r == *self,
    {
        DirectoryEntry {
            name: self.name.clone(),
            size_bytes: self.size_bytes,
            modified_at: self.modified_at,
        }
    }
}

/// One file name found in both folders, with the file's record on either
/// side. Both records carry that name.
#[derive(Debug, PartialEq, Eq)]
pub struct MatchedFile {
    name: String,
    side_a: DirectoryEntry,
    side_b: DirectoryEntry,
}

/// What a [`MatchedFile`] stands for.
pub struct MatchView {
    pub name: Seq<char>,
    pub side_a: EntryView,
    pub side_b: EntryView,
}

impl MatchView {
    /// Both sides carry the shared name.
    pub open spec fn well_paired(self) -> bool {
        self.side_a.name == self.name && self.side_b.name == self.name
    }
}

/// The match that pairs `side_a` with `side_b` under the name of `side_a`.
pub open spec fn paired(side_a: EntryView, side_b: EntryView) -> MatchView {
    MatchView { name: side_a.name, side_a, side_b }
}

impl View for MatchedFile {
    type V = MatchView;

    closed spec fn view(&self) -> MatchView {
        MatchView { name: self.name@, side_a: self.side_a@, side_b: self.side_b@ }
    }
}

/// The views of a sequence of matches, in the same order.
pub open spec fn match_views(matches: Seq<MatchedFile>) -> Seq<MatchView> {
    matches.map_values(|m: MatchedFile| m@)
}

impl MatchedFile {
    #[verifier::type_invariant]
    closed spec fn names_agree(self) -> bool {
        self@.well_paired()
    }

    /// Pairs two records of the same name; `None` when their names differ.
    pub fn pair(side_a: DirectoryEntry, side_b: DirectoryEntry) -> (r: Option<MatchedFile>)
        ensures
            r is Some <==> side_a@.name == side_b@.name,
            r matches Some(m) ==> m@ == paired(side_a@, side_b@),
    {
        if side_a.name == side_b.name {
            Some(MatchedFile { name: side_a.name.clone(), side_a, side_b })
        } else {
            None
        }
    }

    /// The shared file name.
    pub fn name(&self) -> (r: &String)
        ensures
            r@ == self@.name,
            self@.well_paired(),
    {
        proof {
            use_type_invariant(self);
        }
        &self.name
    }

    /// The file's record in the first folder.
    pub fn side_a(&self) -> (r: &DirectoryEntry)
        ensures
            r@ == self@.side_a,
    {
        &self.side_a
    }

    /// The file's record in the second folder.
    pub fn side_b(&self) -> (r: &DirectoryEntry)
        ensures
            r@ == self@.side_b,
    {
        &self.side_b
    }
}

impl Clone for MatchedFile {
    fn clone(&self) -> (r: MatchedFile)
        ensures
            r@ == self@,
    {
        proof {
            use_type_invariant(self);
        }
        MatchedFile {
            name: self.name.clone(),
            side_a: self.side_a.clone(),
            side_b: self.side_b.clone(),
        }
    }
}

} // verus!
