//! OPC container access: archive readers and model discovery.

pub mod model_locator;
pub mod opc;

use vstd::prelude::*;
use crate::error::Lib3mfError;
use crate::model::resolver::{strip_slashes, without_leading_slashes};
use crate::text::same_text;

verus! {

/// Read access to the entries of a package archive.
///
/// An archive is modelled by [`ArchiveReader::entry`], what reading each entry gives, and
/// [`ArchiveReader::has_entry`], which entries the archive lists. Implementations promise
/// that reading gives that content (and fails exactly where there is none), that asking for
/// an entry answers `has_entry`, that an entry that can be read is listed, and that asking
/// changes nothing.
pub trait ArchiveReader {
    /// The content that reading the entry `name` gives, `None` where reading it fails.
    spec fn entry(&self, name: Seq<char>) -> Option<Seq<u8>>;

    /// Whether the archive lists an entry `name`.
    spec fn has_entry(&self, name: Seq<char>) -> bool;

    /// The content of the entry `name`.
    fn read_entry(&mut self, name: &str) -> (r: Result<Vec<u8>, Lib3mfError>)
        ensures
            forall|n: Seq<char>| #[trigger] final(self).entry(n) == old(self).entry(n),
            forall|n: Seq<char>| #[trigger] final(self).has_entry(n) == old(self).has_entry(n),
            match old(self).entry(name@) {
                Some(d) => r matches Ok(v) && v@ == d,
                None => r is Err,
            };

    /// Whether the archive has an entry `name` (one that can be read has one).
    fn entry_exists(&mut self, name: &str) -> (r: bool)
        ensures
            forall|n: Seq<char>| #[trigger] final(self).entry(n) == old(self).entry(n),
            forall|n: Seq<char>| #[trigger] final(self).has_entry(n) == old(self).has_entry(n),
            r == old(self).has_entry(name@),
            old(self).entry(name@) is Some ==> r;

    /// The names of all entries.
    fn list_entries(&mut self) -> (r: Result<Vec<String>, Lib3mfError>)
        ensures
            forall|n: Seq<char>| #[trigger] final(self).entry(n) == old(self).entry(n),
            forall|n: Seq<char>| #[trigger] final(self).has_entry(n) == old(self).has_entry(n);
}

/// The content stored under `name` in a list of (name, content) entries: the first match.
pub open spec fn stored(entries: Seq<(String, Vec<u8>)>, name: Seq<char>) -> Option<Seq<u8>>
    decreases entries.len(),
{
    if entries.len() == 0 {
        None
    } else if entries[0].0@ == name {
        Some(entries[0].1@)
    } else {
        stored(entries.drop_first(), name)
    }
}

/// A package archive held in memory: its entries by name (as stored in the container,
/// without a leading slash). A name asked for is looked up without its leading slashes.
pub struct MemoryArchive {
    /// The entries: name and content.
    pub entries: Vec<(String, Vec<u8>)>,
}

impl MemoryArchive {
    /// The index of the first entry named `name`.
    fn find(&self, name: &str) -> (r: Option<usize>)
        ensures
            match r {
                Some(i) => i < self.entries@.len() && stored(self.entries@, name@) == Some(self.entries@[i as int].1@),
                None => stored(self.entries@, name@) is None,
            },
    {
        let mut i: usize = 0;
        proof {
            assert(self.entries@.skip(0) =~= self.entries@);
        }
        while i < self.entries.len()
            invariant
                i <= self.entries@.len(),
                stored(self.entries@, name@) == stored(self.entries@.skip(i as int), name@),
            decreases self.entries@.len() - i,
        {
            proof {
                assert(self.entries@.skip(i as int)[0] == self.entries@[i as int]);
                assert(self.entries@.skip(i as int).drop_first() =~= self.entries@.skip(i + 1));
            }
            if same_text(self.entries[i].0.as_str(), name) {
                return Some(i);
            }
            i = i + 1;
        }
        None
    }
}

impl ArchiveReader for MemoryArchive {
    open spec fn entry(&self, name: Seq<char>) -> Option<Seq<u8>> {
        stored(self.entries@, strip_slashes(name))
    }

    open spec fn has_entry(&self, name: Seq<char>) -> bool {
        stored(self.entries@, strip_slashes(name)) is Some
    }

    fn read_entry(&mut self, name: &str) -> (r: Result<Vec<u8>, Lib3mfError>) {
        let key = without_leading_slashes(name);
        match self.find(key.as_str()) {
            Some(i) => Ok(self.entries[i].1.clone()),
            None => Err(Lib3mfError::Io(key)),
        }
    }

    fn entry_exists(&mut self, name: &str) -> (r: bool) {
        let key = without_leading_slashes(name);
        self.find(key.as_str()).is_some()
    }

    fn list_entries(&mut self) -> (r: Result<Vec<String>, Lib3mfError>) {
        let mut names: Vec<String> = Vec::new();
        let mut i: usize = 0;
        while i < self.entries.len()
            invariant
                i <= self.entries@.len(),
            decreases self.entries@.len() - i,
        {
            names.push(self.entries[i].0.clone());
            i = i + 1;
        }
        Ok(names)
    }
}

/// Write access to a package archive.
pub trait ArchiveWriter {
    /// Writes `data` as the entry `name`.
    fn write_entry(&mut self, name: &str, data: &[u8]) -> Result<(), Lib3mfError>;
}

} // verus!
