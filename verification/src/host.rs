//! A host's filesystem as the collection pass sees it: what reading a file,
//! listing a directory and looking at a path would give. It is the measure of
//! what a pass returns, and exists in contracts only.

use vstd::prelude::*;
use crate::node::ReadingsView;
use crate::walk::RequestView;

verus! {

/// What a host holds at each path.
pub struct HostView {
    /// The text of each file that can be read.
    pub files: Map<Seq<char>, Seq<char>>,
    /// For each directory that can be listed, the names of the directories
    /// in it, in the order in which a listing gives them.
    pub listings: Map<Seq<char>, Seq<Seq<char>>>,
    /// The paths at which there is a directory.
    pub directories: Set<Seq<char>>,
    /// The paths at which there is a file.
    pub regular_files: Set<Seq<char>>,
}

impl HostView {
    /// The text of the file at `path`, or `None` where it cannot be read.
    pub open spec fn read(self, path: Seq<char>) -> Option<Seq<char>> {
        if self.files.dom().contains(path) {
            Some(self.files[path])
        } else {
            None
        }
    }

    /// The names of the directories in the directory at `path`, or `None`
    /// where it cannot be listed.
    pub open spec fn list(self, path: Seq<char>) -> Option<Seq<Seq<char>>> {
        if self.listings.dom().contains(path) {
            Some(self.listings[path])
        } else {
            None
        }
    }

    pub open spec fn is_dir(self, path: Seq<char>) -> bool {
        self.directories.contains(path)
    }

    pub open spec fn is_file(self, path: Seq<char>) -> bool {
        self.regular_files.contains(path)
    }

    /// What reading all that `request` asks for gives on this host; what it
    /// does not ask for is left out.
    pub open spec fn answer(self, request: RequestView) -> ReadingsView {
        ReadingsView {
            cpu_stat: self.read(request.cpu_stat),
            memory_current: match request.memory_current {
                Some(path) => self.read(path),
                None => None,
            },
            memory_stat: match request.memory_stat {
                Some(path) => self.read(path),
                None => None,
            },
            children: match request.children {
                Some(path) => self.list(path),
                None => None,
            },
        }
    }

    /// Whether `readings` holds, for all that `request` asks for, what this
    /// host gives. What was not asked for may hold anything.
    pub open spec fn agrees(self, request: RequestView, readings: ReadingsView) -> bool {
        &&& readings.cpu_stat == self.read(request.cpu_stat)
        &&& request.memory_current matches Some(path) ==> readings.memory_current == self.read(
            path,
        )
        &&& request.memory_stat matches Some(path) ==> readings.memory_stat == self.read(path)
        &&& request.children matches Some(path) ==> readings.children == self.list(path)
    }
}

} // verus!
