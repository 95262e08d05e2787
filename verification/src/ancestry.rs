//! Whether Xcode launched a process, told from its ancestors.

use crate::text::same_text;
use vstd::prelude::*;

verus! {

/// What is known of the ancestors of a process.
#[derive(Debug, Clone, Copy, PartialEq, Eq, Structural)]
pub enum Ancestry {
    /// Xcode is one of them.
    Xcode,
    /// Xcode is none of them.
    NotXcode,
    /// The parent of this process has to be looked at.
    ParentOf {
        /// The number of the process.
        pid: u32,
    },
}

/// What is known before any ancestor was looked at. `xcode_version` tells whether the
/// environment names the version of Xcode, without which nothing else counts.
pub open spec fn first_ancestry(xcode_version: bool, pid: u32) -> Ancestry {
    if xcode_version {
        Ancestry::ParentOf { pid }
    } else {
        Ancestry::NotXcode
    }
}

/// What is known after the next ancestor was looked at: its number, if there is one, and
/// its name, if it could be told. The ancestors end before process 1.
pub open spec fn next_ancestry(parent: Option<u32>, name: Option<Seq<char>>) -> Ancestry {
    match parent {
        None => Ancestry::NotXcode,
        Some(pid) => if pid == 1 {
            Ancestry::NotXcode
        } else if name == Some("Xcode"@) {
            Ancestry::Xcode
        } else {
            Ancestry::ParentOf { pid }
        },
    }
}

/// Starts to look at the ancestors of the process `pid`.
pub fn launched_from_xcode(xcode_version: bool, pid: u32) -> (ancestry: Ancestry)
    ensures
        ancestry == first_ancestry(xcode_version, pid),
{
    if xcode_version {
        Ancestry::ParentOf { pid }
    } else {
        Ancestry::NotXcode
    }
}

impl Ancestry {
    /// Goes on with the next ancestor.
    pub fn advance(parent: Option<u32>, name: Option<String>) -> (ancestry: Ancestry)
        ensures
            ancestry == next_ancestry(
                parent,
                match name {
                    Some(name) => Some(name@),
                    None => None,
                },
            ),
    {
        match parent {
            None => Ancestry::NotXcode,
            Some(pid) => {
                if pid == 1 {
                    return Ancestry::NotXcode;
                }
                if let Some(name) = name {
                    if same_text(name.as_str(), "Xcode") {
                        return Ancestry::Xcode;
                    }
                }
                Ancestry::ParentOf { pid }
            },
        }
    }
}

/// What is known after all ancestors were looked at, nearest first: the number of each,
/// and its name if it could be told.
pub open spec fn after(ancestors: Seq<(u32, Option<Seq<char>>)>) -> Ancestry
    decreases ancestors.len(),
{
    if ancestors.len() == 0 {
        next_ancestry(None, None)
    } else {
        match next_ancestry(Some(ancestors[0].0), ancestors[0].1) {
            Ancestry::ParentOf { .. } => after(ancestors.skip(1)),
            known => known,
        }
    }
}

/// Xcode launched a process exactly if one of its ancestors is called `Xcode`, and comes
/// before process 1.
pub proof fn law_xcode_is_an_ancestor(ancestors: Seq<(u32, Option<Seq<char>>)>)
    ensures
        after(ancestors) is Xcode || after(ancestors) is NotXcode,
        after(ancestors) is Xcode <==> exists|i: int|
            #![trigger ancestors[i]]
            {
                &&& 0 <= i < ancestors.len()
                &&& ancestors[i].1 == Some("Xcode"@)
                &&& forall|j: int| 0 <= j <= i ==> (#[trigger] ancestors[j]).0 != 1
            },
    decreases ancestors.len(),
{
    if ancestors.len() > 0 {
        let tail = ancestors.skip(1);
        law_xcode_is_an_ancestor(tail);
        if next_ancestry(Some(ancestors[0].0), ancestors[0].1) is ParentOf {
            if after(tail) is Xcode {
                let i = choose|i: int|
                    #![trigger tail[i]]
                    {
                        &&& 0 <= i < tail.len()
                        &&& tail[i].1 == Some("Xcode"@)
                        &&& forall|j: int| 0 <= j <= i ==> (#[trigger] tail[j]).0 != 1
                    };
                assert(ancestors[i + 1] == tail[i]);
                assert forall|j: int| 0 <= j <= i + 1 implies (#[trigger] ancestors[j]).0
                    != 1 by {
                    if j > 0 {
                        assert(ancestors[j] == tail[j - 1]);
                    }
                }
            }
            assert forall|i: int|
                #![trigger ancestors[i]]
                {
                    &&& 0 <= i < ancestors.len()
                    &&& ancestors[i].1 == Some("Xcode"@)
                    &&& forall|j: int| 0 <= j <= i ==> (#[trigger] ancestors[j]).0 != 1
                } implies after(tail) is Xcode by {
                assert(tail[i - 1] == ancestors[i]);
                assert forall|j: int| 0 <= j <= i - 1 implies (#[trigger] tail[j]).0 != 1 by {
                    assert(tail[j] == ancestors[j + 1]);
                }
            }
        }
    }
}

/// Nothing is looked at where the environment names no version of Xcode; otherwise the
/// ancestors of this very process are.
pub proof fn law_first_ancestor(pid: u32)
    ensures
        first_ancestry(false, pid) is NotXcode,
        first_ancestry(true, pid) == (Ancestry::ParentOf { pid }),
{
}

/// An ancestor other than process 1 that is called `Xcode` settles the question; any other
/// one leads on to its own parent. Process 1, and having no parent, end the search.
pub proof fn law_next_ancestor(pid: u32, name: Option<Seq<char>>)
    ensures
        next_ancestry(None, name) is NotXcode,
        next_ancestry(Some(1), name) is NotXcode,
        pid != 1 && name is Some && name->0 == "Xcode"@ ==> next_ancestry(Some(pid), name) is Xcode,
        pid != 1 && (name is None || name->0 != "Xcode"@) ==> next_ancestry(Some(pid), name) == (
        Ancestry::ParentOf { pid }),
{
}

} // verus!
