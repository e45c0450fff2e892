//! Activation by symlink: what lies at a path, what enabling and disabling do to
//! it, and the model of an activation directory they act on.

use vstd::prelude::*;

use crate::manager::ManagerError;

verus! {

/// What a path holds, as seen without following a final symlink (for a
/// directory that must exist, as seen through symlinks).
#[derive(Debug, Clone, Copy, PartialEq, Eq, Structural)]
pub enum Entry {
    Absent,
    Symlink,
    Directory,
    File,
}

/// How an activation link is put in place.
#[derive(Debug, Clone, Copy, PartialEq, Eq, Structural)]
pub enum LinkStep {
    /// Nothing is there: create the symlink.
    Create,
    /// A stale symlink is there: remove it, then create the symlink.
    Replace,
}

/// The directory a path must be: created when absent, refused when it is not one.
pub open spec fn directory_step(e: Entry) -> Result<bool, ManagerError> {
    match e {
        Entry::Absent => Ok(true),
        Entry::Directory => Ok(false),
        _ => Err(ManagerError::NotADirectory),
    }
}

/// Putting a link in place: a symlink is replaced, anything else that is not a
/// symlink is never overwritten.
pub open spec fn link_step_spec(e: Entry) -> Result<LinkStep, ManagerError> {
    match e {
        Entry::Absent => Ok(LinkStep::Create),
        Entry::Symlink => Ok(LinkStep::Replace),
        _ => Err(ManagerError::Occupied),
    }
}

/// Whether a directory must be created (`true`), is already there (`false`), or
/// is something else (an error).
pub fn prepare_directory(e: Entry) -> (r: Result<bool, ManagerError>)
    ensures
        r == directory_step(e),
{
    match e {
        Entry::Absent => Ok(true),
        Entry::Directory => Ok(false),
        _ => Err(ManagerError::NotADirectory),
    }
}

/// How to put an activation link where `e` lies.
pub fn link_step(e: Entry) -> (r: Result<LinkStep, ManagerError>)
    ensures
        r == link_step_spec(e),
{
    match e {
        Entry::Absent => Ok(LinkStep::Create),
        Entry::Symlink => Ok(LinkStep::Replace),
        _ => Err(ManagerError::Occupied),
    }
}

/// Whether disabling removes what lies at the activation path: only a symlink
/// is removed; absence is no error.
pub fn unlink_step(e: Entry) -> (r: bool)
    ensures
        r == (e == Entry::Symlink),
{
    match e {
        Entry::Symlink => true,
        _ => false,
    }
}

/// The file name of the activation link of extension `name`.
pub open spec fn link_name(name: Seq<char>) -> Seq<char> {
    name + ".raw"@
}

/// What a directory, given by the entries it names, holds at `p`.
pub open spec fn entry_at(dir: Map<Seq<char>, Entry>, p: Seq<char>) -> Entry {
    if dir.contains_key(p) {
        dir[p]
    } else {
        Entry::Absent
    }
}

/// The activation directory after enabling `name` (unchanged when refused).
pub open spec fn after_enable(dir: Map<Seq<char>, Entry>, name: Seq<char>) -> Map<Seq<char>, Entry> {
    if link_step_spec(entry_at(dir, link_name(name))) is Ok {
        dir.insert(link_name(name), Entry::Symlink)
    } else {
        dir
    }
}

/// The activation directory after disabling `name`.
pub open spec fn after_disable(dir: Map<Seq<char>, Entry>, name: Seq<char>) -> Map<Seq<char>, Entry> {
    if entry_at(dir, link_name(name)) == Entry::Symlink {
        dir.remove(link_name(name))
    } else {
        dir
    }
}

/// Enabling then disabling an extension leaves no activation link for it and
/// touches no other entry; disabling a second time changes nothing.
pub proof fn lemma_enable_then_disable(dir: Map<Seq<char>, Entry>, name: Seq<char>)
    requires
        link_step_spec(entry_at(dir, link_name(name))) is Ok,
    ensures
        entry_at(after_disable(after_enable(dir, name), name), link_name(name)) == Entry::Absent,
        forall|p: Seq<char>|
            p != link_name(name) ==> entry_at(after_disable(after_enable(dir, name), name), p)
                == entry_at(dir, p),
        after_disable(after_disable(dir, name), name) == after_disable(dir, name),
{
    let e = after_enable(dir, name);
    assert(entry_at(e, link_name(name)) == Entry::Symlink);
    assert(after_disable(after_disable(dir, name), name) =~= after_disable(dir, name));
}

} // verus!
