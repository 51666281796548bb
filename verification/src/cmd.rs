//! The command record: one entry in the log, and the cached index entry
//! that points at it.

use vstd::prelude::*;

verus! {

/// One entry in the log: a write, a tombstone, or the uninitialised
/// placeholder that must never appear on disk.
#[derive(Debug)]
pub enum Cmd {
    /// Bind `key` to `value`.  On the wire and on disk this variant keeps
    /// the tag `Set`; the name here stays clear of the verifier's vocabulary.
    Put { key: String, value: String },
    /// Delete `key`.
    Remove { key: String },
    /// The uninitialised placeholder.  Reading it back from a log is a
    /// fatal corruption signal.
    Empty,
}

/// The mathematical shape of a [`Cmd`]: the same three variants over
/// character sequences.
pub enum CmdView {
    Put { key: Seq<char>, value: Seq<char> },
    Remove { key: Seq<char> },
    Empty,
}

impl View for Cmd {
    type V = CmdView;

    open spec fn view(&self) -> CmdView {
        match self {
            Cmd::Put { key, value } => CmdView::Put { key: key@, value: value@ },
            Cmd::Remove { key } => CmdView::Remove { key: key@ },
            Cmd::Empty => CmdView::Empty,
        }
    }
}

impl CmdView {
    /// The key a command speaks of; the placeholder has none.
    pub open spec fn key(self) -> Seq<char>
        recommends
            !(self is Empty),
    {
        match self {
            CmdView::Put { key, .. } => key,
            CmdView::Remove { key } => key,
            CmdView::Empty => Seq::empty(),
        }
    }
}

impl Clone for Cmd {
    fn clone(&self) -> (r: Self)
        ensures
            r@ == self@,
    {
        match self {
            Cmd::Put { key, value } => Cmd::Put { key: key.clone(), value: value.clone() },
            Cmd::Remove { key } => Cmd::Remove { key: key.clone() },
            Cmd::Empty => Cmd::Empty,
        }
    }
}

impl Cmd {
    /// The key this command speaks of.
    pub fn get_key(&self) -> (r: &String)
        requires
            !(self@ is Empty),
        ensures
            r@ == self@.key(),
    {
        match self {
            Cmd::Empty => unreached(),
            Cmd::Put { key, .. } => key,
            Cmd::Remove { key } => key,
        }
    }
}

/// An index entry: where the latest record for a key starts in the log,
/// how many characters it spans, and a cached copy of the command itself,
/// kept so that compaction never has to read the log back.
#[derive(Debug)]
pub struct CmdIdx {
    pub start: usize,
    pub len: usize,
    pub cmd: Cmd,
}

/// The mathematical shape of a [`CmdIdx`].
pub struct IdxModel {
    pub start: int,
    pub len: int,
    pub cmd: CmdView,
}

impl View for CmdIdx {
    type V = IdxModel;

    open spec fn view(&self) -> IdxModel {
        IdxModel { start: self.start as int, len: self.len as int, cmd: self.cmd@ }
    }
}

impl CmdIdx {
    /// Packs an index entry.
    pub fn new(start: usize, len: usize, cmd: Cmd) -> (r: Self)
        ensures
            r@ == (IdxModel { start: start as int, len: len as int, cmd: cmd@ }),
    {
        Self { start, len, cmd }
    }

    /// The uninitialised entry, holding the placeholder command.
    pub fn default() -> (r: Self)
        ensures
            r@ == (IdxModel { start: 0, len: 0, cmd: CmdView::Empty }),
    {
        Self::new(0, 0, Cmd::Empty)
    }
}

} // verus!
