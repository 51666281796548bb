//! The pluggable engine facade, and the startup decisions around it: which
//! engine a directory belongs to, and which file of a directory is the
//! active log.

use vstd::prelude::*;

use crate::chars::str_chars;
use crate::error::KvsError;
use crate::kv::KvStore;

verus! {

/// The uniform contract shared by every storage engine: `set`, `get` and
/// `remove` over an observable key-value mapping.  The log-structured
/// engine implements it here; an adapter over an embedded third-party store
/// implements it in the unverified shell around the crate.
pub trait KvsEngine: Sized {
    /// The engine's observable contents.  An engine implemented outside the
    /// verified crate leaves the default, which promises nothing.
    open spec fn kv_model(&self) -> Map<Seq<char>, Seq<char>> {
        Map::empty()
    }

    /// The engine's well-formedness between operations.
    open spec fn engine_inv(&self) -> bool {
        true
    }

    /// Binds `k` to `v`; never fails for a pre-existing key.
    fn set(&mut self, k: String, v: String) -> (r: Result<(), KvsError>)
        requires
            old(self).engine_inv(),
        ensures
            final(self).engine_inv(),
            r is Ok ==> final(self).kv_model() == old(self).kv_model().insert(k@, v@),
    ;

    /// Reads the value bound to `k`, or that there is none.
    fn get(&mut self, k: String) -> (r: Result<Option<String>, KvsError>)
        requires
            old(self).engine_inv(),
        ensures
            final(self).engine_inv(),
            final(self).kv_model() == old(self).kv_model(),
            r matches Ok(opt) ==> (((opt is Some) <==> old(self).kv_model().contains_key(k@)) && (
            opt matches Some(s) ==> s@ == old(self).kv_model()[k@])),
    ;

    /// Deletes `k`; an absent key is the key-not-found error.
    fn remove(&mut self, k: String) -> (r: Result<(), KvsError>)
        requires
            old(self).engine_inv(),
        ensures
            final(self).engine_inv(),
            r is Ok ==> old(self).kv_model().contains_key(k@) && final(self).kv_model() == old(self).kv_model().remove(k@),
            r == Err::<(), KvsError>(KvsError::KeyNotFound) ==> !old(self).kv_model().contains_key(k@) && final(self).kv_model() == old(self).kv_model(),
    ;
}

impl KvsEngine for KvStore {
    open spec fn kv_model(&self) -> Map<Seq<char>, Seq<char>> {
        self.kv()
    }

    open spec fn engine_inv(&self) -> bool {
        self.inv()
    }

    fn set(&mut self, k: String, v: String) -> (r: Result<(), KvsError>) {
        KvStore::set(self, k, v)
    }

    fn get(&mut self, k: String) -> (r: Result<Option<String>, KvsError>) {
        KvStore::get(self, k)
    }

    fn remove(&mut self, k: String) -> (r: Result<(), KvsError>) {
        KvStore::remove(self, k)
    }
}

/// Which storage engine a server runs.
#[derive(Clone, Copy, Debug, PartialEq, Eq, Structural)]
pub enum EngineKind {
    /// The log-structured engine of this crate.
    Kvs,
    /// The adapter over the embedded third-party store.
    Sled,
}

impl EngineKind {
    /// The engine's name, which is also the name of the directory it owns.
    pub fn name(&self) -> (r: String)
        ensures
            *self matches EngineKind::Kvs ==> r@ == "kvs"@,
            *self matches EngineKind::Sled ==> r@ == "sled"@,
    {
        match self {
            EngineKind::Kvs => String::from_str("kvs"),
            EngineKind::Sled => String::from_str("sled"),
        }
    }

    /// The other engine.
    pub fn other(&self) -> (r: EngineKind)
        ensures
            r != *self,
            *self matches EngineKind::Kvs ==> r matches EngineKind::Sled,
            *self matches EngineKind::Sled ==> r matches EngineKind::Kvs,
    {
        match self {
            EngineKind::Kvs => EngineKind::Sled,
            EngineKind::Sled => EngineKind::Kvs,
        }
    }
}

/// The startup check of the server: given whether the selected engine's
/// directory exists and whether the other engine's directory exists, says
/// whether the working directory belongs to the other engine — in which
/// case the server must refuse to start.
pub fn wrong_engine(selected_dir_exists: bool, other_dir_exists: bool) -> (r: bool)
    ensures
        r == (!selected_dir_exists && other_dir_exists),
{
    !selected_dir_exists && other_dir_exists
}

/// Whether a file name ends in `.log`.
pub open spec fn is_log_name(s: Seq<char>) -> bool {
    s.len() >= 4 && s.subrange(s.len() - 4, s.len() as int) == ".log"@
}

/// Whether this file name ends in `.log`.
fn ends_in_log(s: &String) -> (r: bool)
    ensures
        r == is_log_name(s@),
{
    let cs = str_chars(s.as_str());
    let n = cs.len();
    if n < 4 {
        return false;
    }
    proof {
        reveal_strlit(".log");
    }
    let ok = cs[n - 4] == '.' && cs[n - 3] == 'l' && cs[n - 2] == 'o' && cs[n - 1] == 'g';
    proof {
        if ok {
            assert(s@.subrange(n - 4, n as int) =~= ".log"@);
        }
        if is_log_name(s@) {
            assert(s@.subrange(n - 4, n as int)[0] == s@[n - 4]);
            assert(s@.subrange(n - 4, n as int)[1] == s@[n - 3]);
            assert(s@.subrange(n - 4, n as int)[2] == s@[n - 2]);
            assert(s@.subrange(n - 4, n as int)[3] == s@[n - 1]);
        }
    }
    ok
}

/// Which of a directory's file names is the active log: the first one that
/// ends in `.log`.  The shell hands the names sorted, so the pick is
/// deterministic; none means a fresh log file is to be created.
pub fn pick_active_log(names: &Vec<String>) -> (r: Option<usize>)
    ensures
        r matches Some(i) ==> i < names@.len() && is_log_name(names@[i as int]@) && (forall|j: int|
            0 <= j < i ==> !is_log_name(names@[j]@)),
        r is None ==> forall|j: int| 0 <= j < names@.len() ==> !is_log_name(names@[j]@),
{
    let n = names.len();
    let mut i: usize = 0;
    while i < n
        invariant
            0 <= i <= n,
            n == names@.len(),
            forall|j: int| 0 <= j < i ==> !is_log_name(names@[j]@),
        decreases n - i,
    {
        if ends_in_log(&names[i]) {
            return Some(i);
        }
        i = i + 1;
    }
    None
}

} // verus!
