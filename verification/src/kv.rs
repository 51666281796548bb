//! The log-structured storage engine.
//!
//! The engine holds the whole active log as a sequence of characters, an
//! index from key to the place of the latest record for that key, and a
//! counter of bytes that compaction could reclaim.  Every `set` and `remove`
//! appends one record; once the counter passes the threshold the log is
//! rewritten to one record per live key.  The unverified shell around the
//! crate keeps the character sequence on disk: it appends what `set` and
//! `remove` appended, rewrites the file when the generation moves, and hands
//! the file's text back to [`KvStore::open`] on a restart.

use vstd::prelude::*;

use crate::chars::append_chars;
use crate::chars::chars_string;
use crate::chars::str_chars;
use crate::cmd::Cmd;
use crate::cmd::CmdIdx;
use crate::cmd::CmdView;
use crate::cmd::IdxModel;
use crate::codec::dec_cmd;
use crate::codec::decode_cmd;
use crate::codec::enc_cmd;
use crate::codec::encode_cmd;
use crate::codec::lemma_cmd_canon;
use crate::codec::lemma_cmd_round_trip;
use crate::codec::lemma_concat_parts;
use crate::codec::lemma_skip_skip;
use crate::error::KvsError;
use crate::index::lemma_map_of_domain;
use crate::index::lemma_map_of_member;
use crate::index::Index;

verus! {

/// Once more than this many uncompacted characters sit in the log, a
/// mutating operation triggers compaction.
pub const MAX_LOG_UNCOMPACTED_BYTES: u64 = 1048576;

/// What replaying a log yields: the folded index, or the way the log is bad.
pub enum ReplayRes {
    /// Every record parsed and none was the placeholder.
    Fine(Map<Seq<char>, IdxModel>),
    /// A malformed or truncated record.
    Malformed,
    /// A placeholder record was found on disk.
    Corrupt,
}

/// Replays `s` from position `off` onto the partial index `acc`: each
/// record in turn overrides the entry for its key.
pub open spec fn replay_from(s: Seq<char>, off: int, acc: Map<Seq<char>, IdxModel>) -> ReplayRes
    decreases s.len() - off,
{
    if off < 0 || off > s.len() {
        ReplayRes::Malformed
    } else if off == s.len() {
        ReplayRes::Fine(acc)
    } else {
        match dec_cmd(s.skip(off)) {
            None => ReplayRes::Malformed,
            Some(p) => {
                if p.0 is Empty {
                    ReplayRes::Corrupt
                } else if p.1 < 1 || off + p.1 > s.len() {
                    ReplayRes::Malformed
                } else {
                    replay_from(
                        s,
                        off + p.1,
                        acc.insert(p.0.key(), IdxModel { start: off, len: p.1, cmd: p.0 }),
                    )
                }
            },
        }
    }
}

/// Replaying a whole log from its first character onto an empty index.
pub open spec fn replay(s: Seq<char>) -> ReplayRes {
    replay_from(s, 0, Map::empty())
}

/// The key-value contents that an index implies: the keys whose latest
/// record is a write, each bound to the written value.
pub open spec fn kv_of(m: Map<Seq<char>, IdxModel>) -> Map<Seq<char>, Seq<char>> {
    Map::new(
        |k: Seq<char>| m.contains_key(k) && m[k].cmd is Put,
        |k: Seq<char>|
            match m[k].cmd {
                CmdView::Put { value, .. } => value,
                _ => Seq::empty(),
            },
    )
}

/// An index entry is sound for a log: it points at a stretch of the log
/// that is exactly the encoding of its cached command, and the command
/// speaks of the entry's key.
pub open spec fn entry_ok(log: Seq<char>, k: Seq<char>, e: IdxModel) -> bool {
    &&& 0 <= e.start
    &&& 1 <= e.len
    &&& e.start + e.len <= log.len()
    &&& !(e.cmd is Empty)
    &&& e.cmd.key() == k
    &&& log.subrange(e.start, e.start + e.len) == enc_cmd(e.cmd)
}

/// Appending one well-formed record to a log that replays fine extends the
/// replayed index by exactly that record's entry.
proof fn lemma_replay_append(
    s: Seq<char>,
    off: int,
    acc: Map<Seq<char>, IdxModel>,
    m: Map<Seq<char>, IdxModel>,
    c: CmdView,
)
    requires
        0 <= off <= s.len(),
        replay_from(s, off, acc) == ReplayRes::Fine(m),
        !(c is Empty),
    ensures
        replay_from(s + enc_cmd(c), off, acc) == ReplayRes::Fine(
            m.insert(
                c.key(),
                IdxModel { start: s.len() as int, len: enc_cmd(c).len() as int, cmd: c },
            ),
        ),
    decreases s.len() - off,
{
    let e = enc_cmd(c);
    let t = s + e;
    lemma_concat_parts(s, e);
    if off == s.len() {
        assert(t.skip(off) == e);
        lemma_cmd_round_trip(c, Seq::empty());
        assert(e + Seq::<char>::empty() =~= e);
        assert(dec_cmd(t.skip(off)) == Some((c, e.len() as int)));
        assert(replay_from(t, off + e.len(), acc.insert(c.key(), IdxModel { start: off, len: e.len() as int, cmd: c }))
            == ReplayRes::Fine(acc.insert(c.key(), IdxModel { start: off, len: e.len() as int, cmd: c })));
    } else {
        match dec_cmd(s.skip(off)) {
            None => {
                assert(false);
            },
            Some(p) => {
                lemma_cmd_canon(s.skip(off));
                assert(s.skip(off).take(p.1) == enc_cmd(p.0));
                assert(enc_cmd(p.0).len() == p.1);
                lemma_skip_skip(s, off, p.1);
                assert(t.skip(off) =~= s.skip(off) + e);
                assert(s.skip(off) =~= s.skip(off).take(p.1) + s.skip(off).skip(p.1));
                assert(t.skip(off) =~= enc_cmd(p.0) + (s.skip(off + p.1) + e));
                lemma_cmd_round_trip(p.0, s.skip(off + p.1) + e);
                assert(dec_cmd(t.skip(off)) == Some(p));
                lemma_replay_append(
                    s,
                    off + p.1,
                    acc.insert(p.0.key(), IdxModel { start: off, len: p.1, cmd: p.0 }),
                    m,
                    c,
                );
            },
        }
    }
}

/// The storage engine: the active log held as characters, the in-memory
/// index, and the compaction bookkeeping.
pub struct KvStore {
    log: Vec<char>,
    index: Index,
    uncompacted: u64,
    generation: u64,
}

impl KvStore {
    /// The characters of the active log.
    pub closed spec fn log_view(self) -> Seq<char> {
        self.log@
    }

    /// The index as a finite map.
    pub closed spec fn index_model(self) -> Map<Seq<char>, IdxModel> {
        self.index.model()
    }

    /// The store's observable contents.
    pub closed spec fn kv(self) -> Map<Seq<char>, Seq<char>> {
        kv_of(self.index.model())
    }

    /// How many appended characters compaction could reclaim.
    pub closed spec fn uncompacted_bytes(self) -> u64 {
        self.uncompacted
    }

    /// Moves whenever the engine rewrites its log wholesale.
    pub closed spec fn generation_id(self) -> u64 {
        self.generation
    }

    /// The sum of the record lengths that the index points at: the size of
    /// a log holding exactly one record per live key.
    pub closed spec fn live_len(self) -> int {
        sum_lens(self.index.slots())
    }

    /// The engine's private well-formedness, compaction bookkeeping aside.
    spec fn core_inv(self) -> bool {
        &&& self.index.wf()
        &&& replay(self.log@) == ReplayRes::Fine(self.index.model())
        &&& forall|k: Seq<char>|
            self.index.model().contains_key(k) ==> entry_ok(
                self.log@,
                k,
                #[trigger] self.index.model()[k],
            )
    }

    /// The engine's well-formedness between operations.
    pub closed spec fn inv(self) -> bool {
        &&& self.core_inv()
        &&& self.uncompacted as int <= self.log@.len()
        &&& self.uncompacted <= MAX_LOG_UNCOMPACTED_BYTES
    }

    /// Opens an engine over the text of an existing (possibly empty) log.
    ///
    /// The index is rebuilt by streaming the records from the first
    /// character; the compaction counter restarts at zero.
    pub fn open(content: &str) -> (r: Result<KvStore, KvsError>)
        ensures
            match replay(content@) {
                ReplayRes::Fine(m) => r matches Ok(s) && s.inv() && s.log_view() == content@
                    && s.kv() == kv_of(m) && s.index_model() == m && s.uncompacted_bytes() == 0,
                ReplayRes::Malformed => r == Err::<KvStore, KvsError>(KvsError::Codec),
                ReplayRes::Corrupt => r == Err::<KvStore, KvsError>(
                    KvsError::UnexpectedCommandType,
                ),
            },
    {
        let log = str_chars(content);
        let mut index = Index::new();
        let mut pos: usize = 0;
        loop
            invariant
                pos <= log@.len(),
                log@ == content@,
                index.wf(),
                replay(log@) == replay_from(log@, pos as int, index.model()),
                forall|k: Seq<char>|
                    index.model().contains_key(k) ==> entry_ok(
                        log@,
                        k,
                        #[trigger] index.model()[k],
                    ),
            ensures
                log@ == content@,
                index.wf(),
                replay(log@) == ReplayRes::Fine(index.model()),
                forall|k: Seq<char>|
                    index.model().contains_key(k) ==> entry_ok(
                        log@,
                        k,
                        #[trigger] index.model()[k],
                    ),
            decreases log@.len() - pos,
        {
            if pos == log.len() {
                proof {
                    assert(replay_from(log@, pos as int, index.model()) == ReplayRes::Fine(
                        index.model(),
                    ));
                }
                break ;
            }
            match decode_cmd(&log, pos) {
                None => {
                    return Err(KvsError::Codec);
                },
                Some(pair) => {
                    let (cmd, np) = pair;
                    let len = np - pos;
                    proof {
                        lemma_cmd_canon(log@.skip(pos as int));
                    }
                    match &cmd {
                        Cmd::Empty => {
                            return Err(KvsError::UnexpectedCommandType);
                        },
                        _ => {
                            let key = cmd.get_key().clone();
                            proof {
                                assert(log@.subrange(pos as int, np as int) =~= log@.skip(
                                    pos as int,
                                ).take(np - pos));
                            }
                            index.insert(key, CmdIdx::new(pos, len, cmd));
                            pos = np;
                        },
                    }
                },
            }
        }
        let store = KvStore { log, index, uncompacted: 0, generation: 0 };
        Ok(store)
    }

    /// Appends one record for `key`, updates the index, charges the
    /// compaction counter, and compacts once the threshold is passed.
    fn append_cmd(&mut self, key: String, cmd: Cmd)
        requires
            old(self).inv(),
            cmd@.key() == key@,
            !(cmd@ is Empty),
        ensures
            final(self).inv(),
            final(self).kv() == kv_of(
                old(self).index_model().insert(
                    key@,
                    IdxModel {
                        start: old(self).log_view().len() as int,
                        len: enc_cmd(cmd@).len() as int,
                        cmd: cmd@,
                    },
                ),
            ),
            final(self).generation_id() == old(self).generation_id() ==> final(self).log_view()
                == old(self).log_view() + enc_cmd(cmd@) && final(self).uncompacted_bytes()
                == old(self).uncompacted_bytes() + enc_cmd(cmd@).len(),
            final(self).generation_id() != old(self).generation_id() ==> final(self).uncompacted_bytes() == 0 && final(self).log_view().len() == final(self).live_len(),
            final(self).generation_id() != old(self).generation_id() <==> old(self).uncompacted_bytes() + enc_cmd(cmd@).len() > MAX_LOG_UNCOMPACTED_BYTES,
    {
        let ghost log0 = self.log@;
        let ghost m0 = self.index.model();
        let pos = self.log.len();
        let rec = encode_cmd(&cmd);
        let len = rec.len();
        append_chars(&mut self.log, &rec);
        let total = self.log.len();
        proof {
            lemma_replay_append(log0, 0, Map::empty(), m0, cmd@);
            lemma_cmd_round_trip(cmd@, Seq::empty());
            assert forall|kk: Seq<char>| m0.contains_key(kk) implies entry_ok(
                self.log@,
                kk,
                #[trigger] m0[kk],
            ) by {
                assert(entry_ok(log0, kk, m0[kk]));
                assert(self.log@.subrange(m0[kk].start, m0[kk].start + m0[kk].len) =~= log0.subrange(
                    m0[kk].start,
                    m0[kk].start + m0[kk].len,
                ));
            };
            assert(self.log@.subrange(pos as int, pos + len) =~= rec@);
        }
        self.index.insert(key, CmdIdx::new(pos, len, cmd));
        proof {
            assert(self.uncompacted as int <= log0.len());
            assert(total as int == log0.len() + len);
            assert(self.uncompacted as int + len as int <= total as int);
        }
        self.uncompacted = self.uncompacted + (len as u64);
        if self.uncompacted > MAX_LOG_UNCOMPACTED_BYTES {
            self.compact();
        }
    }

    /// Rewrites the log to exactly one record per live key, rebuilds the
    /// index to point into the new log, and clears the compaction counter.
    /// The observable contents do not move.
    fn compact(&mut self)
        requires
            old(self).core_inv(),
        ensures
            final(self).inv(),
            final(self).kv() == old(self).kv(),
            final(self).uncompacted_bytes() == 0,
            final(self).generation_id() != old(self).generation_id(),
            final(self).log_view().len() == final(self).live_len(),
    {
        let ghost old_slots = self.index.slots();
        let ghost om = self.index.model();
        proof {
            assert forall|j: int| 0 <= j < old_slots.len() implies !((#[trigger] old_slots[j]).1.cmd
                is Empty) && old_slots[j].1.cmd.key() == old_slots[j].0 by {
                lemma_map_of_member(old_slots, j);
                assert(entry_ok(self.log@, old_slots[j].0, om[old_slots[j].0]));
            };
        }
        let n = self.index.len();
        let mut new_log: Vec<char> = Vec::new();
        let mut new_index = Index::new();
        let mut i: usize = 0;
        while i < n
            invariant
                0 <= i <= n,
                n == old_slots.len(),
                self.index.slots() == old_slots,
                self.index.wf(),
                forall|j: int|
                    0 <= j < old_slots.len() ==> !((#[trigger] old_slots[j]).1.cmd is Empty)
                        && old_slots[j].1.cmd.key() == old_slots[j].0,
                new_index.wf(),
                new_index.slots().len() == i,
                forall|j: int|
                    0 <= j < i ==> (#[trigger] new_index.slots()[j]).0 == old_slots[j].0
                        && new_index.slots()[j].1.cmd == old_slots[j].1.cmd,
                replay(new_log@) == ReplayRes::Fine(new_index.model()),
                forall|k: Seq<char>|
                    new_index.model().contains_key(k) ==> entry_ok(
                        new_log@,
                        k,
                        #[trigger] new_index.model()[k],
                    ),
                new_log@.len() == sum_lens(new_index.slots()),
            decreases n - i,
        {
            let pair = self.index.pair_at(i);
            let key = pair.key.clone();
            let cmd = pair.idx.cmd.clone();
            let pos = new_log.len();
            let rec = encode_cmd(&cmd);
            let len = rec.len();
            let ghost nl0 = new_log@;
            let ghost nm0 = new_index.model();
            let ghost ns0 = new_index.slots();
            append_chars(&mut new_log, &rec);
            proof {
                lemma_replay_append(nl0, 0, Map::empty(), nm0, cmd@);
                lemma_cmd_round_trip(cmd@, Seq::empty());
                assert forall|kk: Seq<char>| nm0.contains_key(kk) implies entry_ok(
                    new_log@,
                    kk,
                    #[trigger] nm0[kk],
                ) by {
                    assert(entry_ok(nl0, kk, nm0[kk]));
                    assert(new_log@.subrange(nm0[kk].start, nm0[kk].start + nm0[kk].len)
                        =~= nl0.subrange(nm0[kk].start, nm0[kk].start + nm0[kk].len));
                };
                assert(new_log@.subrange(pos as int, pos + len) =~= rec@);
                if nm0.contains_key(key@) {
                    lemma_map_of_domain(ns0, key@);
                    let j = choose|j: int| 0 <= j < ns0.len() && ns0[j].0 == key@;
                    assert(old_slots[j].0 == old_slots[i as int].0);
                    assert(false);
                }
            }
            new_index.insert_fresh(key, CmdIdx::new(pos, len, cmd));
            proof {
                assert(new_index.slots().drop_last() =~= ns0);
                assert(sum_lens(new_index.slots()) == sum_lens(ns0) + len);
            }
            i = i + 1;
        }
        self.log = new_log;
        self.index = new_index;
        self.uncompacted = 0;
        if self.generation == u64::MAX {
            self.generation = 0;
        } else {
            self.generation = self.generation + 1;
        }
        proof {
            let nm = self.index.model();
            let ns = self.index.slots();
            assert forall|k: Seq<char>| nm.contains_key(k) implies om.contains_key(k) && (
            #[trigger] nm[k]).cmd == om[k].cmd by {
                lemma_map_of_domain(ns, k);
                let j = choose|j: int| 0 <= j < ns.len() && ns[j].0 == k;
                lemma_map_of_member(ns, j);
                lemma_map_of_member(old_slots, j);
            };
            assert forall|k: Seq<char>| om.contains_key(k) implies #[trigger] nm.contains_key(
                k,
            ) by {
                lemma_map_of_domain(old_slots, k);
                let j = choose|j: int| 0 <= j < old_slots.len() && old_slots[j].0 == k;
                lemma_map_of_member(ns, j);
            };
            assert(kv_of(nm) =~= kv_of(om));
        }
    }

    /// Binds `k` to `v`: appends a `Set` record and points the index at it.
    /// Never fails, whether or not the key already exists.
    pub fn set(&mut self, k: String, v: String) -> (r: Result<(), KvsError>)
        requires
            old(self).inv(),
        ensures
            final(self).inv(),
            r is Ok,
            final(self).kv() == old(self).kv().insert(k@, v@),
            final(self).generation_id() == old(self).generation_id() ==> final(self).log_view()
                == old(self).log_view() + enc_cmd(CmdView::Put { key: k@, value: v@ }) && final(self).uncompacted_bytes() == old(self).uncompacted_bytes() + enc_cmd(
                CmdView::Put { key: k@, value: v@ },
            ).len(),
            final(self).generation_id() != old(self).generation_id() ==> final(self).uncompacted_bytes() == 0 && final(self).log_view().len() == final(self).live_len(),
            final(self).generation_id() != old(self).generation_id() <==> old(self).uncompacted_bytes() + enc_cmd(CmdView::Put { key: k@, value: v@ }).len() > MAX_LOG_UNCOMPACTED_BYTES,
    {
        let ghost m0 = self.index.model();
        let cmd = Cmd::Put { key: k.clone(), value: v };
        let ghost e = IdxModel {
            start: self.log@.len() as int,
            len: enc_cmd(cmd@).len() as int,
            cmd: cmd@,
        };
        self.append_cmd(k, cmd);
        proof {
            assert(kv_of(m0.insert(e.cmd.key(), e)) =~= kv_of(m0).insert(e.cmd.key(), v@));
        }
        Ok(())
    }

    /// Reads the value bound to `k`: looks the key up in the index, reads
    /// the record back from the log, and returns the value it carries.
    /// A missing key and a tombstoned key both read as absent.
    pub fn get(&mut self, k: String) -> (r: Result<Option<String>, KvsError>)
        requires
            old(self).inv(),
        ensures
            *final(self) == *old(self),
            r matches Ok(opt) && ((opt is Some) <==> old(self).kv().contains_key(k@)) && (
            opt matches Some(s) ==> s@ == old(self).kv()[k@]),
    {
        match self.index.get(&k) {
            None => Ok(None),
            Some(e) => {
                let start = e.start;
                let ghost em = e@;
                proof {
                    assert(entry_ok(self.log@, k@, em));
                    assert(self.log@.skip(start as int) =~= self.log@.subrange(
                        em.start,
                        em.start + em.len,
                    ) + self.log@.skip(em.start + em.len));
                    lemma_cmd_round_trip(em.cmd, self.log@.skip(em.start + em.len));
                }
                match decode_cmd(&self.log, start) {
                    Some(pair) => {
                        let (c, _np) = pair;
                        match c {
                            Cmd::Put { value, .. } => Ok(Some(value)),
                            Cmd::Remove { .. } => Ok(None),
                            Cmd::Empty => {
                                proof {
                                    assert(false);
                                }
                                unreached()
                            },
                        }
                    },
                    None => {
                        proof {
                            assert(false);
                        }
                        unreached()
                    },
                }
            },
        }
    }

    /// Deletes `k`: appends a tombstone record and points the index at it.
    /// Fails with key-not-found when the store holds no value for `k` —
    /// also when the key was removed before.
    pub fn remove(&mut self, k: String) -> (r: Result<(), KvsError>)
        requires
            old(self).inv(),
        ensures
            final(self).inv(),
            r is Ok <==> old(self).kv().contains_key(k@),
            old(self).kv().contains_key(k@) ==> final(self).kv() == old(self).kv().remove(k@)
                && (final(self).generation_id() == old(self).generation_id() ==> final(self).log_view() == old(self).log_view() + enc_cmd(CmdView::Remove { key: k@ })) && (final(self).generation_id() != old(self).generation_id() ==> final(self).uncompacted_bytes() == 0
                && final(self).log_view().len() == final(self).live_len()) && (final(self).generation_id() != old(self).generation_id() <==> old(self).uncompacted_bytes()
                + enc_cmd(CmdView::Remove { key: k@ }).len() > MAX_LOG_UNCOMPACTED_BYTES),
            !old(self).kv().contains_key(k@) ==> r == Err::<(), KvsError>(KvsError::KeyNotFound)
                && *final(self) == *old(self),
    {
        let live = match self.index.get(&k) {
            Some(e) => match &e.cmd {
                Cmd::Put { .. } => true,
                _ => false,
            },
            None => false,
        };
        if !live {
            return Err(KvsError::KeyNotFound);
        }
        let ghost m0 = self.index.model();
        let cmd = Cmd::Remove { key: k.clone() };
        let ghost e = IdxModel {
            start: self.log@.len() as int,
            len: enc_cmd(cmd@).len() as int,
            cmd: cmd@,
        };
        self.append_cmd(k, cmd);
        proof {
            assert(kv_of(m0.insert(e.cmd.key(), e)) =~= kv_of(m0).remove(e.cmd.key()));
        }
        Ok(())
    }

    /// How many characters the active log holds.
    pub fn log_len(&self) -> (r: usize)
        ensures
            r == self.log_view().len(),
    {
        self.log.len()
    }

    /// The text of the active log from position `from` to its end: what the
    /// shell around the crate appends to the log file.
    pub fn log_text(&self, from: usize) -> (r: String)
        requires
            from <= self.log_view().len(),
        ensures
            r@ == self.log_view().skip(from as int),
    {
        let r = chars_string(&self.log, from, self.log.len());
        proof {
            assert(self.log@.subrange(from as int, self.log@.len() as int) =~= self.log@.skip(
                from as int,
            ));
        }
        r
    }

    /// The generation: it moves exactly when the engine rewrites its log,
    /// so the shell knows to start a fresh log file.
    pub fn generation(&self) -> (r: u64)
        ensures
            r == self.generation_id(),
    {
        self.generation
    }

    /// The compaction budget never rests above the threshold: between
    /// operations, at most the threshold's worth of reclaimable characters
    /// sits uncompacted, so with the trigger clauses of [`KvStore::set`]
    /// and [`KvStore::remove`] the log right after a triggering operation
    /// holds exactly one record per live key.
    pub proof fn lemma_budget_bounded(s: KvStore)
        requires
            s.inv(),
        ensures
            s.uncompacted_bytes() <= MAX_LOG_UNCOMPACTED_BYTES,
    {
    }

    /// Restates persistence: replaying the engine's own log rebuilds
    /// exactly the index, and with it the observable contents.
    pub proof fn lemma_replay_rebuilds(s: KvStore)
        requires
            s.inv(),
        ensures
            replay(s.log_view()) == ReplayRes::Fine(s.index_model()),
            kv_of(s.index_model()) == s.kv(),
    {
    }
}

/// Overwrite: writing `v1` and then `v2` under one key leaves the store as
/// if only `v2` had been written, and a read of the key sees `v2`.  With
/// [`KvStore::set`]'s contract this covers two `set` calls followed by a
/// `get`.
pub proof fn lemma_overwrite(
    m: Map<Seq<char>, Seq<char>>,
    k: Seq<char>,
    v1: Seq<char>,
    v2: Seq<char>,
)
    ensures
        m.insert(k, v1).insert(k, v2) == m.insert(k, v2),
        m.insert(k, v2).contains_key(k),
        m.insert(k, v2)[k] == v2,
{
    assert(m.insert(k, v1).insert(k, v2) =~= m.insert(k, v2));
}

/// Delete-then-get: after a write and a removal of one key, a read of that
/// key sees nothing.  With [`KvStore::set`]'s and [`KvStore::remove`]'s
/// contracts this covers `set`, `remove`, `get` in a row.
pub proof fn lemma_delete_then_get(m: Map<Seq<char>, Seq<char>>, k: Seq<char>, v: Seq<char>)
    ensures
        !m.insert(k, v).remove(k).contains_key(k),
{
}

/// Remove-absent: a removed key is absent, so by [`KvStore::remove`]'s
/// contract a second `remove` of it fails with key-not-found, exactly as a
/// `remove` of a never-written key does.
pub proof fn lemma_removed_stays_absent(m: Map<Seq<char>, Seq<char>>, k: Seq<char>)
    ensures
        !m.remove(k).contains_key(k),
{
}

/// The sum of the record lengths over a sequence of index slots.
pub open spec fn sum_lens(s: Seq<(Seq<char>, IdxModel)>) -> int
    decreases s.len(),
{
    if s.len() == 0 {
        0
    } else {
        sum_lens(s.drop_last()) + s.last().1.len
    }
}

} // verus!
