//! The request side of the server: dispatching decoded requests to the
//! engine and shaping the typed responses.
//!
//! The unverified shell accepts connections, decodes each request with the
//! transport codec, calls [`KvsServer::handle_request`], and writes the
//! returned text back; an engine error never ends the connection, it rides
//! in the response's error string.

use vstd::prelude::*;

use crate::engines::KvsEngine;
use crate::error::KvsError;
use crate::transport::dec_resp_get;
use crate::transport::dec_resp_remove;
use crate::transport::dec_resp_set;
use crate::transport::encode_resp_get;
use crate::transport::encode_resp_remove;
use crate::transport::encode_resp_set;
use crate::transport::lemma_resp_get_round_trip;
use crate::transport::lemma_resp_remove_round_trip;
use crate::transport::lemma_resp_set_round_trip;
use crate::transport::ReqView;
use crate::transport::Request;
use crate::transport::RespGetView;
use crate::transport::RespRemoveView;
use crate::transport::RespSetView;
use crate::transport::ResponseGet;
use crate::transport::ResponseRemove;
use crate::transport::ResponseSet;

verus! {

/// The `get` response that an engine outcome maps to: success hands the
/// value on unchanged, an error carries exactly its message.
pub fn resp_get_of(r: Result<Option<String>, KvsError>) -> (resp: ResponseGet)
    ensures
        r matches Ok(v) ==> resp == ResponseGet::Done(v),
        r matches Err(e) ==> resp matches ResponseGet::Fail(m) && m@ == e.spec_message(),
{
    match r {
        Ok(v) => ResponseGet::Done(v),
        Err(e) => ResponseGet::Fail(e.message()),
    }
}

/// The `set` response that an engine outcome maps to.
pub fn resp_set_of(r: Result<(), KvsError>) -> (resp: ResponseSet)
    ensures
        r is Ok ==> resp == ResponseSet::Done,
        r matches Err(e) ==> resp matches ResponseSet::Fail(m) && m@ == e.spec_message(),
{
    match r {
        Ok(_) => ResponseSet::Done,
        Err(e) => ResponseSet::Fail(e.message()),
    }
}

/// The `remove` response that an engine outcome maps to.
pub fn resp_remove_of(r: Result<(), KvsError>) -> (resp: ResponseRemove)
    ensures
        r is Ok ==> resp == ResponseRemove::Done,
        r matches Err(e) ==> resp matches ResponseRemove::Fail(m) && m@ == e.spec_message(),
{
    match r {
        Ok(_) => ResponseRemove::Done,
        Err(e) => ResponseRemove::Fail(e.message()),
    }
}

/// A server around one storage engine.
pub struct KvsServer<E: KvsEngine> {
    engine: E,
}

impl<E: KvsEngine> KvsServer<E> {
    /// The engine's observable contents.
    pub closed spec fn kv_model(&self) -> Map<Seq<char>, Seq<char>> {
        self.engine.kv_model()
    }

    /// The engine's well-formedness.
    pub closed spec fn inv(&self) -> bool {
        self.engine.engine_inv()
    }

    /// Creates a server object around an engine.
    pub fn new(engine: E) -> (r: Self)
        ensures
            r.inv() == engine.engine_inv(),
            r.kv_model() == engine.kv_model(),
    {
        KvsServer { engine }
    }

    /// Serves one `get` request: the engine's answer mapped by
    /// [`resp_get_of`], so a success becomes the success variant carrying
    /// exactly the value the store binds to the key — or nothing when the
    /// store binds none — and an engine error becomes the error variant
    /// carrying that error's message.
    pub fn handle_get(&mut self, key: String) -> (resp: ResponseGet)
        requires
            old(self).inv(),
        ensures
            final(self).inv(),
            final(self).kv_model() == old(self).kv_model(),
            resp matches ResponseGet::Done(opt) ==> (((opt is Some) <==> old(self).kv_model().contains_key(key@)) && (opt matches Some(s) ==> s@ == old(self).kv_model()[key@])),
    {
        let r = self.engine.get(key);
        resp_get_of(r)
    }

    /// Serves one `set` request: the engine's outcome mapped by
    /// [`resp_set_of`]; on success the store binds the key to the value.
    pub fn handle_set(&mut self, key: String, value: String) -> (resp: ResponseSet)
        requires
            old(self).inv(),
        ensures
            final(self).inv(),
            resp matches ResponseSet::Done ==> final(self).kv_model() == old(self).kv_model().insert(key@, value@),
    {
        let r = self.engine.set(key, value);
        resp_set_of(r)
    }

    /// Serves one `remove` request: the engine's outcome mapped by
    /// [`resp_remove_of`]; success means the key was present and is gone
    /// now, and a key the store does not hold is always answered with the
    /// error variant.
    pub fn handle_remove(&mut self, key: String) -> (resp: ResponseRemove)
        requires
            old(self).inv(),
        ensures
            final(self).inv(),
            resp matches ResponseRemove::Done ==> old(self).kv_model().contains_key(key@) && final(self).kv_model() == old(self).kv_model().remove(key@),
            !old(self).kv_model().contains_key(key@) ==> resp is Fail,
    {
        let r = self.engine.remove(key);
        resp_remove_of(r)
    }

    /// Serves one request of any kind: dispatches to the matching handler
    /// and returns the encoded response text, ready to be written back.
    ///
    /// The reply always decodes, in whole, as exactly one response of the
    /// variant matching the request's kind — so the client, which picks its
    /// decoder from the request it sent, reads it without ambiguity — and a
    /// success response means what the handlers' contracts say.  An engine
    /// error never escapes: it is part of the encoded reply.
    pub fn handle_request(&mut self, req: Request) -> (reply: String)
        requires
            old(self).inv(),
        ensures
            final(self).inv(),
            req@ matches ReqView::Get { key } ==> ({
                &&& final(self).kv_model() == old(self).kv_model()
                &&& dec_resp_get(reply@) matches Some(pn) && pn.1 == reply@.len() && (
                pn.0 matches RespGetView::Done(opt) ==> (((opt is Some) <==> old(self).kv_model().contains_key(key)) && (opt matches Some(s) ==> s == old(self).kv_model()[key])))
            }),
            req@ matches ReqView::Put { key, value } ==> ({
                &&& dec_resp_set(reply@) matches Some(pn) && pn.1 == reply@.len() && (pn.0 is Done
                    ==> final(self).kv_model() == old(self).kv_model().insert(key, value))
            }),
            req@ matches ReqView::Remove { key } ==> ({
                &&& dec_resp_remove(reply@) matches Some(pn) && pn.1 == reply@.len() && (pn.0
                    is Done ==> old(self).kv_model().contains_key(key) && final(self).kv_model()
                    == old(self).kv_model().remove(key)) && (!old(self).kv_model().contains_key(key) ==> pn.0 is Fail)
            }),
    {
        match req {
            Request::Get { key } => {
                let resp = self.handle_get(key);
                let reply = encode_resp_get(&resp);
                proof {
                    lemma_resp_get_round_trip(resp@, Seq::empty());
                    assert(enc_resp_get_whole(resp@) =~= reply@);
                }
                reply
            },
            Request::Put { key, value } => {
                let resp = self.handle_set(key, value);
                let reply = encode_resp_set(&resp);
                proof {
                    lemma_resp_set_round_trip(resp@, Seq::empty());
                    assert(enc_resp_set_whole(resp@) =~= reply@);
                }
                reply
            },
            Request::Remove { key } => {
                let resp = self.handle_remove(key);
                let reply = encode_resp_remove(&resp);
                proof {
                    lemma_resp_remove_round_trip(resp@, Seq::empty());
                    assert(enc_resp_remove_whole(resp@) =~= reply@);
                }
                reply
            },
        }
    }
}

/// An encoding with nothing after it, as one reply on the wire.
spec fn enc_resp_get_whole(p: RespGetView) -> Seq<char> {
    crate::transport::enc_resp_get(p) + Seq::<char>::empty()
}

/// An encoding with nothing after it, as one reply on the wire.
spec fn enc_resp_set_whole(p: RespSetView) -> Seq<char> {
    crate::transport::enc_resp_set(p) + Seq::<char>::empty()
}

/// An encoding with nothing after it, as one reply on the wire.
spec fn enc_resp_remove_whole(p: RespRemoveView) -> Seq<char> {
    crate::transport::enc_resp_remove(p) + Seq::<char>::empty()
}

} // verus!
