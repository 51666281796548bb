//! The wire protocol: typed requests, per-operation response variants, and
//! their self-delimiting textual codecs.
//!
//! The client knows which response variant to decode from the request it
//! just sent; there is no discriminator on the wire.  A connection carries a
//! plain concatenation of encoded requests one way and of the matching
//! encoded responses the other way.

use vstd::prelude::*;

use crate::chars::chars_string;
use crate::chars::push_str_chars;
use crate::codec::dec_one_str_payload;
use crate::codec::dec_string;
use crate::codec::dec_two_str_payload;
use crate::codec::decode_one_str_payload;
use crate::codec::decode_string;
use crate::codec::decode_two_str_payload;
use crate::codec::dlit;
use crate::codec::enc_one_str_payload;
use crate::codec::enc_string;
use crate::codec::enc_two_str_payload;
use crate::codec::encode_string_into;
use crate::codec::expect_lit;
use crate::codec::lemma_concat_parts;
use crate::codec::lemma_lits;
use crate::codec::lemma_one_payload_round_trip;
use crate::codec::lemma_skip_skip;
use crate::codec::lemma_string_round_trip;
use crate::codec::lemma_take_prefix;
use crate::codec::lemma_two_payload_round_trip;
use crate::codec::remove_prefix;
use crate::codec::set_prefix;

verus! {

/// One request on the wire.  The write request keeps the tag `Set` on the
/// wire; the variant name here stays clear of the verifier's vocabulary.
pub enum Request {
    Get { key: String },
    Put { key: String, value: String },
    Remove { key: String },
}

/// The mathematical shape of a [`Request`].
pub enum ReqView {
    Get { key: Seq<char> },
    Put { key: Seq<char>, value: Seq<char> },
    Remove { key: Seq<char> },
}

impl View for Request {
    type V = ReqView;

    open spec fn view(&self) -> ReqView {
        match self {
            Request::Get { key } => ReqView::Get { key: key@ },
            Request::Put { key, value } => ReqView::Put { key: key@, value: value@ },
            Request::Remove { key } => ReqView::Remove { key: key@ },
        }
    }
}

/// The response to a `get` request: the value if any, or an error message.
pub enum ResponseGet {
    Done(Option<String>),
    Fail(String),
}

/// The mathematical shape of a [`ResponseGet`].
pub enum RespGetView {
    Done(Option<Seq<char>>),
    Fail(Seq<char>),
}

impl View for ResponseGet {
    type V = RespGetView;

    open spec fn view(&self) -> RespGetView {
        match self {
            ResponseGet::Done(opt) => RespGetView::Done(
                match opt {
                    Some(s) => Some(s@),
                    None => None,
                },
            ),
            ResponseGet::Fail(m) => RespGetView::Fail(m@),
        }
    }
}

/// The response to a `set` request.
pub enum ResponseSet {
    Done,
    Fail(String),
}

/// The mathematical shape of a [`ResponseSet`].
pub enum RespSetView {
    Done,
    Fail(Seq<char>),
}

impl View for ResponseSet {
    type V = RespSetView;

    open spec fn view(&self) -> RespSetView {
        match self {
            ResponseSet::Done => RespSetView::Done,
            ResponseSet::Fail(m) => RespSetView::Fail(m@),
        }
    }
}

/// The response to a `remove` request.
pub enum ResponseRemove {
    Done,
    Fail(String),
}

/// The mathematical shape of a [`ResponseRemove`].
pub enum RespRemoveView {
    Done,
    Fail(Seq<char>),
}

impl View for ResponseRemove {
    type V = RespRemoveView;

    open spec fn view(&self) -> RespRemoveView {
        match self {
            ResponseRemove::Done => RespRemoveView::Done,
            ResponseRemove::Fail(m) => RespRemoveView::Fail(m@),
        }
    }
}

// ---------------------------------------------------------------------------
// The framing pieces that only the wire uses.
// ---------------------------------------------------------------------------

/// What a `Get` request opens with.
pub open spec fn get_prefix() -> Seq<char> {
    "{\"Get\":{\"key\":"@
}

/// The whole encoding of a success response that carries no value.
pub open spec fn ok_null() -> Seq<char> {
    "{\"Ok\":null}"@
}

/// What a success response carrying a value opens with.
pub open spec fn ok_prefix() -> Seq<char> {
    "{\"Ok\":"@
}

/// What an error response opens with.
pub open spec fn err_prefix() -> Seq<char> {
    "{\"Err\":"@
}

/// What closes a response that carries one string.
pub open spec fn close_brace() -> Seq<char> {
    "}"@
}

/// The lengths and distinguishing characters of the wire framing pieces.
pub proof fn lemma_wire_lits()
    ensures
        get_prefix().len() == 14,
        ok_null().len() == 11,
        ok_prefix().len() == 6,
        err_prefix().len() == 7,
        close_brace().len() == 1,
        get_prefix()[2] == 'G',
        ok_null()[2] == 'O',
        ok_null()[6] == 'n',
        ok_prefix()[2] == 'O',
        err_prefix()[2] == 'E',
{
    reveal_strlit("{\"Get\":{\"key\":");
    reveal_strlit("{\"Ok\":null}");
    reveal_strlit("{\"Ok\":");
    reveal_strlit("{\"Err\":");
    reveal_strlit("}");
}

// ---------------------------------------------------------------------------
// Specification: encoding and decoding.
// ---------------------------------------------------------------------------

/// The payload of a response that carries one string: the string, then the
/// closing brace.
pub open spec fn enc_str_close(v: Seq<char>) -> Seq<char> {
    enc_string(v) + close_brace()
}

/// Consumes a one-string response payload.
pub open spec fn dec_str_close(s: Seq<char>) -> Option<(Seq<char>, int)> {
    match dec_string(s) {
        Some(v) => match dlit(s.skip(v.1), close_brace()) {
            Some(l) => Some((v.0, v.1 + l)),
            None => None,
        },
        None => None,
    }
}

/// The encoding of one request.
pub open spec fn enc_request(q: ReqView) -> Seq<char> {
    match q {
        ReqView::Get { key } => get_prefix() + enc_one_str_payload(key),
        ReqView::Put { key, value } => set_prefix() + enc_two_str_payload(key, value),
        ReqView::Remove { key } => remove_prefix() + enc_one_str_payload(key),
    }
}

/// Consumes one request from the front of `s`.
pub open spec fn dec_request(s: Seq<char>) -> Option<(ReqView, int)> {
    if dlit(s, get_prefix()) is Some {
        let p: int = get_prefix().len() as int;
        match dec_one_str_payload(s.skip(p)) {
            Some(k) => Some((ReqView::Get { key: k.0 }, p + k.1)),
            None => None,
        }
    } else if dlit(s, set_prefix()) is Some {
        let p: int = set_prefix().len() as int;
        match dec_two_str_payload(s.skip(p)) {
            Some(kv) => Some((ReqView::Put { key: kv.0.0, value: kv.0.1 }, p + kv.1)),
            None => None,
        }
    } else if dlit(s, remove_prefix()) is Some {
        let p: int = remove_prefix().len() as int;
        match dec_one_str_payload(s.skip(p)) {
            Some(k) => Some((ReqView::Remove { key: k.0 }, p + k.1)),
            None => None,
        }
    } else {
        None
    }
}

/// The encoding of a `get` response.
pub open spec fn enc_resp_get(p: RespGetView) -> Seq<char> {
    match p {
        RespGetView::Done(opt) => match opt {
            None => ok_null(),
            Some(v) => ok_prefix() + enc_str_close(v),
        },
        RespGetView::Fail(m) => err_prefix() + enc_str_close(m),
    }
}

/// Consumes one `get` response from the front of `s`.
pub open spec fn dec_resp_get(s: Seq<char>) -> Option<(RespGetView, int)> {
    if dlit(s, ok_null()) is Some {
        Some((RespGetView::Done(None), ok_null().len() as int))
    } else if dlit(s, ok_prefix()) is Some {
        let p: int = ok_prefix().len() as int;
        match dec_str_close(s.skip(p)) {
            Some(v) => Some((RespGetView::Done(Some(v.0)), p + v.1)),
            None => None,
        }
    } else if dlit(s, err_prefix()) is Some {
        let p: int = err_prefix().len() as int;
        match dec_str_close(s.skip(p)) {
            Some(m) => Some((RespGetView::Fail(m.0), p + m.1)),
            None => None,
        }
    } else {
        None
    }
}

/// The encoding of a `set` response.
pub open spec fn enc_resp_set(p: RespSetView) -> Seq<char> {
    match p {
        RespSetView::Done => ok_null(),
        RespSetView::Fail(m) => err_prefix() + enc_str_close(m),
    }
}

/// Consumes one `set` response from the front of `s`.
pub open spec fn dec_resp_set(s: Seq<char>) -> Option<(RespSetView, int)> {
    if dlit(s, ok_null()) is Some {
        Some((RespSetView::Done, ok_null().len() as int))
    } else if dlit(s, err_prefix()) is Some {
        let p: int = err_prefix().len() as int;
        match dec_str_close(s.skip(p)) {
            Some(m) => Some((RespSetView::Fail(m.0), p + m.1)),
            None => None,
        }
    } else {
        None
    }
}

/// The encoding of a `remove` response.
pub open spec fn enc_resp_remove(p: RespRemoveView) -> Seq<char> {
    match p {
        RespRemoveView::Done => ok_null(),
        RespRemoveView::Fail(m) => err_prefix() + enc_str_close(m),
    }
}

/// Consumes one `remove` response from the front of `s`.
pub open spec fn dec_resp_remove(s: Seq<char>) -> Option<(RespRemoveView, int)> {
    if dlit(s, ok_null()) is Some {
        Some((RespRemoveView::Done, ok_null().len() as int))
    } else if dlit(s, err_prefix()) is Some {
        let p: int = err_prefix().len() as int;
        match dec_str_close(s.skip(p)) {
            Some(m) => Some((RespRemoveView::Fail(m.0), p + m.1)),
            None => None,
        }
    } else {
        None
    }
}

// ---------------------------------------------------------------------------
// Round trips: the reader decodes exactly what the writer encoded.
// ---------------------------------------------------------------------------

/// Round trip for a one-string response payload.
proof fn lemma_str_close_round_trip(v: Seq<char>, rest: Seq<char>)
    ensures
        dec_str_close(enc_str_close(v) + rest) == Some((v, enc_str_close(v).len() as int)),
{
    let s = enc_str_close(v) + rest;
    let r1 = close_brace() + rest;
    assert(s =~= enc_string(v) + r1);
    lemma_string_round_trip(v, r1);
    lemma_concat_parts(enc_string(v), r1);
    assert(s.skip(enc_string(v).len() as int) == r1);
    lemma_concat_parts(close_brace(), rest);
    assert(dlit(r1, close_brace()) == Some(close_brace().len() as int));
}

/// Round trip on the wire for a request, whatever follows it in the stream.
pub proof fn lemma_request_round_trip(q: ReqView, rest: Seq<char>)
    ensures
        dec_request(enc_request(q) + rest) == Some((q, enc_request(q).len() as int)),
{
    lemma_lits();
    lemma_wire_lits();
    let e = enc_request(q);
    let s = e + rest;
    lemma_concat_parts(e, rest);
    match q {
        ReqView::Get { key } => {
            lemma_take_prefix(get_prefix(), enc_one_str_payload(key) + rest, 14);
            assert(s =~= get_prefix() + (enc_one_str_payload(key) + rest));
            assert(get_prefix().take(14) =~= get_prefix());
            assert(s.take(14) == get_prefix());
            assert(s.skip(14) =~= enc_one_str_payload(key) + rest);
            lemma_one_payload_round_trip(key, rest);
        },
        ReqView::Put { key, value } => {
            lemma_take_prefix(set_prefix(), enc_two_str_payload(key, value) + rest, 14);
            assert(s =~= set_prefix() + (enc_two_str_payload(key, value) + rest));
            assert(set_prefix().take(14) =~= set_prefix());
            assert(s.take(14) == set_prefix());
            assert(s[2] == 'S');
            if dlit(s, get_prefix()) is Some {
                assert(s.take(14)[2] == s[2]);
                assert(false);
            }
            assert(s.skip(14) =~= enc_two_str_payload(key, value) + rest);
            lemma_two_payload_round_trip(key, value, rest);
        },
        ReqView::Remove { key } => {
            lemma_take_prefix(remove_prefix(), enc_one_str_payload(key) + rest, 17);
            assert(s =~= remove_prefix() + (enc_one_str_payload(key) + rest));
            assert(remove_prefix().take(17) =~= remove_prefix());
            assert(s.take(17) == remove_prefix());
            assert(s[2] == 'R');
            if dlit(s, get_prefix()) is Some {
                assert(s.take(14)[2] == s[2]);
                assert(false);
            }
            if dlit(s, set_prefix()) is Some {
                assert(s.take(14)[2] == s[2]);
                assert(false);
            }
            assert(s.skip(17) =~= enc_one_str_payload(key) + rest);
            lemma_one_payload_round_trip(key, rest);
        },
    }
}

/// Round trip on the wire for a `get` response.
pub proof fn lemma_resp_get_round_trip(p: RespGetView, rest: Seq<char>)
    ensures
        dec_resp_get(enc_resp_get(p) + rest) == Some((p, enc_resp_get(p).len() as int)),
{
    lemma_wire_lits();
    let e = enc_resp_get(p);
    let s = e + rest;
    lemma_concat_parts(e, rest);
    match p {
        RespGetView::Done(opt) => match opt {
            None => {
                assert(ok_null().take(11) =~= ok_null());
                assert(s.take(11) == ok_null());
            },
            Some(v) => {
                lemma_take_prefix(ok_prefix(), enc_str_close(v) + rest, 6);
                assert(s =~= ok_prefix() + (enc_str_close(v) + rest));
                assert(ok_prefix().take(6) =~= ok_prefix());
                assert(s.take(6) == ok_prefix());
                assert(s[6] == enc_str_close(v)[0]);
                assert(enc_str_close(v)[0] == '"');
                if dlit(s, ok_null()) is Some {
                    assert(s.take(11)[6] == s[6]);
                    assert(false);
                }
                assert(s.skip(6) =~= enc_str_close(v) + rest);
                lemma_str_close_round_trip(v, rest);
            },
        },
        RespGetView::Fail(m) => {
            lemma_take_prefix(err_prefix(), enc_str_close(m) + rest, 7);
            assert(s =~= err_prefix() + (enc_str_close(m) + rest));
            assert(err_prefix().take(7) =~= err_prefix());
            assert(s.take(7) == err_prefix());
            assert(s[2] == 'E');
            if dlit(s, ok_null()) is Some {
                assert(s.take(11)[2] == s[2]);
                assert(false);
            }
            if dlit(s, ok_prefix()) is Some {
                assert(s.take(6)[2] == s[2]);
                assert(false);
            }
            assert(s.skip(7) =~= enc_str_close(m) + rest);
            lemma_str_close_round_trip(m, rest);
        },
    }
}

/// Round trip on the wire for a `set` response.
pub proof fn lemma_resp_set_round_trip(p: RespSetView, rest: Seq<char>)
    ensures
        dec_resp_set(enc_resp_set(p) + rest) == Some((p, enc_resp_set(p).len() as int)),
{
    lemma_wire_lits();
    let e = enc_resp_set(p);
    let s = e + rest;
    lemma_concat_parts(e, rest);
    match p {
        RespSetView::Done => {
            assert(ok_null().take(11) =~= ok_null());
            assert(s.take(11) == ok_null());
        },
        RespSetView::Fail(m) => {
            lemma_take_prefix(err_prefix(), enc_str_close(m) + rest, 7);
            assert(s =~= err_prefix() + (enc_str_close(m) + rest));
            assert(err_prefix().take(7) =~= err_prefix());
            assert(s.take(7) == err_prefix());
            assert(s[2] == 'E');
            if dlit(s, ok_null()) is Some {
                assert(s.take(11)[2] == s[2]);
                assert(false);
            }
            assert(s.skip(7) =~= enc_str_close(m) + rest);
            lemma_str_close_round_trip(m, rest);
        },
    }
}

/// Round trip on the wire for a `remove` response.
pub proof fn lemma_resp_remove_round_trip(p: RespRemoveView, rest: Seq<char>)
    ensures
        dec_resp_remove(enc_resp_remove(p) + rest) == Some((p, enc_resp_remove(p).len() as int)),
{
    lemma_wire_lits();
    let e = enc_resp_remove(p);
    let s = e + rest;
    lemma_concat_parts(e, rest);
    match p {
        RespRemoveView::Done => {
            assert(ok_null().take(11) =~= ok_null());
            assert(s.take(11) == ok_null());
        },
        RespRemoveView::Fail(m) => {
            lemma_take_prefix(err_prefix(), enc_str_close(m) + rest, 7);
            assert(s =~= err_prefix() + (enc_str_close(m) + rest));
            assert(err_prefix().take(7) =~= err_prefix());
            assert(s.take(7) == err_prefix());
            assert(s[2] == 'E');
            if dlit(s, ok_null()) is Some {
                assert(s.take(11)[2] == s[2]);
                assert(false);
            }
            assert(s.skip(7) =~= enc_str_close(m) + rest);
            lemma_str_close_round_trip(m, rest);
        },
    }
}

// ---------------------------------------------------------------------------
// Executable encoding.
// ---------------------------------------------------------------------------

/// The encoding of one request, ready to be sent.
pub fn encode_request(q: &Request) -> (r: String)
    ensures
        r@ == enc_request(q@),
{
    let mut out: Vec<char> = Vec::new();
    match q {
        Request::Get { key } => {
            push_str_chars(&mut out, "{\"Get\":{\"key\":");
            encode_string_into(&mut out, key.as_str());
            push_str_chars(&mut out, "}}");
            proof {
                assert(out@ =~= enc_request(q@));
            }
        },
        Request::Put { key, value } => {
            push_str_chars(&mut out, "{\"Set\":{\"key\":");
            encode_string_into(&mut out, key.as_str());
            push_str_chars(&mut out, ",\"value\":");
            encode_string_into(&mut out, value.as_str());
            push_str_chars(&mut out, "}}");
            proof {
                assert(out@ =~= enc_request(q@));
            }
        },
        Request::Remove { key } => {
            push_str_chars(&mut out, "{\"Remove\":{\"key\":");
            encode_string_into(&mut out, key.as_str());
            push_str_chars(&mut out, "}}");
            proof {
                assert(out@ =~= enc_request(q@));
            }
        },
    }
    let n = out.len();
    let r = chars_string(&out, 0, n);
    proof {
        assert(out@.subrange(0, out@.len() as int) =~= out@);
    }
    r
}

/// The encoding of a `get` response, ready to be sent.
pub fn encode_resp_get(p: &ResponseGet) -> (r: String)
    ensures
        r@ == enc_resp_get(p@),
{
    let mut out: Vec<char> = Vec::new();
    match p {
        ResponseGet::Done(opt) => match opt {
            None => {
                push_str_chars(&mut out, "{\"Ok\":null}");
            },
            Some(v) => {
                push_str_chars(&mut out, "{\"Ok\":");
                encode_string_into(&mut out, v.as_str());
                push_str_chars(&mut out, "}");
            },
        },
        ResponseGet::Fail(m) => {
            push_str_chars(&mut out, "{\"Err\":");
            encode_string_into(&mut out, m.as_str());
            push_str_chars(&mut out, "}");
        },
    }
    proof {
        assert(out@ =~= enc_resp_get(p@));
    }
    let n = out.len();
    let r = chars_string(&out, 0, n);
    proof {
        assert(out@.subrange(0, out@.len() as int) =~= out@);
    }
    r
}

/// The encoding of a `set` response, ready to be sent.
pub fn encode_resp_set(p: &ResponseSet) -> (r: String)
    ensures
        r@ == enc_resp_set(p@),
{
    let mut out: Vec<char> = Vec::new();
    match p {
        ResponseSet::Done => {
            push_str_chars(&mut out, "{\"Ok\":null}");
        },
        ResponseSet::Fail(m) => {
            push_str_chars(&mut out, "{\"Err\":");
            encode_string_into(&mut out, m.as_str());
            push_str_chars(&mut out, "}");
        },
    }
    proof {
        assert(out@ =~= enc_resp_set(p@));
    }
    let n = out.len();
    let r = chars_string(&out, 0, n);
    proof {
        assert(out@.subrange(0, out@.len() as int) =~= out@);
    }
    r
}

/// The encoding of a `remove` response, ready to be sent.
pub fn encode_resp_remove(p: &ResponseRemove) -> (r: String)
    ensures
        r@ == enc_resp_remove(p@),
{
    let mut out: Vec<char> = Vec::new();
    match p {
        ResponseRemove::Done => {
            push_str_chars(&mut out, "{\"Ok\":null}");
        },
        ResponseRemove::Fail(m) => {
            push_str_chars(&mut out, "{\"Err\":");
            encode_string_into(&mut out, m.as_str());
            push_str_chars(&mut out, "}");
        },
    }
    proof {
        assert(out@ =~= enc_resp_remove(p@));
    }
    let n = out.len();
    let r = chars_string(&out, 0, n);
    proof {
        assert(out@.subrange(0, out@.len() as int) =~= out@);
    }
    r
}

// ---------------------------------------------------------------------------
// Executable decoding.
// ---------------------------------------------------------------------------

/// Consumes a one-string response payload at position `pos` of `buf`.
fn decode_str_close(buf: &Vec<char>, pos: usize) -> (r: Option<(String, usize)>)
    requires
        pos <= buf@.len(),
    ensures
        r matches Some(p) ==> pos < p.1 <= buf@.len() && dec_str_close(buf@.skip(pos as int))
            == Some((p.0@, p.1 - pos)),
        r is None ==> dec_str_close(buf@.skip(pos as int)) is None,
{
    proof {
        lemma_wire_lits();
    }
    match decode_string(buf, pos) {
        None => None,
        Some(vp) => {
            let (v, p1) = vp;
            proof {
                lemma_skip_skip(buf@, pos as int, p1 - pos);
            }
            match expect_lit(buf, p1, "}") {
                None => None,
                Some(p2) => Some((v, p2)),
            }
        },
    }
}

/// Consumes one request at position `pos` of `buf`.
pub fn decode_request(buf: &Vec<char>, pos: usize) -> (r: Option<(Request, usize)>)
    requires
        pos <= buf@.len(),
    ensures
        r matches Some(p) ==> pos < p.1 <= buf@.len() && dec_request(buf@.skip(pos as int))
            == Some((p.0@, p.1 - pos)),
        r is None ==> dec_request(buf@.skip(pos as int)) is None,
{
    proof {
        lemma_lits();
        lemma_wire_lits();
    }
    if let Some(p1) = expect_lit(buf, pos, "{\"Get\":{\"key\":") {
        proof {
            lemma_skip_skip(buf@, pos as int, 14);
        }
        match decode_one_str_payload(buf, p1) {
            None => None,
            Some(kp) => {
                let (k, p2) = kp;
                Some((Request::Get { key: k }, p2))
            },
        }
    } else if let Some(p1) = expect_lit(buf, pos, "{\"Set\":{\"key\":") {
        proof {
            lemma_skip_skip(buf@, pos as int, 14);
        }
        match decode_two_str_payload(buf, p1) {
            None => None,
            Some(kvp) => {
                let ((k, v), p2) = kvp;
                Some((Request::Put { key: k, value: v }, p2))
            },
        }
    } else if let Some(p1) = expect_lit(buf, pos, "{\"Remove\":{\"key\":") {
        proof {
            lemma_skip_skip(buf@, pos as int, 17);
        }
        match decode_one_str_payload(buf, p1) {
            None => None,
            Some(kp) => {
                let (k, p2) = kp;
                Some((Request::Remove { key: k }, p2))
            },
        }
    } else {
        None
    }
}

/// Consumes one `get` response at position `pos` of `buf`.
pub fn decode_resp_get(buf: &Vec<char>, pos: usize) -> (r: Option<(ResponseGet, usize)>)
    requires
        pos <= buf@.len(),
    ensures
        r matches Some(p) ==> pos < p.1 <= buf@.len() && dec_resp_get(buf@.skip(pos as int))
            == Some((p.0@, p.1 - pos)),
        r is None ==> dec_resp_get(buf@.skip(pos as int)) is None,
{
    proof {
        lemma_wire_lits();
    }
    if let Some(p1) = expect_lit(buf, pos, "{\"Ok\":null}") {
        Some((ResponseGet::Done(None), p1))
    } else if let Some(p1) = expect_lit(buf, pos, "{\"Ok\":") {
        proof {
            lemma_skip_skip(buf@, pos as int, 6);
        }
        match decode_str_close(buf, p1) {
            None => None,
            Some(vp) => {
                let (v, p2) = vp;
                Some((ResponseGet::Done(Some(v)), p2))
            },
        }
    } else if let Some(p1) = expect_lit(buf, pos, "{\"Err\":") {
        proof {
            lemma_skip_skip(buf@, pos as int, 7);
        }
        match decode_str_close(buf, p1) {
            None => None,
            Some(mp) => {
                let (m, p2) = mp;
                Some((ResponseGet::Fail(m), p2))
            },
        }
    } else {
        None
    }
}

/// Consumes one `set` response at position `pos` of `buf`.
pub fn decode_resp_set(buf: &Vec<char>, pos: usize) -> (r: Option<(ResponseSet, usize)>)
    requires
        pos <= buf@.len(),
    ensures
        r matches Some(p) ==> pos < p.1 <= buf@.len() && dec_resp_set(buf@.skip(pos as int))
            == Some((p.0@, p.1 - pos)),
        r is None ==> dec_resp_set(buf@.skip(pos as int)) is None,
{
    proof {
        lemma_wire_lits();
    }
    if let Some(p1) = expect_lit(buf, pos, "{\"Ok\":null}") {
        Some((ResponseSet::Done, p1))
    } else if let Some(p1) = expect_lit(buf, pos, "{\"Err\":") {
        proof {
            lemma_skip_skip(buf@, pos as int, 7);
        }
        match decode_str_close(buf, p1) {
            None => None,
            Some(mp) => {
                let (m, p2) = mp;
                Some((ResponseSet::Fail(m), p2))
            },
        }
    } else {
        None
    }
}

/// Consumes one `remove` response at position `pos` of `buf`.
pub fn decode_resp_remove(buf: &Vec<char>, pos: usize) -> (r: Option<(ResponseRemove, usize)>)
    requires
        pos <= buf@.len(),
    ensures
        r matches Some(p) ==> pos < p.1 <= buf@.len() && dec_resp_remove(buf@.skip(pos as int))
            == Some((p.0@, p.1 - pos)),
        r is None ==> dec_resp_remove(buf@.skip(pos as int)) is None,
{
    proof {
        lemma_wire_lits();
    }
    if let Some(p1) = expect_lit(buf, pos, "{\"Ok\":null}") {
        Some((ResponseRemove::Done, p1))
    } else if let Some(p1) = expect_lit(buf, pos, "{\"Err\":") {
        proof {
            lemma_skip_skip(buf@, pos as int, 7);
        }
        match decode_str_close(buf, p1) {
            None => None,
            Some(mp) => {
                let (m, p2) = mp;
                Some((ResponseRemove::Fail(m), p2))
            },
        }
    } else {
        None
    }
}

} // verus!
