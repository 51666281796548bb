//! The record codec: the self-delimiting textual form of a command, and the
//! shared string framing that the wire protocol reuses.
//!
//! A string is written between double quotes, with `"` and `\` preceded by a
//! backslash and every other character kept as it is; a record is written as
//! a tagged object around its strings, with no framing between records.  The
//! decoder consumes exactly one record from the front of a character
//! sequence and reports how many characters it took, so a log or a wire
//! stream can be read as a plain concatenation.

use vstd::prelude::*;

use crate::chars::push_char;
use crate::chars::push_str_chars;
use crate::cmd::Cmd;
use crate::cmd::CmdView;

verus! {

// ---------------------------------------------------------------------------
// The fixed framing pieces.
// ---------------------------------------------------------------------------

/// What a `Set` record opens with.
pub open spec fn set_prefix() -> Seq<char> {
    "{\"Set\":{\"key\":"@
}

/// What a `Remove` record opens with.
pub open spec fn remove_prefix() -> Seq<char> {
    "{\"Remove\":{\"key\":"@
}

/// What separates the key from the value inside a `Set` record.
pub open spec fn val_sep() -> Seq<char> {
    ",\"value\":"@
}

/// What closes a tagged object holding strings.
pub open spec fn obj_end() -> Seq<char> {
    "}}"@
}

/// The whole encoding of the placeholder record.
pub open spec fn empty_lit() -> Seq<char> {
    "\"Empty\""@
}

// ---------------------------------------------------------------------------
// Specification: encoding.
// ---------------------------------------------------------------------------

/// How one character is written inside a quoted string.
pub open spec fn esc_char(c: char) -> Seq<char> {
    if c == '"' || c == '\\' {
        seq!['\\', c]
    } else {
        seq![c]
    }
}

/// How a character sequence is written inside a quoted string.
pub open spec fn esc_seq(s: Seq<char>) -> Seq<char>
    decreases s.len(),
{
    if s.len() == 0 {
        Seq::empty()
    } else {
        esc_char(s[0]) + esc_seq(s.skip(1))
    }
}

/// The encoding of a string: its escaped characters between double quotes.
pub open spec fn enc_string(s: Seq<char>) -> Seq<char> {
    seq!['"'] + esc_seq(s) + seq!['"']
}

/// The payload of a one-string object: the string, then the closing braces.
pub open spec fn enc_one_str_payload(k: Seq<char>) -> Seq<char> {
    enc_string(k) + obj_end()
}

/// The payload of a key-value object.
pub open spec fn enc_two_str_payload(k: Seq<char>, v: Seq<char>) -> Seq<char> {
    enc_string(k) + val_sep() + enc_string(v) + obj_end()
}

/// The encoding of one command record.
pub open spec fn enc_cmd(c: CmdView) -> Seq<char> {
    match c {
        CmdView::Put { key, value } => set_prefix() + enc_two_str_payload(key, value),
        CmdView::Remove { key } => remove_prefix() + enc_one_str_payload(key),
        CmdView::Empty => empty_lit(),
    }
}

// ---------------------------------------------------------------------------
// Specification: decoding.
// ---------------------------------------------------------------------------

/// Consumes the literal `lit` from the front of `s`, or nothing.
pub open spec fn dlit(s: Seq<char>, lit: Seq<char>) -> Option<int> {
    if lit.len() <= s.len() && s.take(lit.len() as int) == lit {
        Some(lit.len() as int)
    } else {
        None
    }
}

/// Consumes the rest of a quoted string, after its opening quote: the
/// decoded characters and how many encoded characters they took, the
/// closing quote included.
pub open spec fn dec_str_body(s: Seq<char>) -> Option<(Seq<char>, int)>
    decreases s.len(),
{
    if s.len() == 0 {
        None
    } else if s[0] == '"' {
        Some((Seq::empty(), 1))
    } else if s[0] == '\\' {
        if s.len() >= 2 && (s[1] == '"' || s[1] == '\\') {
            match dec_str_body(s.skip(2)) {
                Some(p) => Some((seq![s[1]] + p.0, p.1 + 2)),
                None => None,
            }
        } else {
            None
        }
    } else {
        match dec_str_body(s.skip(1)) {
            Some(p) => Some((seq![s[0]] + p.0, p.1 + 1)),
            None => None,
        }
    }
}

/// Consumes one quoted string from the front of `s`.
pub open spec fn dec_string(s: Seq<char>) -> Option<(Seq<char>, int)> {
    if s.len() >= 1 && s[0] == '"' {
        match dec_str_body(s.skip(1)) {
            Some(p) => Some((p.0, p.1 + 1)),
            None => None,
        }
    } else {
        None
    }
}

/// Consumes a one-string payload: a quoted string and the closing braces.
pub open spec fn dec_one_str_payload(s: Seq<char>) -> Option<(Seq<char>, int)> {
    match dec_string(s) {
        Some(k) => match dlit(s.skip(k.1), obj_end()) {
            Some(l) => Some((k.0, k.1 + l)),
            None => None,
        },
        None => None,
    }
}

/// Consumes a key-value payload.
pub open spec fn dec_two_str_payload(s: Seq<char>) -> Option<((Seq<char>, Seq<char>), int)> {
    match dec_string(s) {
        Some(k) => match dlit(s.skip(k.1), val_sep()) {
            Some(l1) => match dec_string(s.skip(k.1 + l1)) {
                Some(v) => match dlit(s.skip(k.1 + l1 + v.1), obj_end()) {
                    Some(l2) => Some(((k.0, v.0), k.1 + l1 + v.1 + l2)),
                    None => None,
                },
                None => None,
            },
            None => None,
        },
        None => None,
    }
}

/// Consumes one command record from the front of `s`.
pub open spec fn dec_cmd(s: Seq<char>) -> Option<(CmdView, int)> {
    if dlit(s, set_prefix()) is Some {
        let p: int = set_prefix().len() as int;
        match dec_two_str_payload(s.skip(p)) {
            Some(kv) => Some((CmdView::Put { key: kv.0.0, value: kv.0.1 }, p + kv.1)),
            None => None,
        }
    } else if dlit(s, remove_prefix()) is Some {
        let p: int = remove_prefix().len() as int;
        match dec_one_str_payload(s.skip(p)) {
            Some(k) => Some((CmdView::Remove { key: k.0 }, p + k.1)),
            None => None,
        }
    } else if dlit(s, empty_lit()) is Some {
        Some((CmdView::Empty, empty_lit().len() as int))
    } else {
        None
    }
}

// ---------------------------------------------------------------------------
// Sequence glue.
// ---------------------------------------------------------------------------

/// Splitting a concatenation back apart.
pub proof fn lemma_concat_parts(a: Seq<char>, b: Seq<char>)
    ensures
        (a + b).take(a.len() as int) == a,
        (a + b).skip(a.len() as int) == b,
{
    assert((a + b).take(a.len() as int) =~= a);
    assert((a + b).skip(a.len() as int) =~= b);
}

/// Two skips in a row are one longer skip.
pub proof fn lemma_skip_skip(s: Seq<char>, a: int, b: int)
    requires
        0 <= a,
        0 <= b,
        a + b <= s.len(),
    ensures
        s.skip(a).skip(b) == s.skip(a + b),
{
    assert(s.skip(a).skip(b) =~= s.skip(a + b));
}

/// A take over a split point is the two takes joined.
pub proof fn lemma_take_split(s: Seq<char>, a: int, n: int)
    requires
        0 <= a,
        0 <= n,
        a + n <= s.len(),
    ensures
        s.take(a + n) == s.take(a) + s.skip(a).take(n),
{
    assert(s.take(a + n) =~= s.take(a) + s.skip(a).take(n));
}

/// A take that stays within the first part of a concatenation.
pub proof fn lemma_take_prefix(a: Seq<char>, b: Seq<char>, n: int)
    requires
        0 <= n <= a.len(),
    ensures
        (a + b).take(n) == a.take(n),
{
    assert((a + b).take(n) =~= a.take(n));
}

/// Escaping distributes over appending one character at the end.
pub proof fn lemma_esc_snoc(x: Seq<char>, c: char)
    ensures
        esc_seq(x.push(c)) == esc_seq(x) + esc_char(c),
    decreases x.len(),
{
    if x.len() == 0 {
        assert(x.push(c)[0] == c);
        assert(x.push(c).skip(1) =~= Seq::<char>::empty());
        assert(esc_seq(x.push(c)) =~= esc_seq(x) + esc_char(c));
    } else {
        assert(x.push(c)[0] == x[0]);
        assert(x.push(c).skip(1) =~= x.skip(1).push(c));
        lemma_esc_snoc(x.skip(1), c);
        assert(esc_seq(x.push(c)) == esc_char(x.push(c)[0]) + esc_seq(x.push(c).skip(1)));
        assert(esc_seq(x.push(c)) == esc_char(x[0]) + (esc_seq(x.skip(1)) + esc_char(c)));
        assert(esc_char(x[0]) + (esc_seq(x.skip(1)) + esc_char(c)) =~= (esc_char(x[0]) + esc_seq(
            x.skip(1),
        )) + esc_char(c));
    }
}

// ---------------------------------------------------------------------------
// Round trip and canonicity of the string framing.
// ---------------------------------------------------------------------------

/// Decoding a string body finds exactly the characters the encoder escaped,
/// whatever follows the closing quote.
pub proof fn lemma_body_round_trip(x: Seq<char>, rest: Seq<char>)
    ensures
        dec_str_body(esc_seq(x) + seq!['"'] + rest) == Some(
            (x, esc_seq(x).len() + 1 as int),
        ),
    decreases x.len(),
{
    let s = esc_seq(x) + seq!['"'] + rest;
    if x.len() == 0 {
        assert(esc_seq(x) =~= Seq::<char>::empty());
        assert(s[0] == '"');
    } else {
        let c = x[0];
        assert(esc_seq(x) == esc_char(c) + esc_seq(x.skip(1)));
        lemma_body_round_trip(x.skip(1), rest);
        if c == '"' || c == '\\' {
            assert(s[0] == '\\');
            assert(s[1] == c);
            assert(s.skip(2) =~= esc_seq(x.skip(1)) + seq!['"'] + rest);
            assert(seq![s[1]] + x.skip(1) =~= x);
        } else {
            assert(s[0] == c);
            assert(s.skip(1) =~= esc_seq(x.skip(1)) + seq!['"'] + rest);
            assert(seq![s[0]] + x.skip(1) =~= x);
        }
    }
}

/// Whatever the body decoder accepts is the exact escaped image of what it
/// returns, closing quote included.
pub proof fn lemma_body_canon(u: Seq<char>)
    ensures
        dec_str_body(u) matches Some(p) ==> 1 <= p.1 <= u.len() && u.take(p.1) == esc_seq(p.0)
            + seq!['"'],
    decreases u.len(),
{
    if u.len() == 0 {
    } else if u[0] == '"' {
        assert(u.take(1) =~= esc_seq(Seq::<char>::empty()) + seq!['"']);
    } else if u[0] == '\\' {
        if u.len() >= 2 && (u[1] == '"' || u[1] == '\\') {
            lemma_body_canon(u.skip(2));
            if let Some(p2) = dec_str_body(u.skip(2)) {
                let t = seq![u[1]] + p2.0;
                lemma_take_split(u, 2, p2.1);
                assert(u.take(2) =~= seq!['\\', u[1]]);
                assert(t[0] == u[1]);
                assert(t.skip(1) =~= p2.0);
                assert(esc_seq(t) == esc_char(t[0]) + esc_seq(p2.0));
                assert(u.take(p2.1 + 2) =~= esc_seq(t) + seq!['"']);
            }
        }
    } else {
        lemma_body_canon(u.skip(1));
        if let Some(p2) = dec_str_body(u.skip(1)) {
            let t = seq![u[0]] + p2.0;
            lemma_take_split(u, 1, p2.1);
            assert(u.take(1) =~= seq![u[0]]);
            assert(t[0] == u[0]);
            assert(t.skip(1) =~= p2.0);
            assert(esc_seq(t) == esc_char(t[0]) + esc_seq(p2.0));
            assert(u.take(p2.1 + 1) =~= esc_seq(t) + seq!['"']);
        }
    }
}

/// Round trip for one quoted string at the front of a stream.
pub proof fn lemma_string_round_trip(x: Seq<char>, rest: Seq<char>)
    ensures
        dec_string(enc_string(x) + rest) == Some((x, enc_string(x).len() as int)),
        enc_string(x).len() == esc_seq(x).len() + 2,
{
    let s = enc_string(x) + rest;
    assert(s[0] == '"');
    assert(s.skip(1) =~= esc_seq(x) + seq!['"'] + rest);
    lemma_body_round_trip(x, rest);
}

/// Whatever the string decoder accepts is the exact encoding of its result.
pub proof fn lemma_string_canon(u: Seq<char>)
    ensures
        dec_string(u) matches Some(p) ==> 2 <= p.1 <= u.len() && u.take(p.1) == enc_string(p.0),
{
    if u.len() >= 1 && u[0] == '"' {
        lemma_body_canon(u.skip(1));
        if let Some(p2) = dec_str_body(u.skip(1)) {
            lemma_take_split(u, 1, p2.1);
            assert(u.take(1) =~= seq!['"']);
            assert(u.take(p2.1 + 1) =~= enc_string(p2.0));
        }
    }
}

// ---------------------------------------------------------------------------
// Round trip and canonicity of the object payloads.
// ---------------------------------------------------------------------------

/// Round trip for a one-string payload.
pub proof fn lemma_one_payload_round_trip(k: Seq<char>, rest: Seq<char>)
    ensures
        dec_one_str_payload(enc_one_str_payload(k) + rest) == Some(
            (k, enc_one_str_payload(k).len() as int),
        ),
{
    let s = enc_one_str_payload(k) + rest;
    let r1 = obj_end() + rest;
    assert(s =~= enc_string(k) + r1);
    lemma_string_round_trip(k, r1);
    let n1 = enc_string(k).len() as int;
    lemma_concat_parts(enc_string(k), r1);
    assert(s.skip(n1) == r1);
    lemma_concat_parts(obj_end(), rest);
    assert(dlit(r1, obj_end()) == Some(obj_end().len() as int));
}

/// Canonicity for a one-string payload.
pub proof fn lemma_one_payload_canon(u: Seq<char>)
    ensures
        dec_one_str_payload(u) matches Some(p) ==> 1 <= p.1 <= u.len() && u.take(p.1)
            == enc_one_str_payload(p.0),
{
    lemma_string_canon(u);
    if let Some(k) = dec_string(u) {
        let l: int = obj_end().len() as int;
        if dlit(u.skip(k.1), obj_end()) is Some {
            lemma_take_split(u, k.1, l);
            assert(u.take(k.1 + l) == u.take(k.1) + u.skip(k.1).take(l));
        }
    }
}

/// Round trip for a key-value payload.
pub proof fn lemma_two_payload_round_trip(k: Seq<char>, v: Seq<char>, rest: Seq<char>)
    ensures
        dec_two_str_payload(enc_two_str_payload(k, v) + rest) == Some(
            ((k, v), enc_two_str_payload(k, v).len() as int),
        ),
{
    let s = enc_two_str_payload(k, v) + rest;
    let r1 = val_sep() + enc_string(v) + obj_end() + rest;
    assert(s =~= enc_string(k) + r1);
    lemma_string_round_trip(k, r1);
    let n1 = enc_string(k).len() as int;
    lemma_concat_parts(enc_string(k), r1);
    assert(s.skip(n1) == r1);
    let r2 = enc_string(v) + obj_end() + rest;
    assert(r1 =~= val_sep() + r2);
    lemma_concat_parts(val_sep(), r2);
    let l1 = val_sep().len() as int;
    assert(dlit(r1, val_sep()) == Some(l1));
    lemma_skip_skip(s, n1, l1);
    assert(s.skip(n1 + l1) == r2);
    let r3 = obj_end() + rest;
    assert(r2 =~= enc_string(v) + r3);
    lemma_string_round_trip(v, r3);
    let n2 = enc_string(v).len() as int;
    lemma_concat_parts(enc_string(v), r3);
    assert(r2.skip(n2) == r3);
    lemma_skip_skip(s, n1 + l1, n2);
    assert(s.skip(n1 + l1 + n2) == r3);
    lemma_concat_parts(obj_end(), rest);
    assert(dlit(r3, obj_end()) == Some(obj_end().len() as int));
}

/// Canonicity for a key-value payload.
pub proof fn lemma_two_payload_canon(u: Seq<char>)
    ensures
        dec_two_str_payload(u) matches Some(p) ==> 1 <= p.1 <= u.len() && u.take(p.1)
            == enc_two_str_payload(p.0.0, p.0.1),
{
    lemma_string_canon(u);
    if let Some(k) = dec_string(u) {
        let l1: int = val_sep().len() as int;
        if dlit(u.skip(k.1), val_sep()) is Some {
            lemma_skip_skip(u, k.1, l1);
            lemma_string_canon(u.skip(k.1 + l1));
            if let Some(v) = dec_string(u.skip(k.1 + l1)) {
                let l2: int = obj_end().len() as int;
                if dlit(u.skip(k.1 + l1 + v.1), obj_end()) is Some {
                    let n = k.1 + l1 + v.1 + l2;
                    lemma_skip_skip(u.skip(k.1 + l1), v.1, l2);
                    lemma_skip_skip(u, k.1 + l1, v.1 + l2);
                    assert(u.skip(k.1 + l1).skip(v.1 + l2) == u.skip(k.1 + l1 + v.1 + l2));
                    lemma_take_split(u, k.1, l1 + v.1 + l2);
                    lemma_take_split(u.skip(k.1), l1, v.1 + l2);
                    lemma_skip_skip(u, k.1, l1);
                    lemma_take_split(u.skip(k.1 + l1), v.1, l2);
                    assert(u.take(n) == u.take(k.1) + (u.skip(k.1).take(l1) + (u.skip(
                        k.1 + l1,
                    ).take(v.1) + u.skip(k.1 + l1 + v.1).take(l2))));
                    assert(u.take(n) =~= enc_two_str_payload(k.0, v.0));
                }
            }
        }
    }
}

// ---------------------------------------------------------------------------
// Round trip and canonicity of a command record.
// ---------------------------------------------------------------------------

/// The lengths and distinguishing characters of the fixed framing pieces.
pub proof fn lemma_lits()
    ensures
        set_prefix().len() == 14,
        remove_prefix().len() == 17,
        val_sep().len() == 9,
        obj_end().len() == 2,
        empty_lit().len() == 7,
        set_prefix()[0] == '{',
        remove_prefix()[0] == '{',
        empty_lit()[0] == '"',
        set_prefix()[2] == 'S',
        remove_prefix()[2] == 'R',
{
    reveal_strlit("{\"Set\":{\"key\":");
    reveal_strlit("{\"Remove\":{\"key\":");
    reveal_strlit(",\"value\":");
    reveal_strlit("}}");
    reveal_strlit("\"Empty\"");
}

/// A stream that opens with the `Remove` prefix or the placeholder literal
/// does not open with the `Set` prefix, and so on: the three record shapes
/// are told apart by their first characters.
proof fn lemma_cmd_dispatch(s: Seq<char>, c: CmdView)
    requires
        s.len() >= enc_cmd(c).len(),
        s.take(enc_cmd(c).len() as int) == enc_cmd(c),
    ensures
        c is Put ==> dlit(s, set_prefix()) is Some,
        c is Remove ==> dlit(s, set_prefix()) is None && dlit(s, remove_prefix()) is Some,
        c is Empty ==> dlit(s, set_prefix()) is None && dlit(s, remove_prefix()) is None && dlit(
            s,
            empty_lit(),
        ) is Some,
{
    lemma_lits();
    let e = enc_cmd(c);
    match c {
        CmdView::Put { key, value } => {
            lemma_take_prefix(e, s.skip(e.len() as int), 14);
            assert(s =~= e + s.skip(e.len() as int));
            lemma_take_prefix(set_prefix(), enc_two_str_payload(key, value), 14);
            assert(set_prefix().take(14) =~= set_prefix());
            assert(s.take(14) == set_prefix());
        },
        CmdView::Remove { key } => {
            assert(s =~= e + s.skip(e.len() as int));
            lemma_take_prefix(e, s.skip(e.len() as int), 17);
            lemma_take_prefix(remove_prefix(), enc_one_str_payload(key), 17);
            assert(remove_prefix().take(17) =~= remove_prefix());
            assert(s.take(17) == remove_prefix());
            assert(s[2] == 'R');
            if dlit(s, set_prefix()) is Some {
                assert(s.take(14)[2] == s[2]);
                assert(false);
            }
        },
        CmdView::Empty => {
            assert(s =~= e + s.skip(e.len() as int));
            lemma_take_prefix(e, s.skip(e.len() as int), 7);
            assert(empty_lit().take(7) =~= empty_lit());
            assert(s.take(7) == empty_lit());
            assert(s[0] == '"');
            if dlit(s, set_prefix()) is Some {
                assert(s.take(14)[0] == s[0]);
                assert(false);
            }
            if dlit(s, remove_prefix()) is Some {
                assert(s.take(17)[0] == s[0]);
                assert(false);
            }
        },
    }
}

/// Round trip: the decoder reads back exactly the record the encoder wrote,
/// whatever follows it in the stream.
pub proof fn lemma_cmd_round_trip(c: CmdView, rest: Seq<char>)
    ensures
        dec_cmd(enc_cmd(c) + rest) == Some((c, enc_cmd(c).len() as int)),
        enc_cmd(c).len() >= 1,
{
    lemma_lits();
    let e = enc_cmd(c);
    let s = e + rest;
    lemma_concat_parts(e, rest);
    assert(s.take(e.len() as int) == e);
    lemma_cmd_dispatch(s, c);
    match c {
        CmdView::Put { key, value } => {
            assert(s.skip(14) =~= enc_two_str_payload(key, value) + rest);
            lemma_two_payload_round_trip(key, value, rest);
        },
        CmdView::Remove { key } => {
            assert(s.skip(17) =~= enc_one_str_payload(key) + rest);
            lemma_one_payload_round_trip(key, rest);
        },
        CmdView::Empty => {},
    }
}

/// Canonicity: whatever the decoder accepts is the exact encoding of the
/// record it returns.
pub proof fn lemma_cmd_canon(u: Seq<char>)
    ensures
        dec_cmd(u) matches Some(p) ==> 1 <= p.1 <= u.len() && u.take(p.1) == enc_cmd(p.0),
{
    lemma_lits();
    if dlit(u, set_prefix()) is Some {
        lemma_two_payload_canon(u.skip(14));
        if let Some(kv) = dec_two_str_payload(u.skip(14)) {
            lemma_take_split(u, 14, kv.1);
            assert(u.take(14) == set_prefix());
            assert(u.take(14 + kv.1) == enc_cmd(CmdView::Put { key: kv.0.0, value: kv.0.1 }));
        }
    } else if dlit(u, remove_prefix()) is Some {
        lemma_one_payload_canon(u.skip(17));
        if let Some(k) = dec_one_str_payload(u.skip(17)) {
            lemma_take_split(u, 17, k.1);
            assert(u.take(17) == remove_prefix());
            assert(u.take(17 + k.1) == enc_cmd(CmdView::Remove { key: k.0 }));
        }
    } else if dlit(u, empty_lit()) is Some {
        assert(u.take(7) == enc_cmd(CmdView::Empty));
    }
}

// ---------------------------------------------------------------------------
// Executable encoding.
// ---------------------------------------------------------------------------

/// Appends the encoding of the string `s` to `out`.
pub fn encode_string_into(out: &mut Vec<char>, s: &str)
    ensures
        final(out)@ == old(out)@ + enc_string(s@),
{
    let ghost base = old(out)@;
    out.push('"');
    for c in it: s.chars()
        invariant
            it.seq() == s@,
            out@ == base + seq!['"'] + esc_seq(s@.take(it.index() as int)),
    {
        proof {
            assert(s@.take(it.index() + 1) =~= s@.take(it.index() as int).push(c));
            lemma_esc_snoc(s@.take(it.index() as int), c);
        }
        if c == '"' || c == '\\' {
            out.push('\\');
            out.push(c);
        } else {
            out.push(c);
        }
        proof {
            assert(out@ =~= base + seq!['"'] + esc_seq(s@.take(it.index() + 1)));
        }
    }
    out.push('"');
    proof {
        assert(s@.take(s@.len() as int) =~= s@);
        assert(out@ =~= base + enc_string(s@));
    }
}

/// The encoding of one command record.
pub fn encode_cmd(cmd: &Cmd) -> (r: Vec<char>)
    ensures
        r@ == enc_cmd(cmd@),
{
    let mut out: Vec<char> = Vec::new();
    match cmd {
        Cmd::Put { key, value } => {
            push_str_chars(&mut out, "{\"Set\":{\"key\":");
            encode_string_into(&mut out, key.as_str());
            push_str_chars(&mut out, ",\"value\":");
            encode_string_into(&mut out, value.as_str());
            push_str_chars(&mut out, "}}");
            proof {
                assert(out@ =~= enc_cmd(cmd@));
            }
        },
        Cmd::Remove { key } => {
            push_str_chars(&mut out, "{\"Remove\":{\"key\":");
            encode_string_into(&mut out, key.as_str());
            push_str_chars(&mut out, "}}");
            proof {
                assert(out@ =~= enc_cmd(cmd@));
            }
        },
        Cmd::Empty => {
            push_str_chars(&mut out, "\"Empty\"");
            proof {
                assert(out@ =~= enc_cmd(cmd@));
            }
        },
    }
    out
}

// ---------------------------------------------------------------------------
// Executable decoding.
// ---------------------------------------------------------------------------

/// Consumes the literal `lit` at position `pos` of `buf`; returns the
/// position just past it.
pub fn expect_lit(buf: &Vec<char>, pos: usize, lit: &str) -> (r: Option<usize>)
    requires
        pos <= buf@.len(),
    ensures
        r matches Some(p) ==> p == pos + lit@.len() && p <= buf@.len() && dlit(
            buf@.skip(pos as int),
            lit@,
        ) == Some(lit@.len() as int),
        r is None ==> dlit(buf@.skip(pos as int), lit@) is None,
{
    let n = lit.unicode_len();
    if buf.len() - pos < n {
        return None;
    }
    let mut i: usize = 0;
    while i < n
        invariant
            0 <= i <= n,
            n == lit@.len(),
            pos + n <= buf@.len(),
            pos + n <= usize::MAX,
            forall|j: int| 0 <= j < i ==> buf@[pos + j] == lit@[j],
        decreases n - i,
    {
        if buf[pos + i] != lit.get_char(i) {
            proof {
                if dlit(buf@.skip(pos as int), lit@) is Some {
                    assert(buf@.skip(pos as int).take(n as int)[i as int] == lit@[i as int]);
                    assert(false);
                }
            }
            return None;
        }
        i = i + 1;
    }
    proof {
        assert(buf@.skip(pos as int).take(n as int) =~= lit@);
    }
    Some(pos + n)
}

/// Consumes one quoted string at position `pos` of `buf`.
pub fn decode_string(buf: &Vec<char>, pos: usize) -> (r: Option<(String, usize)>)
    requires
        pos <= buf@.len(),
    ensures
        r matches Some(p) ==> pos < p.1 <= buf@.len() && dec_string(buf@.skip(pos as int)) == Some(
            (p.0@, p.1 - pos),
        ),
        r is None ==> dec_string(buf@.skip(pos as int)) is None,
{
    if pos >= buf.len() || buf[pos] != '"' {
        return None;
    }
    let mut out = String::new();
    let mut i: usize = pos + 1;
    loop
        invariant
            pos + 1 <= i <= buf@.len(),
            pos < buf@.len(),
            buf@[pos as int] == '"',
            (match dec_str_body(buf@.skip(i as int)) {
                Some(p) => dec_str_body(buf@.skip(pos + 1)) == Some::<(Seq<char>, int)>(
                    (out@ + p.0, p.1 + (i - pos - 1)),
                ),
                None => dec_str_body(buf@.skip(pos + 1)) is None,
            }),
        decreases buf@.len() - i,
    {
        proof {
            lemma_skip_skip(buf@, pos as int, 1);
        }
        if i >= buf.len() {
            return None;
        }
        let c = buf[i];
        if c == '"' {
            proof {
                assert(buf@.skip(i as int)[0] == '"');
                assert(out@ + Seq::<char>::empty() =~= out@);
            }
            return Some((out, i + 1));
        } else if c == '\\' {
            if i + 1 >= buf.len() {
                proof {
                    assert(buf@.skip(i as int)[0] == '\\');
                    assert(buf@.skip(i as int).len() < 2);
                }
                return None;
            }
            let d = buf[i + 1];
            if d == '"' || d == '\\' {
                let ghost out0 = out@;
                push_char(&mut out, d);
                proof {
                    assert(buf@.skip(i as int)[0] == '\\');
                    assert(buf@.skip(i as int)[1] == d);
                    lemma_skip_skip(buf@, i as int, 2);
                    if let Some(p) = dec_str_body(buf@.skip(i + 2)) {
                        assert(dec_str_body(buf@.skip(i as int)) == Some::<(Seq<char>, int)>(
                            (seq![d] + p.0, p.1 + 2),
                        ));
                        assert(out0 + (seq![d] + p.0) =~= out@ + p.0);
                    }
                }
                i = i + 2;
            } else {
                proof {
                    assert(buf@.skip(i as int)[0] == '\\');
                    assert(buf@.skip(i as int)[1] == d);
                }
                return None;
            }
        } else {
            let ghost out0 = out@;
            push_char(&mut out, c);
            proof {
                assert(buf@.skip(i as int)[0] == c);
                lemma_skip_skip(buf@, i as int, 1);
                if let Some(p) = dec_str_body(buf@.skip(i + 1)) {
                    assert(dec_str_body(buf@.skip(i as int)) == Some::<(Seq<char>, int)>(
                        (seq![c] + p.0, p.1 + 1),
                    ));
                    assert(out0 + (seq![c] + p.0) =~= out@ + p.0);
                }
            }
            i = i + 1;
        }
    }
}

/// Consumes a one-string payload at position `pos` of `buf`.
pub fn decode_one_str_payload(buf: &Vec<char>, pos: usize) -> (r: Option<(String, usize)>)
    requires
        pos <= buf@.len(),
    ensures
        r matches Some(p) ==> pos < p.1 <= buf@.len() && dec_one_str_payload(
            buf@.skip(pos as int),
        ) == Some((p.0@, p.1 - pos)),
        r is None ==> dec_one_str_payload(buf@.skip(pos as int)) is None,
{
    proof {
        lemma_lits();
    }
    match decode_string(buf, pos) {
        None => None,
        Some(kp) => {
            let (k, p1) = kp;
            proof {
                lemma_skip_skip(buf@, pos as int, p1 - pos);
            }
            match expect_lit(buf, p1, "}}") {
                None => None,
                Some(p2) => Some((k, p2)),
            }
        },
    }
}

/// Consumes a key-value payload at position `pos` of `buf`.
pub fn decode_two_str_payload(buf: &Vec<char>, pos: usize) -> (r: Option<((String, String), usize)>)
    requires
        pos <= buf@.len(),
    ensures
        r matches Some(p) ==> pos < p.1 <= buf@.len() && dec_two_str_payload(
            buf@.skip(pos as int),
        ) == Some(((p.0.0@, p.0.1@), p.1 - pos)),
        r is None ==> dec_two_str_payload(buf@.skip(pos as int)) is None,
{
    proof {
        lemma_lits();
    }
    match decode_string(buf, pos) {
        None => None,
        Some(kp) => {
            let (k, p1) = kp;
            proof {
                lemma_skip_skip(buf@, pos as int, p1 - pos);
            }
            match expect_lit(buf, p1, ",\"value\":") {
                None => None,
                Some(p2) => {
                    proof {
                        lemma_skip_skip(buf@, pos as int, p2 - pos);
                        assert(buf@.skip(pos as int).skip(p1 - pos).skip(9) == buf@.skip(
                            pos as int,
                        ).skip(p2 - pos)) by {
                            lemma_skip_skip(buf@.skip(pos as int), p1 - pos, 9);
                        }
                    }
                    match decode_string(buf, p2) {
                        None => None,
                        Some(vp) => {
                            let (v, p3) = vp;
                            proof {
                                lemma_skip_skip(buf@, pos as int, p3 - pos);
                            }
                            match expect_lit(buf, p3, "}}") {
                                None => None,
                                Some(p4) => Some(((k, v), p4)),
                            }
                        },
                    }
                },
            }
        },
    }
}

/// Consumes one command record at position `pos` of `buf`.
pub fn decode_cmd(buf: &Vec<char>, pos: usize) -> (r: Option<(Cmd, usize)>)
    requires
        pos <= buf@.len(),
    ensures
        r matches Some(p) ==> pos < p.1 <= buf@.len() && dec_cmd(buf@.skip(pos as int)) == Some(
            (p.0@, p.1 - pos),
        ),
        r is None ==> dec_cmd(buf@.skip(pos as int)) is None,
{
    proof {
        lemma_lits();
    }
    if let Some(p1) = expect_lit(buf, pos, "{\"Set\":{\"key\":") {
        proof {
            lemma_skip_skip(buf@, pos as int, 14);
        }
        match decode_two_str_payload(buf, p1) {
            None => None,
            Some(kvp) => {
                let ((k, v), p2) = kvp;
                Some((Cmd::Put { key: k, value: v }, p2))
            },
        }
    } else if let Some(p1) = expect_lit(buf, pos, "{\"Remove\":{\"key\":") {
        proof {
            lemma_skip_skip(buf@, pos as int, 17);
        }
        match decode_one_str_payload(buf, p1) {
            None => None,
            Some(kp) => {
                let (k, p2) = kp;
                Some((Cmd::Remove { key: k }, p2))
            },
        }
    } else if let Some(p1) = expect_lit(buf, pos, "\"Empty\"") {
        Some((Cmd::Empty, p1))
    } else {
        None
    }
}

} // verus!

