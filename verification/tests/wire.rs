//! The wire protocol end to end: requests and responses round-trip through
//! the codec, and a client talking to a server over an in-memory "wire"
//! sees exactly what the store holds.

use kvs::client::interpret_get;
use kvs::client::interpret_remove;
use kvs::client::interpret_set;
use kvs::client::render_get;
use kvs::engines::pick_active_log;
use kvs::engines::wrong_engine;
use kvs::server::resp_get_of;
use kvs::server::resp_remove_of;
use kvs::server::resp_set_of;
use kvs::transport::decode_request;
use kvs::transport::decode_resp_get;
use kvs::transport::decode_resp_remove;
use kvs::transport::decode_resp_set;
use kvs::transport::encode_request;
use kvs::transport::encode_resp_get;
use kvs::transport::encode_resp_remove;
use kvs::transport::encode_resp_set;
use kvs::EngineKind;
use kvs::KvStore;
use kvs::KvsError;
use kvs::KvsServer;
use kvs::Request;
use kvs::ResponseGet;
use kvs::ResponseRemove;
use kvs::ResponseSet;

fn chars(s: &str) -> Vec<char> {
    s.chars().collect()
}

#[test]
fn request_round_trips() {
    let reqs = vec![
        Request::Get { key: "a key".to_owned() },
        Request::Put { key: "k".to_owned(), value: "a \"value\"\\".to_owned() },
        Request::Remove { key: String::new() },
    ];
    for req in reqs {
        let text = encode_request(&req);
        let buf = chars(text.as_str());
        let (back, used) = decode_request(&buf, 0).expect("the encoder's output decodes");
        assert_eq!(used, buf.len());
        match (req, back) {
            (Request::Get { key: a }, Request::Get { key: b }) => assert_eq!(a, b),
            (Request::Put { key: a, value: va }, Request::Put { key: b, value: vb }) => {
                assert_eq!(a, b);
                assert_eq!(va, vb);
            },
            (Request::Remove { key: a }, Request::Remove { key: b }) => assert_eq!(a, b),
            _ => panic!("the decoded request has the wrong kind"),
        }
    }
}

#[test]
fn request_stream_decodes_in_order() {
    let one = encode_request(&Request::Put { key: "k".to_owned(), value: "v".to_owned() });
    let two = encode_request(&Request::Get { key: "k".to_owned() });
    let buf = chars(format!("{}{}", one, two).as_str());
    let (first, p1) = decode_request(&buf, 0).unwrap();
    let (second, p2) = decode_request(&buf, p1).unwrap();
    assert_eq!(p2, buf.len());
    assert!(matches!(first, Request::Put { .. }));
    assert!(matches!(second, Request::Get { .. }));
}

#[test]
fn response_round_trips() {
    let cases = vec![
        ResponseGet::Done(None),
        ResponseGet::Done(Some("v".to_owned())),
        ResponseGet::Fail("an error".to_owned()),
    ];
    for resp in cases {
        let text = encode_resp_get(&resp);
        let buf = chars(text.as_str());
        let (back, used) = decode_resp_get(&buf, 0).expect("the encoder's output decodes");
        assert_eq!(used, buf.len());
        match (resp, back) {
            (ResponseGet::Done(a), ResponseGet::Done(b)) => assert_eq!(a, b),
            (ResponseGet::Fail(a), ResponseGet::Fail(b)) => assert_eq!(a, b),
            _ => panic!("the decoded response has the wrong kind"),
        }
    }

    let text = encode_resp_set(&ResponseSet::Done);
    assert_eq!(text, "{\"Ok\":null}");
    let buf = chars(text.as_str());
    assert!(matches!(decode_resp_set(&buf, 0), Some((ResponseSet::Done, 11))));

    let text = encode_resp_remove(&ResponseRemove::Fail("no".to_owned()));
    let buf = chars(text.as_str());
    match decode_resp_remove(&buf, 0) {
        Some((ResponseRemove::Fail(m), used)) => {
            assert_eq!(m, "no");
            assert_eq!(used, buf.len());
        },
        other => panic!("expected the error response, got {:?}", other.map(|p| p.1)),
    }
}

#[test]
fn encoded_forms_are_as_documented() {
    let req = Request::Put { key: "key1".to_owned(), value: "value1".to_owned() };
    assert_eq!(encode_request(&req), "{\"Set\":{\"key\":\"key1\",\"value\":\"value1\"}}");
    let req = Request::Get { key: "key1".to_owned() };
    assert_eq!(encode_request(&req), "{\"Get\":{\"key\":\"key1\"}}");
    let req = Request::Remove { key: "a\"b".to_owned() };
    assert_eq!(encode_request(&req), "{\"Remove\":{\"key\":\"a\\\"b\"}}");
    assert_eq!(encode_resp_get(&ResponseGet::Done(None)), "{\"Ok\":null}");
    assert_eq!(encode_resp_get(&ResponseGet::Done(Some("v".to_owned()))), "{\"Ok\":\"v\"}");
    assert_eq!(encode_resp_get(&ResponseGet::Fail("e".to_owned())), "{\"Err\":\"e\"}");
}

/// One client call against a server, with the wire played by strings.
fn call(server: &mut KvsServer<KvStore>, req: Request) -> String {
    let sent = encode_request(&req);
    let wire = chars(sent.as_str());
    let (received, _) = decode_request(&wire, 0).expect("the server decodes the request");
    server.handle_request(received)
}

#[test]
fn s5_get_missing_over_the_wire() {
    let store = KvStore::open("").unwrap();
    let mut server = KvsServer::new(store);
    let answer = call(&mut server, Request::Get { key: "missing".to_owned() });
    let buf = chars(answer.as_str());
    let (resp, _) = decode_resp_get(&buf, 0).expect("the client decodes the response");
    assert!(matches!(resp, ResponseGet::Done(None)));
    let value = interpret_get(resp).unwrap();
    assert_eq!(value, None);
    assert_eq!(render_get(&value), "Key not found");
}

#[test]
fn set_get_remove_over_the_wire() {
    let store = KvStore::open("").unwrap();
    let mut server = KvsServer::new(store);

    let answer = call(&mut server, Request::Put { key: "k".to_owned(), value: "v".to_owned() });
    let buf = chars(answer.as_str());
    let (resp, _) = decode_resp_set(&buf, 0).unwrap();
    interpret_set(resp).unwrap();

    let answer = call(&mut server, Request::Get { key: "k".to_owned() });
    let buf = chars(answer.as_str());
    let (resp, _) = decode_resp_get(&buf, 0).unwrap();
    let value = interpret_get(resp).unwrap();
    assert_eq!(value, Some("v".to_owned()));
    assert_eq!(render_get(&value), "v");

    let answer = call(&mut server, Request::Remove { key: "k".to_owned() });
    let buf = chars(answer.as_str());
    let (resp, _) = decode_resp_remove(&buf, 0).unwrap();
    interpret_remove(resp).unwrap();

    // Removing again fails on the server and the error string rides back.
    let answer = call(&mut server, Request::Remove { key: "k".to_owned() });
    let buf = chars(answer.as_str());
    let (resp, _) = decode_resp_remove(&buf, 0).unwrap();
    match interpret_remove(resp) {
        Err(KvsError::StringError(m)) => assert_eq!(m, "Key not found"),
        other => panic!("expected the carried error string, got {:?}", other),
    }
}

#[test]
fn engine_outcomes_map_to_response_variants() {
    assert!(matches!(resp_get_of(Ok(Some("v".to_owned()))), ResponseGet::Done(Some(_))));
    assert!(matches!(resp_get_of(Ok(None)), ResponseGet::Done(None)));
    match resp_get_of(Err(KvsError::KeyNotFound)) {
        ResponseGet::Fail(m) => assert_eq!(m, "Key not found"),
        ResponseGet::Done(_) => panic!("expected the error variant"),
    }
    assert!(matches!(resp_set_of(Ok(())), ResponseSet::Done));
    match resp_set_of(Err(KvsError::Codec)) {
        ResponseSet::Fail(m) => assert_eq!(m, "serde error"),
        ResponseSet::Done => panic!("expected the error variant"),
    }
    assert!(matches!(resp_remove_of(Ok(())), ResponseRemove::Done));
    match resp_remove_of(Err(KvsError::Io("gone".to_owned()))) {
        ResponseRemove::Fail(m) => assert_eq!(m, "IO error with gone"),
        ResponseRemove::Done => panic!("expected the error variant"),
    }
}

#[test]
fn active_log_is_first_log_name() {
    let names = vec![
        "a.txt".to_owned(),
        "b.log".to_owned(),
        "c.log".to_owned(),
        "log".to_owned(),
    ];
    assert_eq!(pick_active_log(&names), Some(1));
    let none = vec!["a.txt".to_owned(), "lo".to_owned(), "x.logx".to_owned()];
    assert_eq!(pick_active_log(&none), None);
    assert_eq!(pick_active_log(&Vec::new()), None);
}

#[test]
fn s6_wrong_engine_check() {
    // A `kvs` directory exists, no `sled` directory does: starting with the
    // sled engine must be refused, starting with the kvs engine must not.
    let selected = EngineKind::Sled;
    assert_eq!(selected.name(), "sled");
    assert_eq!(selected.other(), EngineKind::Kvs);
    let sled_dir_exists = false;
    let kvs_dir_exists = true;
    assert!(wrong_engine(sled_dir_exists, kvs_dir_exists));
    assert!(!wrong_engine(kvs_dir_exists, sled_dir_exists));
    // Both directories absent: a fresh start, either engine may run.
    assert!(!wrong_engine(false, false));
}
