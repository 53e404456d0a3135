use toy_edge_worker::ops::{
    check_fetch, complete_op, fetch_result, js_header_pairs, op_decode_utf8, op_encode_utf8,
    start_fetch, FetchRequest, FetchResponse, FetchStart, JsPair, LoopEvent, OpResult, OpState,
    Settlement,
};

fn done(op_id: u64) -> LoopEvent {
    LoopEvent::OpComplete { op_id, result: Ok(OpResult::Timer) }
}

fn row(key: Option<&str>, value: Option<&str>) -> Option<JsPair> {
    Some(JsPair { key: key.map(Into::into), value: value.map(Into::into) })
}

#[test]
fn operations_finish_in_any_order() {
    let mut state: OpState<&str> = OpState::new(true);
    let a = state.register("a");
    let b = state.register("b");
    assert_eq!((a, b), (0, 1));
    assert_eq!(state.pending_ops(), 2);
    assert_eq!(complete_op(&mut state, done(b)), Settlement::ResolveUndefined { resolver: "b" });
    assert_eq!(complete_op(&mut state, done(a)), Settlement::ResolveUndefined { resolver: "a" });
    assert_eq!(state.pending_ops(), 0);
}

#[test]
fn late_completion_is_ignored() {
    let mut state: OpState<&str> = OpState::new(true);
    let a = state.register("a");
    state.abort_all();
    assert_eq!(state.pending_ops(), 0);
    let b = state.register("b");
    assert_ne!(a, b);
    assert_eq!(complete_op(&mut state, done(a)), Settlement::Ignore);
    assert_eq!(state.pending_ops(), 1);
    assert_eq!(complete_op(&mut state, done(b)), Settlement::ResolveUndefined { resolver: "b" });
    assert_eq!(complete_op(&mut state, done(b)), Settlement::Ignore);
    assert_eq!(state.pending_ops(), 0);
    assert!(state.has_room());
}

#[test]
fn results_settle_promises() {
    let mut state: OpState<u8> = OpState::new(true);
    let a = state.register(1);
    let b = state.register(2);
    let result = Ok(OpResult::Fetch {
        status: 201,
        headers: vec![("k".into(), "v".into())],
        body: vec![1, 2],
    });
    assert_eq!(
        complete_op(&mut state, LoopEvent::OpComplete { op_id: a, result }),
        Settlement::ResolveFetched {
            resolver: 1,
            status: 201,
            headers: vec![("k".into(), "v".into())],
            body: vec![1, 2],
        }
    );
    let result = Err("no route".into());
    assert_eq!(
        complete_op(&mut state, LoopEvent::OpComplete { op_id: b, result }),
        Settlement::RejectTypeError { resolver: 2, message: "no route".into() }
    );
}

#[test]
fn incomplete_header_rows_are_left_out() {
    let rows = Some(vec![
        row(Some("a"), Some("1")),
        None,
        row(None, Some("2")),
        row(Some("c"), None),
        row(Some("d"), Some("")),
    ]);
    assert_eq!(
        js_header_pairs(&rows),
        vec![("a".to_string(), "1".to_string()), ("d".to_string(), "".to_string())]
    );
    assert!(js_header_pairs(&None).is_empty());
}

#[test]
fn fetch_starts_an_operation() {
    let mut state: OpState<u8> = OpState::new(true);
    let headers = Some(vec![row(Some("accept"), Some("*/*"))]);
    let start = start_fetch(&mut state, 9, Some("http://x/".into()), None, &headers, Some(vec![1]));
    assert_eq!(
        start,
        FetchStart::Started {
            op_id: 0,
            request: FetchRequest {
                url: "http://x/".into(),
                method: "GET".into(),
                headers: vec![("accept".into(), "*/*".into())],
                body: Some(vec![1]),
            },
        }
    );
    assert_eq!(state.pending_ops(), 1);
    let start = start_fetch(&mut state, 9, None, Some("POST".into()), &None, None);
    assert_eq!(
        start,
        FetchStart::Started {
            op_id: 1,
            request: FetchRequest {
                url: "".into(),
                method: "POST".into(),
                headers: vec![],
                body: None,
            },
        }
    );
}

#[test]
fn fetch_may_be_unavailable() {
    let mut state: OpState<u8> = OpState::new(false);
    let start = start_fetch(&mut state, 9, Some("http://x/".into()), None, &None, None);
    assert_eq!(
        start,
        FetchStart::Rejected {
            resolver: 9,
            message: "fetch is not available in this runtime".into(),
        }
    );
    assert_eq!(state.pending_ops(), 0);
}

fn with_method(method: &str) -> FetchRequest {
    FetchRequest { url: "http://x/".into(), method: method.into(), headers: vec![], body: None }
}

#[test]
fn methods_are_checked() {
    for method in ["GET", "get", "M-SEARCH", "a", "!#$%&'*+-.^_`|~09", "ABCDEFGHIJKLMNOPQRSTUVWXYZ"] {
        assert_eq!(check_fetch(with_method(method)), Ok(with_method(method)));
    }
    for method in ["", "GET ", "a b", "G\u{c9}T", "a/b", "(", "\t"] {
        assert_eq!(
            check_fetch(with_method(method)),
            Err(format!("invalid method: {method}"))
        );
    }
}

#[test]
fn fetched_headers_are_visible_ascii() {
    let response = FetchResponse {
        status: 204,
        headers: vec![
            ("a".into(), b"plain\ttext ~".to_vec()),
            ("b".into(), vec![0xe3, 0x81, 0x82]),
            ("c".into(), vec![127]),
            ("d".into(), vec![]),
        ],
        body: vec![5],
    };
    assert_eq!(
        fetch_result(Ok(response)),
        Ok(OpResult::Fetch {
            status: 204,
            headers: vec![("a".into(), "plain\ttext ~".into()), ("d".into(), "".into())],
            body: vec![5],
        })
    );
    assert_eq!(fetch_result(Err("dns".into())), Err("dns".into()));
}

#[test]
fn text_survives_encoding() {
    let text = "h\u{e9}llo \u{65e5}\u{672c} \u{1f600}";
    let bytes = op_encode_utf8(Some(text.into()));
    assert_eq!(bytes, text.as_bytes());
    assert_eq!(op_decode_utf8(Some(bytes)), Ok(text.to_string()));
    assert!(op_encode_utf8(None).is_empty());
}

#[test]
fn broken_bytes_are_replaced() {
    assert_eq!(op_decode_utf8(Some(vec![b'a', 0xff, b'b'])), Ok("a\u{fffd}b".to_string()));
    assert_eq!(
        op_decode_utf8(None),
        Err("decodeUtf8 expects an ArrayBuffer or view".to_string())
    );
}
