use michoi::agent_api::{
    CallAction, CallError, CallState, CommandRequest, EventKind, VideoFrame, MEDIA_TYPE_EVENTS,
    MEDIA_TYPE_JPEG, MEDIA_TYPE_JSON, MEDIA_TYPE_L16,
};
use michoi::agent_server::{
    accept_audio, accept_events, accept_video, api_info, authorized, base64_encode, command,
    connection, jitter, media_base, negotiate, network_order, opening, reason, require_accept,
    require_content_type, resume_point, route, snapshot_event, snapshot_response, sse_message,
    talk_done, talk_read_size, talk_upload, talk_websocket, upgrade_head, video_part,
    websocket_key, EventText, Routed, ServerConfig, Step, TalkBuffer, TalkEnd, TalkPlan,
    TalkReply, TalkSlot,
    OPENAPI_YAML, PAD_HTML,
};
use michoi::http::{
    head_progress, read_chunk_size, write_chunk, write_last_chunk, BodyError, BodyPlan,
    ChunkReader, ChunkStage, HeadError, Progress, Request, Response,
};
use michoi::negotiation::quality_texts;
use michoi::state::{CallPhase, Owner};
use michoi::time::Duration;

/// How the qualities in an `Accept` field rank.
fn ranks(accept: &str) -> Vec<u32> {
    quality_texts(accept)
        .into_iter()
        .map(|q| {
            let q: f32 = match q {
                Some(text) => text.parse().unwrap_or(0.0),
                None => 1.0,
            };
            if q > 0.0 {
                q.to_bits()
            } else {
                0
            }
        })
        .collect()
}

fn pick<'a>(accept: Option<&str>, offered: &[&'a str]) -> Option<&'a str> {
    negotiate(accept, &ranks(accept.unwrap_or("")), offered)
}

#[test]
fn negotiation_honours_q_and_wildcards() {
    assert_eq!(
        pick(Some("application/json"), &[MEDIA_TYPE_JSON]),
        Some(MEDIA_TYPE_JSON)
    );
    assert_eq!(
        pick(Some("application/json; v=1"), &[MEDIA_TYPE_JSON]),
        Some(MEDIA_TYPE_JSON)
    );
    assert_eq!(
        pick(Some("*/*"), &[MEDIA_TYPE_JSON]),
        Some(MEDIA_TYPE_JSON)
    );
    assert_eq!(
        pick(
            Some("text/*, application/json;q=0.5"),
            &[MEDIA_TYPE_JSON, MEDIA_TYPE_EVENTS]
        ),
        Some(MEDIA_TYPE_EVENTS)
    );
    assert_eq!(
        pick(Some("application/cbor"), &[MEDIA_TYPE_JSON]),
        None
    );
    assert_eq!(pick(None, &[MEDIA_TYPE_JSON]), None);
    assert_eq!(
        pick(Some("application/json;q=0"), &[MEDIA_TYPE_JSON]),
        None
    );
}

#[test]
fn negotiation_prefers_the_first_among_equals() {
    let offered = [MEDIA_TYPE_JSON, MEDIA_TYPE_EVENTS, MEDIA_TYPE_JPEG];
    assert_eq!(pick(Some("image/jpeg, text/event-stream"), &offered), Some(MEDIA_TYPE_JPEG));
    assert_eq!(
        pick(Some("image/jpeg;q=0.2, TEXT/Event-Stream ;x=1; Q=0.9 ,*/*;q=0.1"), &offered),
        Some(MEDIA_TYPE_EVENTS)
    );
    // The last quality counts, and one that is no number makes an item unacceptable.
    assert_eq!(pick(Some("image/jpeg;q=1;q=soon, */*;q=0.5"), &offered), Some(MEDIA_TYPE_JSON));
    assert_eq!(pick(Some(" , ;q=1"), &offered), None);
    assert_eq!(RANK_OF_ONE, 1.0_f32.to_bits());
}

const RANK_OF_ONE: u32 = michoi::negotiation::RANK_ONE;

fn request(method: &str, path: &str, headers: &[(&str, &str)]) -> Request {
    let accept = headers
        .iter()
        .find(|(k, _)| *k == "accept")
        .map(|(_, v)| *v)
        .unwrap_or("");
    Request {
        method: method.into(),
        path: path.into(),
        query: String::new(),
        headers: headers.iter().map(|(k, v)| (k.to_string(), v.to_string())).collect(),
        body: Vec::new(),
        keep_alive: true,
        ranks: ranks(accept),
    }
}

#[test]
fn content_type_matches_ignoring_parameters() {
    let request = Request {
        method: "POST".into(),
        path: "/v1/call/claim".into(),
        query: String::new(),
        headers: vec![(
            "content-type".into(),
            "application/json; charset=utf-8".into(),
        )],
        body: Vec::new(),
        keep_alive: true,
        ranks: Vec::new(),
    };
    assert!(require_content_type(&request, MEDIA_TYPE_JSON).is_ok());
    let request = Request {
        headers: vec![("content-type".into(), "text/plain".into())],
        ..request
    };
    assert_eq!(
        require_content_type(&request, MEDIA_TYPE_JSON)
            .unwrap_err()
            .status,
        415
    );
}

#[test]
fn openapi_document_is_embedded() {
    assert!(OPENAPI_YAML.starts_with("openapi: 3.1.0"));
    assert!(OPENAPI_YAML.contains("/v1/events"));
}

#[test]
fn a_refusal_lists_what_is_supported() {
    let refused = require_accept(&request("GET", "/", &[]), &[MEDIA_TYPE_JSON, MEDIA_TYPE_L16])
        .unwrap_err();
    assert_eq!(refused.status, 406);
    assert_eq!(
        String::from_utf8(refused.body).unwrap(),
        "{\"error\":\"not_acceptable\",\"supported\":[\"application/json; v=1\",\"audio/L16; rate=8000; channels=1\"]}"
    );
    let odd = Response::error(400, "bad", "a \"quote\", a \\, a tab\t, a bell \u{7} and ü");
    let value: serde_json::Value = serde_json::from_slice(&odd.body).unwrap();
    assert_eq!(value["message"], "a \"quote\", a \\, a tab\t, a bell \u{7} and ü");
    assert_eq!(
        String::from_utf8(odd.body).unwrap(),
        "{\"error\":\"bad\",\"message\":\"a \\\"quote\\\", a \\\\, a tab\\t, a bell \\u0007 and ü\"}"
    );
    assert_eq!(media_base(" Text/HTML ; charset=utf-8"), "text/html");
}

#[test]
fn a_token_comes_in_the_header_or_in_the_query() {
    let token = Some("secret");
    assert!(authorized(&request("GET", "/", &[]), None));
    assert!(!authorized(&request("GET", "/", &[]), token));
    assert!(authorized(&request("GET", "/", &[("authorization", "Bearer secret")]), token));
    assert!(authorized(&request("GET", "/", &[("Authorization", "bearer  secret ")]), token));
    assert!(!authorized(&request("GET", "/", &[("authorization", "Basic secret")]), token));
    assert!(!authorized(&request("GET", "/", &[("authorization", "Bearer other")]), token));
    let mut asked = request("GET", "/", &[]);
    asked.query = "a=1&token=secret".into();
    assert!(authorized(&asked, token));
    asked.query = "token=secret%3D".into();
    assert_eq!(asked.query_param("token").as_deref(), Some("secret="));
    asked.query = "q=a%2Bb+c".into();
    assert_eq!(asked.query_param("q").as_deref(), Some("a+b c"));
    assert_eq!(asked.query_param("token"), None);
    asked.query = "token=a%2Bb&token=c".into();
    assert_eq!(asked.query_param("token").as_deref(), Some("a+b"));
    assert!(authorized(&asked, Some("a+b")));
    assert!(!authorized(&asked, Some("a b")));
}

fn config(token: Option<&str>) -> ServerConfig {
    ServerConfig { token: token.map(|t| t.to_string()), ..ServerConfig::default() }
}

#[test]
fn nothing_but_the_documents_goes_without_the_token() {
    let config = config(Some("secret"));
    for path in ["/v1/state", "/v1/events", "/v1/talk", "/other"] {
        match connection(&request("GET", path, &[]), &config) {
            Step::Refuse(response) => {
                assert_eq!(response.status, 401);
                assert_eq!(response.headers[1], ("WWW-Authenticate".into(), "Bearer".into()));
            }
            _ => panic!("not refused"),
        }
    }
    for path in ["/openapi.yaml", "/swagger", "/", "/pad"] {
        assert!(matches!(connection(&request("GET", path, &[]), &config), Step::Plain));
    }
}

#[test]
fn streams_have_their_own_way() {
    let config = config(None);
    let step = |method: &str, path: &str| connection(&request(method, path, &[]), &config);
    assert!(matches!(step("GET", "/v1/events"), Step::Events));
    assert!(matches!(step("POST", "/v1/talk"), Step::Talk));
    assert!(matches!(step("GET", "/v1/stream.mjpeg"), Step::Video));
    assert!(matches!(step("GET", "/v1/audio.pcm"), Step::Audio));
    assert!(matches!(step("GET", "/v1/talk.ws"), Step::TalkSocket));
    assert!(matches!(step("POST", "/v1/events"), Step::Plain));
    assert!(matches!(step("GET", "/v1/state"), Step::Plain));
}

fn reply(routed: Routed) -> Response {
    match routed {
        Routed::Reply(response) => response,
        _ => panic!("no reply"),
    }
}

#[test]
fn requests_find_their_route() {
    let config = config(None);
    let json = [("accept", "application/json")];
    let go = |method: &str, path: &str| route(&request(method, path, &json), &config);
    assert!(matches!(go("GET", "/v1"), Routed::Info));
    assert!(matches!(go("GET", "/v1/"), Routed::Info));
    assert!(matches!(go("GET", "/v1/state"), Routed::State));
    assert!(matches!(go("GET", "/v1/media"), Routed::Media));
    assert_eq!(reply(go("GET", "/v1/snapshot.jpg")).status, 406);
    assert_eq!(reply(go("POST", "/v1/call/claim")).status, 415);
    let both = [("accept", "*/*"), ("content-type", "application/json")];
    let post = |path: &str| route(&request("POST", path, &both), &config);
    assert!(matches!(post("/v1/call/claim"), Routed::Command(CallAction::Claim)));
    assert!(matches!(post("/v1/call/unlock"), Routed::Command(CallAction::Unlock)));
    assert!(matches!(post("/v1/call/hangup"), Routed::Command(CallAction::Hangup)));
    assert!(matches!(
        route(&request("GET", "/v1/snapshot.jpg", &both), &config),
        Routed::Snapshot
    ));
    let bare = route(&request("GET", "/v1/state", &[]), &config);
    assert_eq!(reply(bare).status, 406);
    assert_eq!(reply(go("GET", "/v1/events")).status, 500);
    let lost = reply(go("GET", "/v1/nowhere"));
    assert_eq!(lost.status, 404);
    assert!(String::from_utf8(lost.body).unwrap().contains("no route for /v1/nowhere"));
    assert!(String::from_utf8(reply(go("GET", "/x")).body).unwrap().contains("unknown path"));
}

#[test]
fn pages_are_served_where_they_are_switched_on() {
    let mut config = config(None);
    let page = reply(route(&request("GET", "/pad", &[]), &config));
    assert_eq!(page.status, 200);
    assert_eq!(page.body, PAD_HTML.as_bytes());
    for path in ["/v1/events", "/v1/stream.mjpeg", "/v1/audio.pcm", "/v1/talk.ws", "/v1/call/"] {
        assert!(PAD_HTML.contains(path));
    }
    assert_eq!(reply(route(&request("GET", "/swagger", &[]), &config)).status, 404);
    config.swagger = true;
    assert_eq!(reply(route(&request("GET", "/swagger", &[]), &config)).status, 200);
    config.web_ui = false;
    assert_eq!(reply(route(&request("GET", "/", &[]), &config)).status, 404);
    let yaml = reply(route(&request("GET", "/openapi.yaml", &[]), &config));
    assert_eq!(yaml.headers[0].1, "application/yaml");
}

#[test]
fn a_head_is_read() {
    let head = b"POST /v1/talk?token=a HTTP/1.0\r\nHost:  x \r\nno colon\r\nX-Two: a:b\r\nConnection: Keep-Alive\r\n\r\n";
    let request = Request::parse(head).unwrap();
    assert_eq!(request.method, "POST");
    assert_eq!(request.path, "/v1/talk");
    assert_eq!(request.query, "token=a");
    assert_eq!(request.header("HOST"), Some("x"));
    assert_eq!(request.header("x-two"), Some("a:b"));
    assert_eq!(request.headers.len(), 3);
    assert!(request.keep_alive);
    let plain = Request::parse(b"GET /\r\n\r\n").unwrap();
    assert!(plain.keep_alive);
    let old = Request::parse(b"GET / HTTP/1.0\r\n\r\n").unwrap();
    assert!(!old.keep_alive);
    let closed = Request::parse(b"GET / HTTP/1.1\r\nConnection: CLOSE\r\n\r\n").unwrap();
    assert!(!closed.keep_alive);
    assert_eq!(Request::parse(b"\r\n\r\n").unwrap_err(), HeadError::Method);
    assert_eq!(Request::parse(b"GET\r\n\r\n").unwrap_err(), HeadError::Target);
}

#[test]
fn a_head_ends_with_an_empty_line() {
    assert_eq!(head_progress(b"GET / HTTP/1.1\r\n"), Progress::More);
    assert_eq!(head_progress(b"GET / HTTP/1.1\r\n\r\n"), Progress::Complete);
    assert_eq!(head_progress(&vec![b'x'; 16_384]), Progress::More);
    assert_eq!(head_progress(&vec![b'x'; 16_385]), Progress::TooLong);
}

#[test]
fn a_body_is_framed() {
    let plan = |path: &str, headers: &[(&str, &str)]| request("POST", path, headers).body_plan();
    assert_eq!(plan("/", &[]), Ok(BodyPlan::Nothing));
    assert_eq!(plan("/", &[("content-length", "12")]), Ok(BodyPlan::Bytes(12)));
    assert_eq!(plan("/", &[("content-length", "1048577")]), Err(BodyError::TooLarge));
    assert_eq!(plan("/", &[("content-length", "-1")]), Err(BodyError::Length));
    assert_eq!(plan("/", &[("transfer-encoding", "gzip, Chunked")]), Ok(BodyPlan::Chunked));
    assert_eq!(plan("/v1/talk", &[("content-length", "12")]), Ok(BodyPlan::Nothing));
    assert!(request("POST", "/", &[("expect", "100-Continue")]).wants_continue());
    assert!(!request("POST", "/", &[]).wants_continue());
}

fn feed(reader: &mut ChunkReader, bytes: &[u8]) -> Result<(), BodyError> {
    for b in bytes {
        reader.feed(*b)?;
    }
    Ok(())
}

#[test]
fn what_is_written_in_chunks_is_read_back() {
    let mut wire = write_chunk(b"hello ");
    assert_eq!(wire, b"6\r\nhello \r\n");
    wire.extend(write_chunk(&[7; 300]));
    wire.extend(write_last_chunk());
    let mut reader = ChunkReader::new(1000);
    feed(&mut reader, &wire).unwrap();
    assert_eq!(reader.stage(), ChunkStage::Done);
    assert_eq!(reader.take(), [b"hello ".as_slice(), &[7; 300]].concat());
}

#[test]
fn a_chunked_body_is_checked() {
    assert_eq!(feed(&mut ChunkReader::new(5), b"6\r\n"), Err(BodyError::TooLarge));
    assert_eq!(feed(&mut ChunkReader::new(5), b"x\r\n"), Err(BodyError::ChunkSize));
    assert_eq!(feed(&mut ChunkReader::new(5), &[b'1'; 1025]), Err(BodyError::LineTooLong));
    let mut reader = ChunkReader::new(100);
    feed(&mut reader, b" 3 ; ext=1\r\nabc\r\n0\r\nTrailer: x\r\n\r\n").unwrap();
    assert_eq!(reader.stage(), ChunkStage::Done);
    assert_eq!(reader.take(), b"abc");
    // A stream reads no more than its cap of one chunk.
    let mut reader = ChunkReader::streaming(2);
    feed(&mut reader, b"4\r\nab\r\n").unwrap();
    assert_eq!(reader.take(), b"ab");
    assert_eq!(reader.stage(), ChunkStage::Size);
    assert_eq!(read_chunk_size("ff;x"), Some(255));
    assert_eq!(read_chunk_size(""), None);
}

#[test]
fn a_response_is_written() {
    let response = Response::new(404, "text/plain", b"gone".to_vec()).header("X-A", "b");
    assert_eq!(
        String::from_utf8(response.to_bytes(true)).unwrap(),
        "HTTP/1.1 404 Not Found\r\nContent-Type: text/plain\r\nX-A: b\r\nContent-Length: 4\r\nConnection: keep-alive\r\n\r\ngone"
    );
    assert!(response.to_bytes(false).ends_with(b"Connection: close\r\n\r\ngone"));
    assert_eq!(Response::json(200, None).body, b"{}");
    assert_eq!(reason(415), "Unsupported Media Type");
    assert_eq!(reason(299), "Unknown");
}

#[test]
fn a_command_needs_an_id() {
    let id = |text: &str| command(Ok(CommandRequest { command_id: text.into() }));
    assert_eq!(id("c1").unwrap(), "c1");
    assert_eq!(id(&"x".repeat(128)).unwrap().len(), 128);
    assert_eq!(id("").unwrap_err().status, 400);
    assert_eq!(id(&"x".repeat(129)).unwrap_err().status, 400);
    // The limit counts bytes.
    assert_eq!(id(&"ü".repeat(65)).unwrap_err().status, 400);
    let bad = command(Err("EOF".into())).unwrap_err();
    assert!(String::from_utf8(bad.body).unwrap().contains("invalid body: EOF"));
}

#[test]
fn the_api_is_described() {
    let info = api_info("michoi-pad".into());
    assert_eq!(info.api_version, "1");
    assert_eq!(info.media_types[1], "text/event-stream");
    assert_eq!(info.capabilities.len(), 7);
}

#[test]
fn a_snapshot_says_how_old_it_is() {
    let frame = VideoFrame { pts_us: 1_000_000, jpeg: vec![1, 2] };
    let response = snapshot_response(Some(frame), 3_500_999);
    assert_eq!(response.headers[2], ("X-Frame-Age-Ms".into(), "2500".into()));
    assert_eq!(response.body, vec![1, 2]);
    let early = snapshot_response(Some(VideoFrame { pts_us: 9, jpeg: vec![] }), 3);
    assert_eq!(early.headers[2].1, "0");
    assert_eq!(snapshot_response(None, 0).status, 404);
}

#[test]
fn an_event_stream_begins_where_the_client_left_off() {
    assert_eq!(sse_message(7, "unlocked", "{}"), "id: 7\nevent: unlocked\ndata: {}\n\n");
    let missed = vec![EventText { seq: 4, name: "a".into(), data: "x".into() }];
    assert_eq!(
        opening(Some(missed), "ignored"),
        "id: 4\nevent: a\ndata: x\n\nretry: 1000\n\n"
    );
    assert_eq!(opening(Some(vec![]), ""), ": resumed\n\nretry: 1000\n\n");
    assert_eq!(opening(None, "s"), "id: 0\nevent: snapshot\ndata: s\n\nretry: 1000\n\n");
    assert_eq!(resume_point(&request("GET", "/", &[("last-event-id", " 12 ")])), Some(12));
    assert_eq!(resume_point(&request("GET", "/", &[("last-event-id", "x")])), None);
    assert_eq!(resume_point(&request("GET", "/", &[])), None);
    let state = CallState {
        phase: CallPhase::Idle,
        owner: Owner::Nobody,
        session_id: None,
        door_id: None,
        room_id: None,
        since_ms: None,
        agent_id: "a".into(),
        connected: true,
        uptime_ms: 5,
    };
    let event = snapshot_event(3, state);
    assert_eq!((event.seq, event.at_ms), (0, 3));
    assert!(matches!(event.kind, EventKind::Snapshot { .. }));
}

#[test]
fn streams_check_what_is_accepted() {
    let ask = |accept: &str| request("GET", "/", &[("accept", accept)]);
    assert!(accept_events(&ask("text/event-stream")).is_ok());
    assert_eq!(accept_events(&ask("image/*")).unwrap_err().status, 406);
    assert!(accept_video(&ask("image/*")).is_ok());
    assert!(accept_video(&ask("multipart/x-mixed-replace")).is_ok());
    assert_eq!(accept_video(&ask("text/html")).unwrap_err().status, 406);
    assert!(accept_audio(&ask("audio/L16")).is_ok());
    assert_eq!(accept_audio(&ask("text/html")).unwrap_err().status, 406);
}

#[test]
fn jitter_stays_in_its_range() {
    let range = (Duration::from_secs(300), Duration::from_secs(600));
    for seed in 0..1000 {
        let d = jitter(range, seed);
        assert!(range.0.nanos <= d.nanos && d.nanos < range.1.nanos);
    }
    assert_ne!(jitter(range, 1), jitter(range, 2));
    let fixed = (Duration::from_secs(5), Duration::from_secs(5));
    assert_eq!(jitter(fixed, 77), Duration::from_secs(5));
    let backwards = (Duration::from_secs(9), Duration::from_secs(5));
    assert_eq!(jitter(backwards, 77), Duration::from_secs(9));
    // A seed that cancels the constant gives the lower end.
    assert_eq!(jitter(range, 0x9e37_79b9_7f4a_7c15), range.0);
}

#[test]
fn media_is_framed_for_the_browser() {
    assert_eq!(
        video_part(&[1, 2, 3], 42),
        b"--frame\r\nContent-Type: image/jpeg\r\nContent-Length: 3\r\nX-Pts-Us: 42\r\n\r\n\x01\x02\x03\r\n"
    );
    assert_eq!(network_order(&[1, 2, 3, 4, 5]), vec![2, 1, 4, 3, 5]);
    assert_eq!(network_order(&network_order(&[1, 2, 3, 4, 5])), vec![1, 2, 3, 4, 5]);
}

#[test]
fn one_client_talks_at_a_time() {
    let mut slot = TalkSlot::new();
    assert!(slot.take().is_ok());
    let busy = slot.take().unwrap_err();
    assert_eq!(busy.status, 409);
    assert!(String::from_utf8(busy.body).unwrap().contains("talk_busy"));
    slot.release();
    assert!(slot.take().is_ok());
}

#[test]
fn talk_is_collected_into_frames() {
    let mut buffer = TalkBuffer::new();
    assert!(buffer.push(&[1; 500]).is_empty());
    let frames = buffer.push(&[2; 600]);
    assert_eq!(frames.len(), 2);
    assert_eq!(frames[0], [vec![1; 500], vec![2; 12]].concat());
    assert_eq!(frames[1], vec![2; 512]);
    assert_eq!(buffer.push(&[3; 436]), vec![[vec![2; 76], vec![3; 436]].concat()]);
    assert_eq!(talk_read_size(10), 10);
    assert_eq!(talk_read_size(10_000), 4096);
    assert_eq!(talk_done().status, 204);
}

#[test]
fn a_talk_upload_is_framed() {
    let l16 = ("content-type", "audio/l16");
    let plan = |headers: &[(&str, &str)]| talk_upload(&request("POST", "/v1/talk", headers));
    assert!(matches!(plan(&[]), TalkPlan::Refuse(_)));
    assert!(matches!(plan(&[l16]), TalkPlan::Fail(BodyError::Unframed)));
    assert!(matches!(plan(&[l16, ("content-length", "9")]), TalkPlan::Bytes(9)));
    assert!(matches!(plan(&[l16, ("content-length", "a")]), TalkPlan::Fail(BodyError::Length)));
    let both = [l16, ("content-length", "9"), ("transfer-encoding", "chunked")];
    assert!(matches!(plan(&both), TalkPlan::Chunked));
}

#[test]
fn base64_has_known_values() {
    assert_eq!(base64_encode(b""), "");
    assert_eq!(base64_encode(b"f"), "Zg==");
    assert_eq!(base64_encode(b"fo"), "Zm8=");
    assert_eq!(base64_encode(b"foo"), "Zm9v");
    assert_eq!(base64_encode(b"foobar"), "Zm9vYmFy");
    assert_eq!(base64_encode(&[0xfb, 0xff, 0xfe]), "+//+");
}

#[test]
fn a_websocket_is_agreed_to() {
    // The example of RFC 6455.
    let head = talk_websocket("dGhlIHNhbXBsZSBub25jZQ==");
    assert!(head.starts_with("HTTP/1.1 101 Switching Protocols\r\n"));
    assert!(head.ends_with("Sec-WebSocket-Accept: s3pPLMBiTxaQ9kYGzzhZRbK+xOo=\r\n\r\n"));
    assert!(upgrade_head(b"foo").contains("Accept: Zm9v\r\n"));
    let key = [("sec-websocket-key", " k "), ("upgrade", "WebSocket")];
    assert_eq!(websocket_key(&request("GET", "/v1/talk.ws", &key)).unwrap(), "k");
    assert_eq!(websocket_key(&request("GET", "/v1/talk.ws", &key[..1])).unwrap_err().status, 400);
    assert_eq!(websocket_key(&request("GET", "/v1/talk.ws", &key[1..])).unwrap_err().status, 400);
}

#[test]
fn a_second_talk_is_refused_until_the_first_ends() {
    let upload = request("POST", "/v1/talk", &[("content-type", "audio/L16"), ("content-length", "512")]);
    let socket = request(
        "GET",
        "/v1/talk.ws",
        &[("upgrade", "websocket"), ("sec-websocket-key", " abc ")],
    );
    let unframed = request("POST", "/v1/talk", &[("content-type", "audio/L16")]);
    let mut slot = TalkSlot::new();
    for end in [TalkEnd::Complete, TalkEnd::Rejected(CallError::NoCall), TalkEnd::Broken] {
        assert!(matches!(slot.begin_upload(&upload), TalkPlan::Bytes(512)));
        for _ in 0..2 {
            match slot.begin_upload(&upload) {
                TalkPlan::Refuse(busy) => {
                    assert_eq!(busy.status, 409);
                    assert!(String::from_utf8(busy.body).unwrap().contains("talk_busy"));
                }
                _ => panic!("two at a time"),
            }
            assert_eq!(slot.begin_websocket(&socket).unwrap_err().status, 409);
        }
        match (slot.end_talk(end), end) {
            (TalkReply::Done, TalkEnd::Complete) => {}
            (TalkReply::Rejected(result), TalkEnd::Rejected(error)) => {
                assert_eq!(result.command_id, "talk");
                assert_eq!(result.error, Some(error));
            }
            (TalkReply::Closed, TalkEnd::Broken) => {}
            _ => panic!("wrong reply"),
        }
    }
    // What cannot be read does not take the slot.
    assert!(matches!(slot.begin_upload(&unframed), TalkPlan::Fail(_)));
    assert_eq!(slot.begin_websocket(&upload).unwrap_err().status, 400);
    assert!(!slot.busy);
    assert_eq!(slot.begin_websocket(&socket).unwrap(), "abc");
    assert!(slot.busy);
}
