//! The control plane of an Agent: who may ask, where a request goes and what is answered.

use vstd::prelude::*;
use vstd::utf8;
use crate::agent_api::{
    ApiInfo, CallAction, CallError, CallState, CommandRequest, CommandResult, Event, EventKind,
    EventView, KindView, ResultView, VideoFrame, API_VERSION, MEDIA_TYPE_EVENTS, MEDIA_TYPE_JPEG,
    MEDIA_TYPE_JSON, MEDIA_TYPE_L16,
};
use crate::assets::SWAGGER_HTML;
use crate::bytes;
use crate::digest;
use crate::http;
use crate::http::{BodyError, Request, RequestView, Response, ResponseView};
use crate::json;
use crate::negotiation;
use crate::net::{Ipv4Addr, SocketAddr};
use crate::text;
use crate::time::Duration;

pub use crate::assets::{OPENAPI_YAML, PAD_HTML};
pub use crate::http::reason;
pub use crate::negotiation::{
    authorized, media_base, negotiate, require_accept, require_content_type,
};

verus! {

pub const MEDIA_TYPE_MJPEG: &'static str = "multipart/x-mixed-replace; boundary=frame";

/// Seconds between two signs of life on an event stream.
pub const HEARTBEAT_SECS: u64 = 15;

/// Seconds that a connection may stay silent inside a request head.
pub const IDLE_TIMEOUT_SECS: u64 = 60;

#[derive(Debug)]
pub struct ServerConfig {
    pub listen: SocketAddr,
    /// The token that requests present; `None` for none at all.
    pub token: Option<String>,
    /// Whether the page that shows the API is served.
    pub swagger: bool,
    /// Whether the browser Pad is served.
    pub web_ui: bool,
    /// How long an event stream stays open: at least and at most.
    pub event_stream_lifetime: (Duration, Duration),
}

impl Default for ServerConfig {
    fn default() -> (r: Self)
        ensures
            r.listen == (SocketAddr::V4 {
                ip: (Ipv4Addr { a: 127, b: 0, c: 0, d: 1 }),
                port: 8080,
            }),
            r.token is None,
            !r.swagger,
            r.web_ui,
            r.event_stream_lifetime.0.nanos == 300_000_000_000,
            r.event_stream_lifetime.1.nanos == 600_000_000_000,
    {
        ServerConfig {
            listen: SocketAddr::V4 { ip: Ipv4Addr::new(127, 0, 0, 1), port: 8080 },
            token: None,
            swagger: false,
            web_ui: true,
            event_stream_lifetime: (Duration::from_secs(300), Duration::from_secs(600)),
        }
    }
}

/// Whether a path is served without the token.
pub open spec fn is_public(path: Seq<char>) -> bool {
    path == "/openapi.yaml"@ || path == "/swagger"@ || path == "/"@ || path == "/pad"@
}

/// The response to a request without the token.
pub open spec fn unauthorized() -> ResponseView {
    ResponseView::error(401, "unauthorized"@, "bearer token required"@).with_header(
        "WWW-Authenticate"@,
        "Bearer"@,
    )
}

/// What a connection does with a request.
#[derive(Debug)]
pub enum Step {
    /// The request is refused and the connection closed.
    Refuse(Response),
    Events,
    Talk,
    Video,
    Audio,
    TalkSocket,
    /// The request is answered as a whole.
    Plain,
}

/// What a connection does with a request.
pub enum StepView {
    Refuse(ResponseView),
    Events,
    Talk,
    Video,
    Audio,
    TalkSocket,
    Plain,
}

impl View for Step {
    type V = StepView;

    open spec fn view(&self) -> StepView {
        match self {
            Step::Refuse(response) => StepView::Refuse(response@),
            Step::Events => StepView::Events,
            Step::Talk => StepView::Talk,
            Step::Video => StepView::Video,
            Step::Audio => StepView::Audio,
            Step::TalkSocket => StepView::TalkSocket,
            Step::Plain => StepView::Plain,
        }
    }
}

/// Whether a request has this method and path.
pub open spec fn asks(q: RequestView, method: Seq<char>, path: Seq<char>) -> bool {
    q.method == method && q.path == path
}

fn is_asking(request: &Request, method: &str, path: &str) -> (r: bool)
    ensures
        r == asks(request@, method@, path@),
{
    text::same_text(request.method.as_str(), method) && text::same_text(
        request.path.as_str(),
        path,
    )
}

/// What a connection does with a request.
pub open spec fn step_for(q: RequestView, token: Option<Seq<char>>) -> StepView {
    if !is_public(q.path) && !negotiation::is_authorized(q, token) {
        StepView::Refuse(unauthorized())
    } else if asks(q, "GET"@, "/v1/events"@) {
        StepView::Events
    } else if asks(q, "POST"@, "/v1/talk"@) {
        StepView::Talk
    } else if asks(q, "GET"@, "/v1/stream.mjpeg"@) {
        StepView::Video
    } else if asks(q, "GET"@, "/v1/audio.pcm"@) {
        StepView::Audio
    } else if asks(q, "GET"@, "/v1/talk.ws"@) {
        StepView::TalkSocket
    } else {
        StepView::Plain
    }
}

fn public_path(path: &str) -> (r: bool)
    ensures
        r == is_public(path@),
{
    text::same_text(path, "/openapi.yaml") || text::same_text(path, "/swagger")
        || text::same_text(path, "/") || text::same_text(path, "/pad")
}

fn token_of(config: &ServerConfig) -> (r: Option<&str>)
    ensures
        match r {
            Some(t) => text::text_view(config.token) == Some(t@),
            None => config.token is None,
        },
{
    match &config.token {
        Some(token) => Some(token.as_str()),
        None => None,
    }
}

/// What a connection does with a request.
pub fn connection(request: &Request, config: &ServerConfig) -> (r: Step)
    ensures
        r@ == step_for(request@, text::text_view(config.token)),
{
    if !public_path(request.path.as_str()) && !authorized(request, token_of(config)) {
        return Step::Refuse(
            Response::error(401, "unauthorized", "bearer token required").header(
                "WWW-Authenticate",
                "Bearer",
            ),
        );
    }
    if is_asking(request, "GET", "/v1/events") {
        Step::Events
    } else if is_asking(request, "POST", "/v1/talk") {
        Step::Talk
    } else if is_asking(request, "GET", "/v1/stream.mjpeg") {
        Step::Video
    } else if is_asking(request, "GET", "/v1/audio.pcm") {
        Step::Audio
    } else if is_asking(request, "GET", "/v1/talk.ws") {
        Step::TalkSocket
    } else {
        Step::Plain
    }
}

/// What answers a request that is answered as a whole.
#[derive(Debug)]
pub enum Routed {
    /// This response.
    Reply(Response),
    /// The description of the Agent.
    Info,
    /// The state of the call.
    State,
    /// The media that the Agent offers.
    Media,
    /// The latest frame.
    Snapshot,
    /// A command, once its body has been read.
    Command(CallAction),
}

/// What answers a request that is answered as a whole.
pub enum RoutedView {
    Reply(ResponseView),
    Info,
    State,
    Media,
    Snapshot,
    Command(CallAction),
}

impl View for Routed {
    type V = RoutedView;

    open spec fn view(&self) -> RoutedView {
        match self {
            Routed::Reply(response) => RoutedView::Reply(response@),
            Routed::Info => RoutedView::Info,
            Routed::State => RoutedView::State,
            Routed::Media => RoutedView::Media,
            Routed::Snapshot => RoutedView::Snapshot,
            Routed::Command(action) => RoutedView::Command(*action),
        }
    }
}

/// Whether the client accepts this one type.
pub open spec fn accepts(q: RequestView, offer: Seq<char>) -> bool {
    negotiation::negotiated(q.header("accept"@), q.ranks, seq![offer]) is Some
}

/// Where a request for one type goes, once it is known that the client accepts it.
pub open spec fn accepted(q: RequestView, offer: Seq<char>, to: RoutedView) -> RoutedView {
    if accepts(q, offer) {
        to
    } else {
        RoutedView::Reply(negotiation::not_acceptable(seq![offer]))
    }
}

/// Where a command goes: the client must accept JSON and send JSON.
pub open spec fn command_route(q: RequestView, action: CallAction) -> RoutedView {
    if !accepts(q, MEDIA_TYPE_JSON@) {
        RoutedView::Reply(negotiation::not_acceptable(seq![MEDIA_TYPE_JSON@]))
    } else if !negotiation::has_content_type(q, MEDIA_TYPE_JSON@) {
        RoutedView::Reply(negotiation::unsupported_type(MEDIA_TYPE_JSON@))
    } else {
        RoutedView::Command(action)
    }
}

/// Whether a request belongs on a stream.
pub open spec fn is_stream(q: RequestView) -> bool {
    ||| asks(q, "GET"@, "/v1/events"@)
    ||| asks(q, "POST"@, "/v1/talk"@)
    ||| asks(q, "GET"@, "/v1/stream.mjpeg"@)
    ||| asks(q, "GET"@, "/v1/audio.pcm"@)
    ||| asks(q, "GET"@, "/v1/talk.ws"@)
}

/// A page of this type.
pub open spec fn page(content_type: Seq<char>, content: Seq<char>) -> ResponseView {
    ResponseView::plain(200, content_type, utf8::encode_utf8(content))
}

/// What answers a request that is answered as a whole.
pub open spec fn route_of(q: RequestView, swagger: bool, web_ui: bool) -> RoutedView {
    if asks(q, "GET"@, "/openapi.yaml"@) {
        RoutedView::Reply(page("application/yaml"@, OPENAPI_YAML@))
    } else if web_ui && (asks(q, "GET"@, "/"@) || asks(q, "GET"@, "/pad"@)) {
        RoutedView::Reply(
            page("text/html; charset=utf-8"@, PAD_HTML@).with_header(
                "Cache-Control"@,
                "no-cache"@,
            ),
        )
    } else if asks(q, "GET"@, "/swagger"@) {
        RoutedView::Reply(
            if swagger {
                page("text/html; charset=utf-8"@, SWAGGER_HTML@)
            } else {
                ResponseView::error(
                    404,
                    "not_found"@,
                    "Swagger UI is disabled on this server"@,
                )
            },
        )
    } else if asks(q, "GET"@, "/v1/"@) || asks(q, "GET"@, "/v1"@) {
        accepted(q, MEDIA_TYPE_JSON@, RoutedView::Info)
    } else if asks(q, "GET"@, "/v1/state"@) {
        accepted(q, MEDIA_TYPE_JSON@, RoutedView::State)
    } else if asks(q, "GET"@, "/v1/media"@) {
        accepted(q, MEDIA_TYPE_JSON@, RoutedView::Media)
    } else if asks(q, "GET"@, "/v1/snapshot.jpg"@) {
        accepted(q, MEDIA_TYPE_JPEG@, RoutedView::Snapshot)
    } else if asks(q, "POST"@, "/v1/call/claim"@) {
        command_route(q, CallAction::Claim)
    } else if asks(q, "POST"@, "/v1/call/unlock"@) {
        command_route(q, CallAction::Unlock)
    } else if asks(q, "POST"@, "/v1/call/hangup"@) {
        command_route(q, CallAction::Hangup)
    } else if is_stream(q) {
        RoutedView::Reply(
            ResponseView::error(
                500,
                "internal"@,
                "streaming route reached the plain router"@,
            ),
        )
    } else if text::text_begins(q.path, "/v1/"@) {
        RoutedView::Reply(
            ResponseView::error(404, "not_found"@, "no route for "@ + q.path),
        )
    } else {
        RoutedView::Reply(ResponseView::error(404, "not_found"@, "unknown path"@))
    }
}

fn bytes_of(content: &str) -> (r: Vec<u8>)
    ensures
        r@ == utf8::encode_utf8(content@),
{
    bytes::copy_of(content.as_bytes())
}

/// Checks that the client accepts this one type.
fn accept_one(request: &Request, offer: &str) -> (r: Result<(), Response>)
    ensures
        match r {
            Ok(()) => accepts(request@, offer@),
            Err(response) => !accepts(request@, offer@) && response@
                == negotiation::not_acceptable(seq![offer@]),
        },
{
    let offered: [&str; 1] = [offer];
    assert(json::str_views(offered@) =~= seq![offer@]);
    match require_accept(request, &offered) {
        Ok(_) => Ok(()),
        Err(response) => Err(response),
    }
}

fn route_command(request: &Request, action: CallAction) -> (r: Routed)
    ensures
        r@ == command_route(request@, action),
{
    if let Err(response) = accept_one(request, MEDIA_TYPE_JSON) {
        return Routed::Reply(response);
    }
    if let Err(response) = require_content_type(request, MEDIA_TYPE_JSON) {
        return Routed::Reply(response);
    }
    Routed::Command(action)
}

fn on_stream(request: &Request) -> (r: bool)
    ensures
        r == is_stream(request@),
{
    is_asking(request, "GET", "/v1/events") || is_asking(request, "POST", "/v1/talk")
        || is_asking(request, "GET", "/v1/stream.mjpeg") || is_asking(
        request,
        "GET",
        "/v1/audio.pcm",
    ) || is_asking(request, "GET", "/v1/talk.ws")
}

/// What answers a request that is answered as a whole.
pub fn route(request: &Request, config: &ServerConfig) -> (r: Routed)
    ensures
        r@ == route_of(request@, config.swagger, config.web_ui),
{
    if is_asking(request, "GET", "/openapi.yaml") {
        Routed::Reply(Response::new(200, "application/yaml", bytes_of(OPENAPI_YAML)))
    } else if config.web_ui && (is_asking(request, "GET", "/") || is_asking(
        request,
        "GET",
        "/pad",
    )) {
        Routed::Reply(
            Response::new(200, "text/html; charset=utf-8", bytes_of(PAD_HTML)).header(
                "Cache-Control",
                "no-cache",
            ),
        )
    } else if is_asking(request, "GET", "/swagger") {
        Routed::Reply(
            if config.swagger {
                Response::new(200, "text/html; charset=utf-8", bytes_of(SWAGGER_HTML))
            } else {
                Response::error(404, "not_found", "Swagger UI is disabled on this server")
            },
        )
    } else if is_asking(request, "GET", "/v1/") || is_asking(request, "GET", "/v1") {
        match accept_one(request, MEDIA_TYPE_JSON) {
            Ok(()) => Routed::Info,
            Err(response) => Routed::Reply(response),
        }
    } else if is_asking(request, "GET", "/v1/state") {
        match accept_one(request, MEDIA_TYPE_JSON) {
            Ok(()) => Routed::State,
            Err(response) => Routed::Reply(response),
        }
    } else if is_asking(request, "GET", "/v1/media") {
        match accept_one(request, MEDIA_TYPE_JSON) {
            Ok(()) => Routed::Media,
            Err(response) => Routed::Reply(response),
        }
    } else if is_asking(request, "GET", "/v1/snapshot.jpg") {
        match accept_one(request, MEDIA_TYPE_JPEG) {
            Ok(()) => Routed::Snapshot,
            Err(response) => Routed::Reply(response),
        }
    } else if is_asking(request, "POST", "/v1/call/claim") {
        route_command(request, CallAction::Claim)
    } else if is_asking(request, "POST", "/v1/call/unlock") {
        route_command(request, CallAction::Unlock)
    } else if is_asking(request, "POST", "/v1/call/hangup") {
        route_command(request, CallAction::Hangup)
    } else if on_stream(request) {
        Routed::Reply(
            Response::error(500, "internal", "streaming route reached the plain router"),
        )
    } else if text::chars_begin(
        &text::chars_of(request.path.as_str()),
        &text::chars_of("/v1/"),
    ) {
        let mut message = String::new();
        text::push_text(&mut message, "no route for ");
        text::push_text(&mut message, request.path.as_str());
        assert(message@ =~= "no route for "@ + request.path@);
        Routed::Reply(Response::error(404, "not_found", message.as_str()))
    } else {
        Routed::Reply(Response::error(404, "not_found", "unknown path"))
    }
}

/// The description of the Agent.
pub fn api_info(agent_id: String) -> (r: ApiInfo)
    ensures
        r.api_version@ == API_VERSION@,
        r.agent_id@ == agent_id@,
        text::text_views(r.media_types@) == seq![
            MEDIA_TYPE_JSON@,
            MEDIA_TYPE_EVENTS@,
            MEDIA_TYPE_JPEG@,
            MEDIA_TYPE_L16@,
        ],
        text::text_views(r.capabilities@) == seq![
            "events"@,
            "snapshot"@,
            "mjpeg"@,
            "pcm"@,
            "talk"@,
            "talk-ws"@,
            "pad"@,
        ],
{
    let media_types: Vec<String> = vec![
        MEDIA_TYPE_JSON.to_string(),
        MEDIA_TYPE_EVENTS.to_string(),
        MEDIA_TYPE_JPEG.to_string(),
        MEDIA_TYPE_L16.to_string(),
    ];
    let capabilities: Vec<String> = vec![
        "events".to_string(),
        "snapshot".to_string(),
        "mjpeg".to_string(),
        "pcm".to_string(),
        "talk".to_string(),
        "talk-ws".to_string(),
        "pad".to_string(),
    ];
    proof {
        assert(text::text_views(media_types@) =~= seq![
            MEDIA_TYPE_JSON@,
            MEDIA_TYPE_EVENTS@,
            MEDIA_TYPE_JPEG@,
            MEDIA_TYPE_L16@,
        ]);
        assert(text::text_views(capabilities@) =~= seq![
            "events"@,
            "snapshot"@,
            "mjpeg"@,
            "pcm"@,
            "talk"@,
            "talk-ws"@,
            "pad"@,
        ]);
    }
    ApiInfo { api_version: API_VERSION.to_string(), agent_id, media_types, capabilities }
}

/// How old a frame is, in milliseconds.
pub open spec fn age_ms(clock_us: u64, pts_us: u64) -> nat {
    if clock_us >= pts_us {
        ((clock_us - pts_us) / 1000) as nat
    } else {
        0
    }
}

/// The latest frame with its age; an error where there is none.
pub fn snapshot_response(frame: Option<VideoFrame>, clock_us: u64) -> (r: Response)
    ensures
        r@ == (match frame {
            Some(f) => ResponseView::plain(200, MEDIA_TYPE_JPEG@, f.jpeg@).with_header(
                "Cache-Control"@,
                "no-store"@,
            ).with_header("X-Frame-Age-Ms"@, text::decimal(age_ms(clock_us, f.pts_us))),
            None => ResponseView::error(404, "no_frame"@, "no door frame received yet"@),
        }),
{
    match frame {
        Some(frame) => {
            let age: u64 = if clock_us >= frame.pts_us {
                (clock_us - frame.pts_us) / 1000
            } else {
                0
            };
            let age_text = text::decimal_text(age);
            Response::new(200, MEDIA_TYPE_JPEG, frame.jpeg).header(
                "Cache-Control",
                "no-store",
            ).header("X-Frame-Age-Ms", age_text.as_str())
        },
        None => Response::error(404, "no_frame", "no door frame received yet"),
    }
}

/// Checks the body of a command, as it was read or could not be: the id to carry it out under, or
/// the response.
pub fn command(body: Result<CommandRequest, String>) -> (r: Result<String, Response>)
    ensures
        match body {
            Err(error) => r is Err && r->Err_0@ == ResponseView::error(
                400,
                "bad_request"@,
                "invalid body: "@ + error@,
            ),
            Ok(request) => {
                let size = utf8::encode_utf8(request.command_id@).len();
                match r {
                    Ok(id) => 1 <= size <= 128 && id@ == request.command_id@,
                    Err(response) => !(1 <= size <= 128) && response@ == ResponseView::error(
                        400,
                        "bad_request"@,
                        "command_id must be 1..128 characters"@,
                    ),
                }
            },
        },
{
    match body {
        Err(error) => {
            let mut message = String::new();
            text::push_text(&mut message, "invalid body: ");
            text::push_text(&mut message, error.as_str());
            assert(message@ =~= "invalid body: "@ + error@);
            Err(Response::error(400, "bad_request", message.as_str()))
        },
        Ok(request) => {
            let size: usize = request.command_id.as_str().as_bytes().len();
            if size == 0 || size > 128 {
                Err(Response::error(400, "bad_request", "command_id must be 1..128 characters"))
            } else {
                Ok(request.command_id)
            }
        },
    }
}

/// A message of an event stream.
pub open spec fn message_text(id: u64, event: Seq<char>, data: Seq<char>) -> Seq<char> {
    "id: "@ + text::decimal(id as nat) + "\nevent: "@ + event + "\ndata: "@ + data + "\n\n"@
}

/// A message of an event stream.
pub fn sse_message(id: u64, event: &str, data: &str) -> (r: String)
    ensures
        r@ == message_text(id, event@, data@),
{
    let mut out = String::new();
    text::push_text(&mut out, "id: ");
    text::push_number(&mut out, id, 10);
    text::push_text(&mut out, "\nevent: ");
    text::push_text(&mut out, event);
    text::push_text(&mut out, "\ndata: ");
    text::push_text(&mut out, data);
    text::push_text(&mut out, "\n\n");
    assert(out@ =~= message_text(id, event@, data@));
    out
}

/// The head of an event stream.
pub const EVENTS_HEAD: &'static str = "HTTP/1.1 200 OK\r\nContent-Type: text/event-stream; charset=utf-8\r\nCache-Control: no-cache\r\nTransfer-Encoding: chunked\r\nConnection: close\r\n\r\n";

/// The sign of life on an event stream.
pub const KEEP_ALIVE: &'static str = ": keep-alive\n\n";

/// The number of the last event that a client has seen.
pub open spec fn last_event_id(q: RequestView) -> Option<nat> {
    match q.header("last-event-id"@) {
        Some(v) => text::parsed_number(text::trimmed(v), 10, u64::MAX as nat),
        None => None,
    }
}

/// The number of the last event that a client has seen, where it says one.
pub fn resume_point(request: &Request) -> (r: Option<u64>)
    ensures
        match r {
            Some(n) => last_event_id(request@) == Some(n as nat),
            None => last_event_id(request@) is None,
        },
{
    match request.header("last-event-id") {
        Some(v) => text::parse_number(text::trim(&text::chars_of(v)), 10, u64::MAX),
        None => None,
    }
}

/// The event that tells a client where the call stands. It has no number of its own.
pub fn snapshot_event(at_ms: u64, state: CallState) -> (r: Event)
    ensures
        r@ == (EventView { seq: 0, at_ms, kind: KindView::Snapshot { state: state@ } }),
{
    Event { seq: 0, at_ms, kind: EventKind::Snapshot { state } }
}

/// An event that has been put into words.
#[derive(Debug)]
pub struct EventText {
    pub seq: u64,
    pub name: String,
    pub data: String,
}

/// An event that has been put into words.
pub struct EventTextView {
    pub seq: u64,
    pub name: Seq<char>,
    pub data: Seq<char>,
}

impl View for EventText {
    type V = EventTextView;

    open spec fn view(&self) -> EventTextView {
        EventTextView { seq: self.seq, name: self.name@, data: self.data@ }
    }
}

/// Events that have been put into words.
pub open spec fn event_text_views(v: Seq<EventText>) -> Seq<EventTextView> {
    v.map_values(|e: EventText| e@)
}

/// The messages of several events.
pub open spec fn messages(events: Seq<EventTextView>) -> Seq<char>
    decreases events.len(),
{
    if events.len() == 0 {
        Seq::empty()
    } else {
        messages(events.drop_last()) + message_text(
            events.last().seq,
            events.last().name,
            events.last().data,
        )
    }
}

/// How an event stream begins. A client that is resumed gets what it has missed, or a sign that
/// it has missed nothing; any other gets a snapshot.
pub open spec fn opening_text(missed: Option<Seq<EventTextView>>, snapshot: Seq<char>) -> Seq<
    char,
> {
    (match missed {
        Some(events) => if events.len() == 0 {
            ": resumed\n\n"@
        } else {
            messages(events)
        },
        None => message_text(0, "snapshot"@, snapshot),
    }) + "retry: 1000\n\n"@
}

/// How an event stream begins.
pub fn opening(missed: Option<Vec<EventText>>, snapshot: &str) -> (r: String)
    ensures
        r@ == opening_text(
            match missed {
                Some(events) => Some(event_text_views(events@)),
                None => None,
            },
            snapshot@,
        ),
{
    let mut out = String::new();
    match missed {
        Some(events) => {
            let ghost all = event_text_views(events@);
            let mut i: usize = 0;
            assert(all.take(0) =~= Seq::empty());
            assert(out@ =~= messages(all.take(0)));
            while i < events.len()
                invariant
                    i <= events@.len(),
                    all == event_text_views(events@),
                    out@ == messages(all.take(i as int)),
                decreases events@.len() - i,
            {
                proof {
                    assert(all.take(i + 1).drop_last() =~= all.take(i as int));
                    assert(all.take(i + 1).last() == events@[i as int]@);
                }
                let message = sse_message(
                    events[i].seq,
                    events[i].name.as_str(),
                    events[i].data.as_str(),
                );
                text::push_text(&mut out, message.as_str());
                i = i + 1;
            }
            assert(all.take(i as int) =~= all);
            if events.len() == 0 {
                out = String::new();
                text::push_text(&mut out, ": resumed\n\n");
                assert(out@ =~= ": resumed\n\n"@);
            }
        },
        None => {
            out = sse_message(0, "snapshot", snapshot);
        },
    }
    text::push_text(&mut out, "retry: 1000\n\n");
    out
}

/// A number that depends on all of the bits of the seed.
pub open spec fn scrambled(seed: u64) -> u64 {
    let a = seed ^ 0x9e37_79b9_7f4a_7c15;
    let b = a ^ (a << 13);
    let c = b ^ (b >> 7);
    c ^ (c << 17)
}

/// The whole milliseconds between the two ends of a range, reduced to 64 bits.
pub open spec fn span_ms(range: (Duration, Duration)) -> int {
    if range.1.nanos >= range.0.nanos {
        ((range.1.nanos - range.0.nanos) / 1_000_000) % 0x1_0000_0000_0000_0000
    } else {
        0
    }
}

/// A time in the range, spread by the seed.
pub fn jitter(range: (Duration, Duration), seed: u64) -> (r: Duration)
    ensures
        r.nanos == range.0.nanos + (if span_ms(range) == 0 {
            0
        } else {
            (scrambled(seed) as int % span_ms(range)) * 1_000_000
        }),
        range.0.nanos <= r.nanos,
        range.0.nanos <= range.1.nanos ==> r.nanos <= range.1.nanos,
{
    let span: u64 = if range.1.nanos >= range.0.nanos {
        Duration { nanos: range.1.nanos - range.0.nanos }.millis()
    } else {
        0
    };
    assert(span == span_ms(range));
    if span == 0 {
        return range.0;
    }
    let mut x: u64 = seed ^ 0x9e37_79b9_7f4a_7c15;
    x = x ^ (x << 13);
    x = x ^ (x >> 7);
    x = x ^ (x << 17);
    assert(x == scrambled(seed));
    let extra: u64 = x % span;
    assert(extra * 1_000_000 <= range.1.nanos - range.0.nanos) by {
        assert(span as int <= (range.1.nanos - range.0.nanos) / 1_000_000);
    }
    Duration { nanos: range.0.nanos + extra as u128 * 1_000_000 }
}

/// The head of a stream of frames.
pub open spec fn video_head_text() -> Seq<char> {
    "HTTP/1.1 200 OK\r\nContent-Type: "@ + MEDIA_TYPE_MJPEG@
        + "\r\nCache-Control: no-store\r\nConnection: close\r\n\r\n"@
}

/// The head of a stream of frames.
pub fn video_head() -> (r: String)
    ensures
        r@ == video_head_text(),
{
    let mut out = String::new();
    text::push_text(&mut out, "HTTP/1.1 200 OK\r\nContent-Type: ");
    text::push_text(&mut out, MEDIA_TYPE_MJPEG);
    text::push_text(
        &mut out,
        "\r\nCache-Control: no-store\r\nConnection: close\r\n\r\n",
    );
    assert(out@ =~= video_head_text());
    out
}

/// What stands before a frame in a stream of frames.
pub open spec fn part_head(len: nat, pts_us: u64) -> Seq<char> {
    "--frame\r\nContent-Type: image/jpeg\r\nContent-Length: "@ + text::decimal(len)
        + "\r\nX-Pts-Us: "@ + text::decimal(pts_us as nat) + "\r\n\r\n"@
}

/// A frame as a part of a stream of frames.
pub open spec fn part_bytes(jpeg: Seq<u8>, pts_us: u64) -> Seq<u8> {
    utf8::encode_utf8(part_head(jpeg.len(), pts_us)) + jpeg + http::crlf()
}

/// A frame as a part of a stream of frames.
pub fn video_part(jpeg: &[u8], pts_us: u64) -> (r: Vec<u8>)
    ensures
        r@ == part_bytes(jpeg@, pts_us),
{
    let mut head = String::new();
    text::push_text(&mut head, "--frame\r\nContent-Type: image/jpeg\r\nContent-Length: ");
    text::push_number(&mut head, jpeg.len() as u64, 10);
    text::push_text(&mut head, "\r\nX-Pts-Us: ");
    text::push_number(&mut head, pts_us, 10);
    text::push_text(&mut head, "\r\n\r\n");
    assert(head@ =~= part_head(jpeg@.len(), pts_us));
    let mut out = bytes_of(head.as_str());
    bytes::append_slice(&mut out, jpeg);
    let end: [u8; 2] = [13, 10];
    assert(end@ =~= http::crlf());
    bytes::append_slice(&mut out, &end);
    out
}

/// Whether the client accepts a stream of frames.
pub open spec fn accepts_video(q: RequestView) -> bool {
    negotiation::negotiated(
        q.header("accept"@),
        q.ranks,
        seq![MEDIA_TYPE_MJPEG@, MEDIA_TYPE_JPEG@],
    ) is Some
}

/// Checks that the client accepts a stream of frames.
pub fn accept_video(request: &Request) -> (r: Result<(), Response>)
    ensures
        match r {
            Ok(()) => accepts_video(request@),
            Err(response) => !accepts_video(request@) && response@
                == negotiation::not_acceptable(seq![MEDIA_TYPE_MJPEG@, MEDIA_TYPE_JPEG@]),
        },
{
    let offered: [&str; 2] = [MEDIA_TYPE_MJPEG, MEDIA_TYPE_JPEG];
    assert(json::str_views(offered@) =~= seq![MEDIA_TYPE_MJPEG@, MEDIA_TYPE_JPEG@]);
    match require_accept(request, &offered) {
        Ok(_) => Ok(()),
        Err(response) => Err(response),
    }
}

/// Checks that the client accepts the stream of events.
pub fn accept_events(request: &Request) -> (r: Result<(), Response>)
    ensures
        match r {
            Ok(()) => accepts(request@, MEDIA_TYPE_EVENTS@),
            Err(response) => !accepts(request@, MEDIA_TYPE_EVENTS@) && response@
                == negotiation::not_acceptable(seq![MEDIA_TYPE_EVENTS@]),
        },
{
    accept_one(request, MEDIA_TYPE_EVENTS)
}

/// Checks that the client accepts the stream of sound.
pub fn accept_audio(request: &Request) -> (r: Result<(), Response>)
    ensures
        match r {
            Ok(()) => accepts(request@, MEDIA_TYPE_L16@),
            Err(response) => !accepts(request@, MEDIA_TYPE_L16@) && response@
                == negotiation::not_acceptable(seq![MEDIA_TYPE_L16@]),
        },
{
    accept_one(request, MEDIA_TYPE_L16)
}

/// The head of a stream of sound.
pub open spec fn audio_head_text() -> Seq<char> {
    "HTTP/1.1 200 OK\r\nContent-Type: "@ + MEDIA_TYPE_L16@
        + "\r\nCache-Control: no-store\r\nTransfer-Encoding: chunked\r\nConnection: close\r\n\r\n"@
}

/// The head of a stream of sound.
pub fn audio_head() -> (r: String)
    ensures
        r@ == audio_head_text(),
{
    let mut out = String::new();
    text::push_text(&mut out, "HTTP/1.1 200 OK\r\nContent-Type: ");
    text::push_text(&mut out, MEDIA_TYPE_L16);
    text::push_text(
        &mut out,
        "\r\nCache-Control: no-store\r\nTransfer-Encoding: chunked\r\nConnection: close\r\n\r\n",
    );
    assert(out@ =~= audio_head_text());
    out
}

/// Samples of two bytes in the other byte order. A byte left over at the end stays.
pub open spec fn swapped(pcm: Seq<u8>) -> Seq<u8> {
    Seq::new(
        pcm.len(),
        |i: int|
            if i % 2 == 1 {
                pcm[i - 1]
            } else if i + 1 < pcm.len() {
                pcm[i + 1]
            } else {
                pcm[i]
            },
    )
}

/// Samples in network order.
pub fn network_order(pcm: &[u8]) -> (r: Vec<u8>)
    ensures
        r@ == swapped(pcm@),
{
    let mut out: Vec<u8> = Vec::new();
    let mut i: usize = 0;
    while i < pcm.len()
        invariant
            i <= pcm@.len(),
            out@.len() == i,
            forall|j: int| 0 <= j < i ==> #[trigger] out@[j] == swapped(pcm@)[j],
        decreases pcm@.len() - i,
    {
        let b: u8 = if i % 2 == 1 {
            pcm[i - 1]
        } else if i < pcm.len() - 1 {
            pcm[i + 1]
        } else {
            pcm[i]
        };
        out.push(b);
        i = i + 1;
    }
    assert(out@ =~= swapped(pcm@));
    out
}

/// Swapping the byte order twice gives back the samples.
pub proof fn law_swap_undoes_itself(pcm: Seq<u8>)
    ensures
        swapped(swapped(pcm)) == pcm,
{
    assert(swapped(swapped(pcm)) =~= pcm);
}

/// Talk-back is for one client at a time.
#[derive(Clone, Copy, Debug, PartialEq, Eq, Structural)]
pub struct TalkSlot {
    pub busy: bool,
}

impl TalkSlot {
    /// A slot that is free.
    pub fn new() -> (r: Self)
        ensures
            !r.busy,
    {
        TalkSlot { busy: false }
    }

    /// Takes the slot; the response where somebody else has it.
    pub fn take(&mut self) -> (r: Result<(), Response>)
        ensures
            final(self).busy,
            match r {
                Ok(()) => !old(self).busy,
                Err(response) => old(self).busy && response@ == talk_busy(),
            },
    {
        if self.busy {
            Err(Response::error(409, "talk_busy", "another talk-back upload is active"))
        } else {
            self.busy = true;
            Ok(())
        }
    }

    /// Gives the slot back.
    pub fn release(&mut self)
        ensures
            !final(self).busy,
    {
        self.busy = false;
    }

    /// Ends the talk of the one who has the slot and gives it back, whichever way the talk ended:
    /// what the client is told of it.
    pub fn end_talk(&mut self, end: TalkEnd) -> (r: TalkReply)
        ensures
            r@ == reply_to(end),
            *final(self) == slot_after(*old(self), TalkUse::End(end)),
    {
        self.release();
        match end {
            TalkEnd::Complete => TalkReply::Done,
            TalkEnd::Rejected(error) => TalkReply::Rejected(
                CommandResult::rejected("talk", error),
            ),
            TalkEnd::Broken => TalkReply::Closed,
        }
    }

    /// Takes the slot for an upload: how its body is to be read, or the response where it is
    /// refused. The slot is left alone where the upload cannot be read anyway.
    pub fn begin_upload(&mut self, request: &Request) -> (r: TalkPlan)
        ensures
            r@ == upload_answer(*old(self), request@),
            *final(self) == slot_after(*old(self), TalkUse::Upload(request@)),
    {
        match talk_upload(request) {
            TalkPlan::Refuse(response) => TalkPlan::Refuse(response),
            TalkPlan::Fail(e) => TalkPlan::Fail(e),
            plan => match self.take() {
                Ok(()) => plan,
                Err(response) => TalkPlan::Refuse(response),
            },
        }
    }

    /// Takes the slot for a WebSocket: the key of the client, or the response where it is refused.
    pub fn begin_websocket(&mut self, request: &Request) -> (r: Result<String, Response>)
        ensures
            match r {
                Ok(key) => websocket_answer(*old(self), request@) == Ok::<
                    Seq<char>,
                    ResponseView,
                >(key@),
                Err(response) => websocket_answer(*old(self), request@) == Err::<
                    Seq<char>,
                    ResponseView,
                >(response@),
            },
            *final(self) == slot_after(*old(self), TalkUse::WebSocket(request@)),
    {
        let key = match websocket_key(request) {
            Ok(key) => key,
            Err(response) => return Err(response),
        };
        match self.take() {
            Ok(()) => Ok(key),
            Err(response) => Err(response),
        }
    }
}

impl Default for TalkSlot {
    fn default() -> (r: Self)
        ensures
            !r.busy,
    {
        TalkSlot::new()
    }
}

/// How a talk ends.
#[derive(Clone, Copy, Debug, PartialEq, Eq, Structural)]
pub enum TalkEnd {
    /// The client has said everything.
    Complete,
    /// The Agent does not let the client talk.
    Rejected(CallError),
    /// The connection is gone.
    Broken,
}

/// What a client is told of the end of its talk.
#[derive(Debug)]
pub enum TalkReply {
    Done,
    Rejected(CommandResult),
    Closed,
}

/// What a client is told of the end of its talk.
pub enum TalkReplyView {
    Done,
    Rejected(ResultView),
    Closed,
}

impl View for TalkReply {
    type V = TalkReplyView;

    open spec fn view(&self) -> TalkReplyView {
        match self {
            TalkReply::Done => TalkReplyView::Done,
            TalkReply::Rejected(result) => TalkReplyView::Rejected(result@),
            TalkReply::Closed => TalkReplyView::Closed,
        }
    }
}

/// What a client is told of the end of its talk: nothing where the connection is gone.
pub open spec fn reply_to(end: TalkEnd) -> TalkReplyView {
    match end {
        TalkEnd::Complete => TalkReplyView::Done,
        TalkEnd::Rejected(error) => TalkReplyView::Rejected(ResultView::refused("talk"@, error)),
        TalkEnd::Broken => TalkReplyView::Closed,
    }
}

/// The response to a second client that wants to talk.
pub open spec fn talk_busy() -> ResponseView {
    ResponseView::error(409, "talk_busy"@, "another talk-back upload is active"@)
}

/// How the body of a talk upload is to be read.
#[derive(Debug)]
pub enum TalkPlan {
    /// This response, without reading it.
    Refuse(Response),
    /// The connection is closed.
    Fail(BodyError),
    Chunked,
    Bytes(usize),
}

/// How the body of a talk upload is to be read.
pub enum TalkPlanView {
    Refuse(ResponseView),
    Fail(BodyError),
    Chunked,
    Bytes(usize),
}

impl View for TalkPlan {
    type V = TalkPlanView;

    open spec fn view(&self) -> TalkPlanView {
        match self {
            TalkPlan::Refuse(response) => TalkPlanView::Refuse(response@),
            TalkPlan::Fail(e) => TalkPlanView::Fail(*e),
            TalkPlan::Chunked => TalkPlanView::Chunked,
            TalkPlan::Bytes(n) => TalkPlanView::Bytes(*n),
        }
    }
}

/// How the body of a talk upload is to be read.
pub open spec fn talk_plan_for(q: RequestView) -> TalkPlanView {
    if !negotiation::has_content_type(q, MEDIA_TYPE_L16@) {
        TalkPlanView::Refuse(negotiation::unsupported_type(MEDIA_TYPE_L16@))
    } else {
        match q.declared_length() {
            Err(e) => TalkPlanView::Fail(e),
            Ok(length) => if q.chunked() {
                TalkPlanView::Chunked
            } else {
                match length {
                    Some(n) => TalkPlanView::Bytes(n),
                    None => TalkPlanView::Fail(BodyError::Unframed),
                }
            },
        }
    }
}

/// How the body of a talk upload is to be read; one that could be read is refused while somebody
/// else has the slot.
pub open spec fn upload_answer(slot: TalkSlot, q: RequestView) -> TalkPlanView {
    match talk_plan_for(q) {
        TalkPlanView::Refuse(response) => TalkPlanView::Refuse(response),
        TalkPlanView::Fail(e) => TalkPlanView::Fail(e),
        plan => if slot.busy {
            TalkPlanView::Refuse(talk_busy())
        } else {
            plan
        },
    }
}

/// How the body of a talk upload is to be read.
pub fn talk_upload(request: &Request) -> (r: TalkPlan)
    ensures
        r@ == talk_plan_for(request@),
{
    if let Err(response) = require_content_type(request, MEDIA_TYPE_L16) {
        return TalkPlan::Refuse(response);
    }
    match request.content_length() {
        Err(e) => TalkPlan::Fail(e),
        Ok(length) => if request.is_chunked() {
            TalkPlan::Chunked
        } else {
            match length {
                Some(n) => TalkPlan::Bytes(n),
                None => TalkPlan::Fail(BodyError::Unframed),
            }
        },
    }
}

/// The most bytes of one chunk of a talk upload that are read.
pub const TALK_CHUNK: usize = 65_536;

/// How many bytes of a talk upload are read next where `left` remain.
pub fn talk_read_size(left: usize) -> (r: usize)
    ensures
        r == (if left < 4096 {
            left
        } else {
            4096
        }),
{
    if left < 4096 {
        left
    } else {
        4096
    }
}

/// The response to a talk upload that went through.
pub fn talk_done() -> (r: Response)
    ensures
        r@ == ResponseView::plain(204, MEDIA_TYPE_JSON@, Seq::empty()),
{
    Response::new(204, MEDIA_TYPE_JSON, Vec::new())
}

/// Collects talk until a frame is full.
#[derive(Debug)]
pub struct TalkBuffer {
    pending: Vec<u8>,
}

impl View for TalkBuffer {
    type V = Seq<u8>;

    closed spec fn view(&self) -> Seq<u8> {
        self.pending@
    }
}

/// How many bytes a frame of talk has.
pub const TALK_FRAME: usize = 512;

/// The full frames in what has been collected.
pub open spec fn full_frames(s: Seq<u8>) -> Seq<Seq<u8>>
    decreases s.len(),
{
    if s.len() < TALK_FRAME {
        Seq::empty()
    } else {
        seq![s.take(TALK_FRAME as int)] + full_frames(s.skip(TALK_FRAME as int))
    }
}

/// What is left behind the full frames.
pub open spec fn unfilled(s: Seq<u8>) -> Seq<u8>
    decreases s.len(),
{
    if s.len() < TALK_FRAME {
        s
    } else {
        unfilled(s.skip(TALK_FRAME as int))
    }
}

/// Frames one behind the other.
pub open spec fn joined(frames: Seq<Seq<u8>>) -> Seq<u8>
    decreases frames.len(),
{
    if frames.len() == 0 {
        Seq::empty()
    } else {
        frames[0] + joined(frames.drop_first())
    }
}

/// Nothing of what is said is lost or reordered: the full frames and what is left make up all of
/// it, each frame is full, and what is left is no frame.
pub proof fn law_talk_is_kept(s: Seq<u8>)
    ensures
        joined(full_frames(s)) + unfilled(s) == s,
        unfilled(s).len() < TALK_FRAME,
        forall|i: int|
            0 <= i < full_frames(s).len() ==> (#[trigger] full_frames(s)[i]).len() == TALK_FRAME,
    decreases s.len(),
{
    if s.len() < TALK_FRAME {
        assert(joined(full_frames(s)) + unfilled(s) =~= s);
    } else {
        let rest = s.skip(TALK_FRAME as int);
        law_talk_is_kept(rest);
        let frames = full_frames(s);
        assert(frames.drop_first() =~= full_frames(rest));
        assert(joined(frames) + unfilled(s) =~= s.take(TALK_FRAME as int) + (joined(
            full_frames(rest),
        ) + unfilled(rest)));
        assert(s.take(TALK_FRAME as int) + rest =~= s);
        assert forall|i: int| 0 <= i < frames.len() implies (#[trigger] frames[i]).len()
            == TALK_FRAME by {
            if i > 0 {
                assert(frames[i] == full_frames(rest)[i - 1]);
            }
        }
    }
}

impl TalkBuffer {
    /// Nothing has been said.
    pub fn new() -> (r: Self)
        ensures
            r@ == Seq::<u8>::empty(),
    {
        TalkBuffer { pending: Vec::new() }
    }

    /// Takes in what is said, and gives the frames that are full.
    pub fn push(&mut self, piece: &[u8]) -> (r: Vec<Vec<u8>>)
        ensures
            final(self)@ == unfilled(old(self)@ + piece@),
            r@.map_values(|f: Vec<u8>| f@) == full_frames(old(self)@ + piece@),
    {
        let ghost whole = self.pending@ + piece@;
        bytes::append_slice(&mut self.pending, piece);
        let mut out: Vec<Vec<u8>> = Vec::new();
        let mut from: usize = 0;
        let view = Ghost(|f: Vec<u8>| f@);
        proof {
            assert(whole.skip(0) =~= whole);
            assert(out@.map_values(view@) =~= Seq::empty());
            assert(out@.map_values(view@) + full_frames(whole.skip(0)) =~= full_frames(whole));
        }
        while self.pending.len() - from >= TALK_FRAME
            invariant
                from <= self.pending@.len(),
                self.pending@ == whole,
                view@ == |f: Vec<u8>| f@,
                out@.map_values(view@) + full_frames(whole.skip(from as int)) == full_frames(
                    whole,
                ),
                unfilled(whole.skip(from as int)) == unfilled(whole),
            decreases self.pending@.len() - from,
        {
            let ghost rest = whole.skip(from as int);
            let ghost before = out@.map_values(view@);
            let slice = &self.pending[from..from + TALK_FRAME];
            let frame = bytes::copy_of(slice);
            proof {
                assert(frame@ =~= rest.take(TALK_FRAME as int));
                assert(rest.skip(TALK_FRAME as int) =~= whole.skip(from + TALK_FRAME));
            }
            out.push(frame);
            proof {
                assert(out@.map_values(view@) =~= before.push(frame@));
                assert(out@.map_values(view@) + full_frames(whole.skip(from + TALK_FRAME)) =~= before
                    + full_frames(rest));
            }
            from = from + TALK_FRAME;
        }
        let end: usize = self.pending.len();
        let tail = bytes::copy_of(&self.pending[from..end]);
        proof {
            assert(tail@ =~= whole.skip(from as int));
            assert(full_frames(whole.skip(from as int)) =~= Seq::empty());
            assert(out@.map_values(view@) + Seq::<Seq<u8>>::empty() =~= out@.map_values(view@));
        }
        self.pending = tail;
        out
    }
}

impl Default for TalkBuffer {
    fn default() -> (r: Self)
        ensures
            r@ == Seq::<u8>::empty(),
    {
        TalkBuffer::new()
    }
}

/// The character of a group of six bits.
pub open spec fn base64_char(n: nat) -> char {
    if n < 26 {
        (n + 'A' as nat) as char
    } else if n < 52 {
        (n - 26 + 'a' as nat) as char
    } else if n < 62 {
        (n - 52 + '0' as nat) as char
    } else if n == 62 {
        '+'
    } else {
        '/'
    }
}

fn base64_digit(n: u32) -> (r: char)
    requires
        n < 64,
    ensures
        r == base64_char(n as nat),
{
    if n < 26 {
        (n as u8 + 65) as char
    } else if n < 52 {
        (n as u8 - 26 + 97) as char
    } else if n < 62 {
        (n as u8 - 52 + 48) as char
    } else if n == 62 {
        '+'
    } else {
        '/'
    }
}

/// Four characters for up to three bytes: the bytes as one number of 24 bits, six bits for each
/// character, and an equals sign for each that is missing.
pub open spec fn base64_group(b: Seq<u8>) -> Seq<char> {
    let n = (b[0] as nat) * 65536 + (if b.len() > 1 {
        b[1] as nat
    } else {
        0
    }) * 256 + (if b.len() > 2 {
        b[2] as nat
    } else {
        0
    });
    seq![
        base64_char(n / 262144),
        base64_char(n / 4096 % 64),
        if b.len() > 1 {
            base64_char(n / 64 % 64)
        } else {
            '='
        },
        if b.len() > 2 {
            base64_char(n % 64)
        } else {
            '='
        },
    ]
}

/// Bytes in base64 notation.
pub open spec fn base64(b: Seq<u8>) -> Seq<char>
    decreases b.len(),
{
    if b.len() == 0 {
        Seq::empty()
    } else if b.len() <= 3 {
        base64_group(b)
    } else {
        base64_group(b.take(3)) + base64(b.skip(3))
    }
}

fn push_group(out: &mut String, b: &[u8])
    requires
        1 <= b@.len() <= 3,
    ensures
        final(out)@ == old(out)@ + base64_group(b@),
{
    let ghost start = out@;
    let second: u32 = if b.len() > 1 {
        b[1] as u32
    } else {
        0
    };
    let third: u32 = if b.len() > 2 {
        b[2] as u32
    } else {
        0
    };
    let n: u32 = b[0] as u32 * 65536 + second * 256 + third;
    out.push(base64_digit(n / 262144));
    out.push(base64_digit(n / 4096 % 64));
    out.push(
        if b.len() > 1 {
            base64_digit(n / 64 % 64)
        } else {
            '='
        },
    );
    out.push(
        if b.len() > 2 {
            base64_digit(n % 64)
        } else {
            '='
        },
    );
    assert(out@ =~= start + base64_group(b@));
}

/// Bytes in base64 notation.
pub fn base64_encode(bytes: &[u8]) -> (r: String)
    ensures
        r@ == base64(bytes@),
{
    let mut out = String::new();
    let mut i: usize = 0;
    assert(bytes@.skip(0) =~= bytes@);
    assert(out@ + base64(bytes@.skip(0)) =~= base64(bytes@));
    while bytes.len() - i > 3
        invariant
            i <= bytes@.len(),
            out@ + base64(bytes@.skip(i as int)) == base64(bytes@),
        decreases bytes@.len() - i,
    {
        let ghost rest = bytes@.skip(i as int);
        let ghost before = out@;
        let group = &bytes[i..i + 3];
        proof {
            assert(group@ =~= rest.take(3));
            assert(rest.skip(3) =~= bytes@.skip(i + 3));
        }
        push_group(&mut out, group);
        assert(out@ + base64(bytes@.skip(i + 3)) =~= before + base64(rest));
        i = i + 3;
    }
    let ghost rest = bytes@.skip(i as int);
    if i < bytes.len() {
        let end: usize = bytes.len();
        let group = &bytes[i..end];
        assert(group@ =~= rest);
        push_group(&mut out, group);
    } else {
        assert(out@ + base64(rest) =~= out@);
    }
    out
}

/// The notation has four characters for every three bytes begun.
pub proof fn law_base64_length(b: Seq<u8>)
    ensures
        base64(b).len() == (b.len() + 2) / 3 * 4,
    decreases b.len(),
{
    if b.len() > 3 {
        law_base64_length(b.skip(3));
    }
}

/// What a server adds to the key of a WebSocket client.
pub const WEBSOCKET_GUID: &'static str = "258EAFA5-E914-47DA-95CA-C5AB0DC85B11";

/// Whether a request asks for a WebSocket.
pub open spec fn wants_websocket(q: RequestView) -> bool {
    q.header("sec-websocket-key"@) is Some && q.header_is("upgrade"@, "websocket"@)
}

/// The key of a WebSocket client; the response where no WebSocket is asked for.
pub fn websocket_key(request: &Request) -> (r: Result<String, Response>)
    ensures
        match r {
            Ok(key) => wants_websocket(request@) && key@ == text::trimmed(
                request@.header("sec-websocket-key"@)->0,
            ),
            Err(response) => !wants_websocket(request@) && response@ == ResponseView::error(
                400,
                "bad_request"@,
                "WebSocket upgrade expected"@,
            ),
        },
{
    if let Some(key) = request.header("sec-websocket-key") {
        if request.header_is("upgrade", "websocket") {
            return Ok(text::text_of(text::trim(&text::chars_of(key))));
        }
    }
    Err(Response::error(400, "bad_request", "WebSocket upgrade expected"))
}

/// What a request for a WebSocket gets: its key, or the response.
pub open spec fn websocket_answer(slot: TalkSlot, q: RequestView) -> Result<Seq<char>, ResponseView> {
    if !wants_websocket(q) {
        Err(ResponseView::error(400, "bad_request"@, "WebSocket upgrade expected"@))
    } else if slot.busy {
        Err(talk_busy())
    } else {
        Ok(text::trimmed(q.header("sec-websocket-key"@)->0))
    }
}

/// What can happen to the talk slot: a request to talk, in either form, or the end of the talk of
/// the one who has it.
pub enum TalkUse {
    Upload(RequestView),
    WebSocket(RequestView),
    End(TalkEnd),
}

/// Whether a request to talk is one that the slot is taken for.
pub open spec fn wants_slot(u: TalkUse) -> bool {
    match u {
        TalkUse::Upload(q) => talk_plan_for(q) is Chunked || talk_plan_for(q) is Bytes,
        TalkUse::WebSocket(q) => wants_websocket(q),
        TalkUse::End(_) => false,
    }
}

/// The slot once this has happened.
pub open spec fn slot_after(slot: TalkSlot, u: TalkUse) -> TalkSlot {
    match u {
        TalkUse::End(_) => TalkSlot { busy: false },
        _ => TalkSlot { busy: slot.busy || wants_slot(u) },
    }
}

/// The slot once all of this has happened.
pub open spec fn slot_run(slot: TalkSlot, uses: Seq<TalkUse>) -> TalkSlot
    decreases uses.len(),
{
    if uses.len() == 0 {
        slot
    } else {
        slot_after(slot_run(slot, uses.drop_last()), uses.last())
    }
}

/// Whether a request to talk is refused because somebody else talks.
pub open spec fn refused_as_busy(slot: TalkSlot, u: TalkUse) -> bool {
    match u {
        TalkUse::Upload(q) => upload_answer(slot, q) == TalkPlanView::Refuse(talk_busy()),
        TalkUse::WebSocket(q) => websocket_answer(slot, q) == Err::<Seq<char>, ResponseView>(
            talk_busy(),
        ),
        TalkUse::End(_) => false,
    }
}

/// Whether a request to talk is served.
pub open spec fn served(slot: TalkSlot, u: TalkUse) -> bool {
    match u {
        TalkUse::Upload(q) => upload_answer(slot, q) is Chunked || upload_answer(slot, q) is Bytes,
        TalkUse::WebSocket(q) => websocket_answer(slot, q) is Ok,
        TalkUse::End(_) => false,
    }
}

/// One client talks at a time. From a request that takes the slot up to the end of that talk,
/// every other request for it is refused as busy, is not served, and leaves the slot where it is.
/// Whichever way the talk ends, the next request for the slot is served and takes it.
pub proof fn law_one_talk_at_a_time(
    slot: TalkSlot,
    first: TalkUse,
    others: Seq<TalkUse>,
    next: TalkUse,
    end: TalkEnd,
)
    requires
        wants_slot(first),
        wants_slot(next),
        forall|i: int| 0 <= i < others.len() ==> !(#[trigger] others[i] is End),
    ensures
        ({
            let during = slot_run(slot_after(slot, first), others);
            let after = slot_after(during, TalkUse::End(end));
            &&& served(slot, first) <==> !slot.busy
            &&& during.busy
            &&& refused_as_busy(during, next)
            &&& !served(during, next)
            &&& slot_after(during, next) == during
            &&& served(after, next)
            &&& slot_after(after, next).busy
        }),
    decreases others.len(),
{
    if others.len() > 0 {
        let init = others.drop_last();
        assert forall|i: int| 0 <= i < init.len() implies !(#[trigger] init[i] is End) by {
            assert(!(others[i] is End));
        }
        law_one_talk_at_a_time(slot, first, init, next, end);
        assert(!(others[others.len() - 1] is End));
    }
}

/// The head with which a server agrees to a WebSocket, for this digest of the key.
pub open spec fn upgrade_text(sum: Seq<u8>) -> Seq<char> {
    "HTTP/1.1 101 Switching Protocols\r\nUpgrade: websocket\r\nConnection: Upgrade\r\nSec-WebSocket-Accept: "@
        + base64(sum) + "\r\n\r\n"@
}

/// The head with which a server agrees to a WebSocket, for this digest of the key.
pub fn upgrade_head(sum: &[u8]) -> (r: String)
    ensures
        r@ == upgrade_text(sum@),
{
    let mut out = String::new();
    text::push_text(
        &mut out,
        "HTTP/1.1 101 Switching Protocols\r\nUpgrade: websocket\r\nConnection: Upgrade\r\nSec-WebSocket-Accept: ",
    );
    text::push_text(&mut out, base64_encode(sum).as_str());
    text::push_text(&mut out, "\r\n\r\n");
    assert(out@ =~= upgrade_text(sum@));
    out
}

/// The head with which a server agrees to a WebSocket of a client with this key.
pub fn talk_websocket(key: &str) -> (r: String)
    requires
        utf8::encode_utf8(key@).len() + 36 < digest::DIGEST_LIMIT,
    ensures
        r@ == upgrade_text(digest::sha1_of(utf8::encode_utf8(key@ + WEBSOCKET_GUID@))),
{
    let mut seed = String::new();
    text::push_text(&mut seed, key);
    text::push_text(&mut seed, WEBSOCKET_GUID);
    proof {
        assert(seed@ =~= key@ + WEBSOCKET_GUID@);
        reveal_strlit("258EAFA5-E914-47DA-95CA-C5AB0DC85B11");
        utf8::is_ascii_chars_encode_utf8(WEBSOCKET_GUID@);
        text::lemma_encode_concat(key@, WEBSOCKET_GUID@);
    }
    upgrade_head(&digest::sha1(seed.as_str().as_bytes()))
}

/// Without the right token nothing but the public documents is served: any other request is
/// answered with 401, whatever it asks for.
pub proof fn law_no_token_no_service(q: RequestView, token: Seq<char>)
    requires
        !is_public(q.path),
        q.header("authorization"@) matches Some(value) ==> negotiation::bearer(value) != Some(
            token,
        ),
        q.query_param("token"@) != Some(token),
    ensures
        step_for(q, Some(token)) == StepView::Refuse(unauthorized()),
        unauthorized().status == 401,
{
}

/// Whether a request is a command.
pub open spec fn is_command(q: RequestView) -> bool {
    ||| asks(q, "POST"@, "/v1/call/claim"@)
    ||| asks(q, "POST"@, "/v1/call/unlock"@)
    ||| asks(q, "POST"@, "/v1/call/hangup"@)
}

/// Whether a request asks for something of the API that is answered as a whole.
pub open spec fn is_query(q: RequestView) -> bool {
    ||| asks(q, "GET"@, "/v1"@)
    ||| asks(q, "GET"@, "/v1/"@)
    ||| asks(q, "GET"@, "/v1/state"@)
    ||| asks(q, "GET"@, "/v1/media"@)
    ||| asks(q, "GET"@, "/v1/snapshot.jpg"@)
}

/// Negotiation is mandatory: where a request says nothing of what it accepts, a query or a
/// command is answered with 406 and the type that would have been supported, and none of the
/// streams of events, frames and sound is acceptable.
pub proof fn law_accept_is_mandatory(q: RequestView, swagger: bool, web_ui: bool)
    requires
        q.header("accept"@) is None,
    ensures
        is_query(q) || is_command(q) ==> route_of(q, swagger, web_ui) == RoutedView::Reply(
            negotiation::not_acceptable(
                seq![
                    if q.path == "/v1/snapshot.jpg"@ {
                        MEDIA_TYPE_JPEG@
                    } else {
                        MEDIA_TYPE_JSON@
                    },
                ],
            ),
        ),
        forall|offered: Seq<Seq<char>>| (#[trigger] negotiation::not_acceptable(offered)).status
            == 406,
        !accepts(q, MEDIA_TYPE_EVENTS@),
        !accepts_video(q),
        !accepts(q, MEDIA_TYPE_L16@),
{
    lemma_paths_differ();
}

/// A body must say its type: a command whose body is said to be of no type, or of another type
/// than JSON, is answered with 415 where the client accepts JSON, and so is a talk upload of
/// another type than sound; both with the type that would have been supported.
pub proof fn law_content_type_is_mandatory(q: RequestView, swagger: bool, web_ui: bool)
    ensures
        is_command(q) && accepts(q, MEDIA_TYPE_JSON@) && !negotiation::has_content_type(
            q,
            MEDIA_TYPE_JSON@,
        ) ==> route_of(q, swagger, web_ui) == RoutedView::Reply(
            negotiation::unsupported_type(MEDIA_TYPE_JSON@),
        ),
        !negotiation::has_content_type(q, MEDIA_TYPE_L16@) ==> talk_plan_for(q)
            == TalkPlanView::Refuse(negotiation::unsupported_type(MEDIA_TYPE_L16@)),
        forall|expected: Seq<char>| (#[trigger] negotiation::unsupported_type(expected)).status
            == 415,
{
    lemma_paths_differ();
}

/// The methods and the paths of the API are told apart.
proof fn lemma_paths_differ()
    ensures
        "GET"@ != "POST"@,
        "/v1"@ != "/openapi.yaml"@,
        "/v1"@ != "/"@,
        "/v1"@ != "/pad"@,
        "/v1"@ != "/swagger"@,
        "/v1/"@ != "/openapi.yaml"@,
        "/v1/"@ != "/"@,
        "/v1/"@ != "/pad"@,
        "/v1/"@ != "/swagger"@,
        "/v1/state"@ != "/openapi.yaml"@,
        "/v1/state"@ != "/"@,
        "/v1/state"@ != "/pad"@,
        "/v1/state"@ != "/swagger"@,
        "/v1/media"@ != "/openapi.yaml"@,
        "/v1/media"@ != "/"@,
        "/v1/media"@ != "/pad"@,
        "/v1/media"@ != "/swagger"@,
        "/v1/snapshot.jpg"@ != "/openapi.yaml"@,
        "/v1/snapshot.jpg"@ != "/"@,
        "/v1/snapshot.jpg"@ != "/pad"@,
        "/v1/snapshot.jpg"@ != "/swagger"@,
        "/v1/snapshot.jpg"@ != "/v1"@,
        "/v1/snapshot.jpg"@ != "/v1/"@,
        "/v1/snapshot.jpg"@ != "/v1/state"@,
        "/v1/snapshot.jpg"@ != "/v1/media"@,
        "/v1/snapshot.jpg"@ != "/v1/call/claim"@,
        "/v1/snapshot.jpg"@ != "/v1/call/unlock"@,
        "/v1/snapshot.jpg"@ != "/v1/call/hangup"@,
{
    reveal_strlit("GET");
    reveal_strlit("POST");
    reveal_strlit("/openapi.yaml");
    reveal_strlit("/");
    reveal_strlit("/pad");
    reveal_strlit("/swagger");
    reveal_strlit("/v1");
    reveal_strlit("/v1/");
    reveal_strlit("/v1/state");
    reveal_strlit("/v1/media");
    reveal_strlit("/v1/snapshot.jpg");
    reveal_strlit("/v1/call/claim");
    reveal_strlit("/v1/call/unlock");
    reveal_strlit("/v1/call/hangup");
    assert("/v1/snapshot.jpg"@.len() == 16);
    assert("/v1/call/claim"@.len() < 16);
    assert("/v1/call/unlock"@.len() < 16);
    assert("/v1/call/hangup"@.len() < 16);
    assert("GET"@.len() == 3 && "POST"@.len() == 4);
    assert("/v1"@[1] == 'v' && "/v1/"@[1] == 'v' && "/v1/state"@[1] == 'v' && "/v1/media"@[1] == 'v'
        && "/v1/snapshot.jpg"@[1] == 'v');
    assert("/openapi.yaml"@[1] == 'o' && "/pad"@[1] == 'p' && "/swagger"@[1] == 's');
    assert("/"@.len() == 1);
}

/// What stands behind a request. Without the token only the four public pages are served; with it
/// the streams and the talk-back have their own paths, and all else is answered at once.
pub proof fn law_requests_are_told_apart(q: RequestView, token: Option<Seq<char>>)
    ensures
        ({
            let open = q.path == "/openapi.yaml"@ || q.path == "/swagger"@ || q.path == "/"@
                || q.path == "/pad"@ || negotiation::is_authorized(q, token);
            let step = step_for(q, token);
            let get = q.method == "GET"@;
            let post = q.method == "POST"@;
            &&& !open <==> step is Refuse
            &&& step matches StepView::Refuse(r) ==> r.status == 401 && r.headers.contains(
                ("WWW-Authenticate"@, "Bearer"@),
            )
            &&& step == StepView::Events <==> open && get && q.path == "/v1/events"@
            &&& step == StepView::Talk <==> open && post && q.path == "/v1/talk"@
            &&& step == StepView::Video <==> open && get && q.path == "/v1/stream.mjpeg"@
            &&& step == StepView::Audio <==> open && get && q.path == "/v1/audio.pcm"@
            &&& step == StepView::TalkSocket <==> open && get && q.path == "/v1/talk.ws"@
        }),
{
    lemma_paths_differ();
    lemma_streams_differ();
    let r = unauthorized();
    assert(r.headers.last() == ("WWW-Authenticate"@, "Bearer"@));
}

proof fn lemma_streams_differ()
    ensures
        "GET"@ != "POST"@,
        "/v1/events"@ != "/v1/stream.mjpeg"@,
        "/v1/events"@ != "/v1/audio.pcm"@,
        "/v1/events"@ != "/v1/talk.ws"@,
        "/v1/stream.mjpeg"@ != "/v1/audio.pcm"@,
        "/v1/stream.mjpeg"@ != "/v1/talk.ws"@,
        "/v1/audio.pcm"@ != "/v1/talk.ws"@,
        "/v1/state"@ != "/v1/media"@,
        "/v1/state"@ != "/v1"@,
        "/v1/state"@ != "/v1/"@,
        "/v1/media"@ != "/v1"@,
        "/v1/media"@ != "/v1/"@,
        "/v1/call/claim"@ != "/v1/call/unlock"@,
        "/v1/call/claim"@ != "/v1/call/hangup"@,
        "/v1/call/unlock"@ != "/v1/call/hangup"@,
{
    reveal_strlit("/v1");
    reveal_strlit("/v1/");
    reveal_strlit("/v1/state");
    reveal_strlit("/v1/media");
    reveal_strlit("/v1/call/claim");
    reveal_strlit("/v1/call/unlock");
    reveal_strlit("/v1/call/hangup");
    assert("/v1/state"@[4] == 's' && "/v1/media"@[4] == 'm');
    assert("/v1"@.len() == 3 && "/v1/"@.len() == 4 && "/v1/state"@.len() == 9
        && "/v1/media"@.len() == 9);
    assert("/v1/call/claim"@[9] == 'c' && "/v1/call/unlock"@[9] == 'u' && "/v1/call/hangup"@[9]
        == 'h');
    reveal_strlit("GET");
    reveal_strlit("POST");
    reveal_strlit("/v1/events");
    reveal_strlit("/v1/stream.mjpeg");
    reveal_strlit("/v1/audio.pcm");
    reveal_strlit("/v1/talk.ws");
    assert("GET"@.len() != "POST"@.len());
    assert("/v1/audio.pcm"@.len() == 13);
    assert("/v1/talk.ws"@.len() == 11);
    assert("/v1/events"@.len() == 10);
}

/// Which commands the paths give: each only by POST, with an accepted JSON reply and a JSON body.
/// The queries are answered by GET, where their type is accepted.
pub proof fn law_paths_have_their_routes(q: RequestView, swagger: bool, web_ui: bool)
    ensures
        ({
            let r = route_of(q, swagger, web_ui);
            let json = "application/json; v=1"@;
            let fine = accepts(q, json) && negotiation::has_content_type(q, json);
            let get = q.method == "GET"@;
            let post = q.method == "POST"@;
            &&& r == RoutedView::Command(CallAction::Claim) <==> post && q.path
                == "/v1/call/claim"@ && fine
            &&& r == RoutedView::Command(CallAction::Unlock) <==> post && q.path
                == "/v1/call/unlock"@ && fine
            &&& r == RoutedView::Command(CallAction::Hangup) <==> post && q.path
                == "/v1/call/hangup"@ && fine
            &&& r == RoutedView::Info <==> get && (q.path == "/v1/"@ || q.path == "/v1"@)
                && accepts(q, json)
            &&& r == RoutedView::State <==> get && q.path == "/v1/state"@ && accepts(q, json)
            &&& r == RoutedView::Media <==> get && q.path == "/v1/media"@ && accepts(q, json)
            &&& r == RoutedView::Snapshot <==> get && q.path == "/v1/snapshot.jpg"@ && accepts(
                q,
                "image/jpeg"@,
            )
            &&& !get && !post ==> r is Reply && (r->Reply_0).status == 404
        }),
{
    lemma_paths_differ();
    lemma_streams_differ();
}

/// How long ago something was, in whole milliseconds; what lies ahead was just now.
pub proof fn law_age_is_whole_milliseconds(clock_us: u64, pts_us: u64)
    ensures
        clock_us >= pts_us ==> age_ms(clock_us, pts_us) * 1000 <= clock_us - pts_us < (age_ms(
            clock_us,
            pts_us,
        ) + 1) * 1000,
        clock_us <= pts_us ==> age_ms(clock_us, pts_us) == 0,
{
}

/// An event stream carries each event as its number, its name and its data, in their order. It
/// opens with what the client has missed, or a comment where that is nothing, or with the snapshot
/// under the number 0 where that is not known; then it says how soon to come back.
pub proof fn law_event_stream_text(
    events: Seq<EventTextView>,
    e: EventTextView,
    snapshot: Seq<char>,
    q: RequestView,
    n: u64,
)
    ensures
        message_text(e.seq, e.name, e.data) == "id: "@ + text::decimal(e.seq as nat)
            + "\nevent: "@ + e.name + "\ndata: "@ + e.data + "\n\n"@,
        messages(events.push(e)) == messages(events) + message_text(e.seq, e.name, e.data),
        messages(Seq::empty()) == Seq::<char>::empty(),
        events.len() > 0 ==> opening_text(Some(events), snapshot) == messages(events)
            + "retry: 1000\n\n"@,
        events.len() == 0 ==> opening_text(Some(events), snapshot) == ": resumed\n\n"@
            + "retry: 1000\n\n"@,
        opening_text(None, snapshot) == message_text(0, "snapshot"@, snapshot)
            + "retry: 1000\n\n"@,
        q.header("last-event-id"@) == Some(text::decimal(n as nat)) ==> last_event_id(q) == Some(
            n as nat,
        ),
        q.header("last-event-id"@) is None ==> last_event_id(q) is None,
{
    assert(events.push(e).drop_last() =~= events);
    text::law_number_round_trip(n as nat, 10, u64::MAX as nat);
    text::lemma_digits_are_trimmed(text::decimal(n as nat), 10);
}

/// The spread of a range is its length in whole milliseconds; a range that runs backwards has
/// none.
pub proof fn law_spread_is_whole_milliseconds(low: Duration, high: Duration)
    requires
        high.nanos <= 0xffff_ffff_ffff_ffff,
    ensures
        low.nanos <= high.nanos ==> span_ms((low, high)) * 1_000_000 <= high.nanos - low.nanos < (
        span_ms((low, high)) + 1) * 1_000_000,
        low.nanos > high.nanos ==> span_ms((low, high)) == 0,
{
}

/// A part of the video stream is a frame behind a head with its length and its time.
pub proof fn law_video_parts(jpeg: Seq<u8>, pts_us: u64)
    ensures
        part_bytes(jpeg, pts_us) == utf8::encode_utf8(
            "--frame\r\nContent-Type: image/jpeg\r\nContent-Length: "@ + text::decimal(jpeg.len())
                + "\r\nX-Pts-Us: "@ + text::decimal(pts_us as nat) + "\r\n\r\n"@,
        ) + jpeg + seq![13u8, 10u8],
        video_head_text() == "HTTP/1.1 200 OK\r\nContent-Type: "@
            + "multipart/x-mixed-replace; boundary=frame"@
            + "\r\nCache-Control: no-store\r\nConnection: close\r\n\r\n"@,
        audio_head_text() == "HTTP/1.1 200 OK\r\nContent-Type: "@
            + "audio/L16; rate=8000; channels=1"@
            + "\r\nCache-Control: no-store\r\nTransfer-Encoding: chunked\r\nConnection: close\r\n\r\n"@,
{
}

/// Samples go out with their two bytes exchanged; a byte without a partner stays.
pub proof fn law_samples_are_swapped(pcm: Seq<u8>, k: int)
    ensures
        swapped(pcm).len() == pcm.len(),
        0 <= 2 * k && 2 * k + 1 < pcm.len() ==> swapped(pcm)[2 * k] == pcm[2 * k + 1] && swapped(
            pcm,
        )[2 * k + 1] == pcm[2 * k],
        pcm.len() % 2 == 1 ==> swapped(pcm).last() == pcm.last(),
{
}

/// Talk-back is forwarded in whole pieces of 512 bytes, in order; what is short of one stays.
pub proof fn law_talk_frames_are_whole(s: Seq<u8>, i: int)
    ensures
        full_frames(s).len() == s.len() / 512,
        unfilled(s).len() == s.len() % 512,
        unfilled(s) == s.skip(s.len() - s.len() % 512),
        0 <= i < full_frames(s).len() ==> full_frames(s)[i] == s.subrange(i * 512, i * 512 + 512),
    decreases s.len(),
{
    if s.len() >= 512 {
        let rest = s.skip(512);
        law_talk_frames_are_whole(rest, i - 1);
        assert(unfilled(s) =~= s.skip(s.len() - s.len() % 512));
        if i == 0 {
            assert(s.take(512) =~= s.subrange(0, 512));
        } else if 0 < i < full_frames(s).len() {
            assert(rest.subrange((i - 1) * 512, (i - 1) * 512 + 512) =~= s.subrange(
                i * 512,
                i * 512 + 512,
            ));
        }
    } else {
        assert(unfilled(s) =~= s.skip(0));
    }
}

/// The six bits that a letter of the base64 alphabet stands for.
pub open spec fn six_bits(c: char) -> int {
    if 'A' <= c <= 'Z' {
        c as int - 65
    } else if 'a' <= c <= 'z' {
        c as int - 97 + 26
    } else if '0' <= c <= '9' {
        c as int - 48 + 52
    } else if c == '+' {
        62
    } else if c == '/' {
        63
    } else {
        -1
    }
}

/// Each three bytes come back from their four letters; two bytes have one sign of padding behind
/// three letters, and one byte has two behind two.
pub proof fn law_base64_is_read_back(b: Seq<u8>, rest: Seq<u8>)
    requires
        1 <= b.len() <= 3,
        b.len() < 3 ==> rest.len() == 0,
    ensures
        ({
            let t = base64(b + rest);
            let n = six_bits(t[0]) * 0x4_0000 + six_bits(t[1]) * 0x1000;
            &&& t.skip(4) == base64(rest)
            &&& 0 <= six_bits(t[0]) && 0 <= six_bits(t[1])
            &&& b.len() == 3 ==> 0 <= six_bits(t[2]) && 0 <= six_bits(t[3]) && n + six_bits(t[2])
                * 64 + six_bits(t[3]) == b[0] * 0x1_0000 + b[1] * 0x100 + b[2]
            &&& b.len() == 2 ==> t[3] == '=' && 0 <= six_bits(t[2]) && n + six_bits(t[2]) * 64
                == b[0] * 0x1_0000 + b[1] * 0x100
            &&& b.len() == 1 ==> t[2] == '=' && t[3] == '=' && n == b[0] * 0x1_0000
        }),
{
    let all = b + rest;
    let t = base64(all);
    if all.len() <= 3 {
        assert(rest =~= Seq::empty());
        assert(all =~= b);
        assert(t.skip(4) =~= Seq::empty());
    } else {
        assert(all.take(3) =~= b);
        assert(all.skip(3) =~= rest);
        assert(t =~= base64_group(b) + base64(rest));
        assert(t.skip(4) =~= base64(rest));
    }
    let n = (b[0] as nat) * 65536 + (if b.len() > 1 {
        b[1] as nat
    } else {
        0
    }) * 256 + (if b.len() > 2 {
        b[2] as nat
    } else {
        0
    });
    let g = base64_group(b);
    assert(t[0] == g[0] && t[1] == g[1] && t[2] == g[2] && t[3] == g[3]);
    lemma_base64_number(n);
}

proof fn lemma_base64_number(n: nat)
    requires
        n < 0x100_0000,
    ensures
        six_bits(base64_char(n / 262144)) == n / 262144,
        six_bits(base64_char(n / 4096 % 64)) == n / 4096 % 64,
        six_bits(base64_char(n / 64 % 64)) == n / 64 % 64,
        six_bits(base64_char(n % 64)) == n % 64,
        n / 262144 * 0x4_0000 + n / 4096 % 64 * 0x1000 + n / 64 % 64 * 64 + n % 64 == n,
        n % 64 == 0 ==> n / 262144 * 0x4_0000 + n / 4096 % 64 * 0x1000 + n / 64 % 64 * 64 == n,
        n % 4096 == 0 ==> n / 262144 * 0x4_0000 + n / 4096 % 64 * 0x1000 == n,
{
    lemma_base64_letter(n / 262144);
    lemma_base64_letter(n / 4096 % 64);
    lemma_base64_letter(n / 64 % 64);
    lemma_base64_letter(n % 64);
}

proof fn lemma_base64_letter(n: nat)
    requires
        n < 64,
    ensures
        six_bits(base64_char(n)) == n,
{
}

/// What becomes of an upload of talk-back. It has to be of the samples' type; then its length has
/// to be readable, and it has to be chunked or have one; then no other talk may be going on. What
/// ends it is answered: with nothing, with the refusal, or by closing.
pub proof fn law_uploads_are_planned(slot: TalkSlot, q: RequestView, error: CallError)
    ensures
        ({
            let plan = upload_answer(slot, q);
            let typed = negotiation::has_content_type(q, "audio/L16; rate=8000; channels=1"@);
            let length = q.declared_length();
            &&& !typed ==> plan is Refuse && (plan->Refuse_0).status == 415
            &&& typed && length is Err ==> plan == TalkPlanView::Fail(length->Err_0)
            &&& typed && length is Ok && !q.chunked() && length->Ok_0 is None ==> plan
                == TalkPlanView::Fail(BodyError::Unframed)
            &&& typed && length is Ok && (q.chunked() || length->Ok_0 is Some) && slot.busy
                ==> plan is Refuse && (plan->Refuse_0).status == 409
            &&& typed && length is Ok && q.chunked() && !slot.busy ==> plan
                == TalkPlanView::Chunked
            &&& typed && length is Ok && !q.chunked() && length->Ok_0 is Some && !slot.busy ==> plan
                == TalkPlanView::Bytes((length->Ok_0)->0)
        }),
        reply_to(TalkEnd::Complete) == TalkReplyView::Done,
        reply_to(TalkEnd::Broken) == TalkReplyView::Closed,
        reply_to(TalkEnd::Rejected(error)) is Rejected,
        !(reply_to(TalkEnd::Rejected(error))->Rejected_0).ok,
        (reply_to(TalkEnd::Rejected(error))->Rejected_0).error == Some(error),
        (reply_to(TalkEnd::Rejected(error))->Rejected_0).command_id == "talk"@,
{
}

/// When a talk-back socket is opened: the request asks for the upgrade with a key, and no other
/// talk is going on. The key is the header's, without blanks around it.
pub proof fn law_sockets_are_opened(slot: TalkSlot, q: RequestView, sum: Seq<u8>)
    ensures
        ({
            let r = websocket_answer(slot, q);
            let asked = q.header("sec-websocket-key"@) is Some && q.header_is(
                "upgrade"@,
                "websocket"@,
            );
            &&& r is Ok <==> asked && !slot.busy
            &&& r matches Ok(key) ==> key == text::trimmed(q.header("sec-websocket-key"@)->0)
            &&& !asked ==> (r->Err_0).status == 400
            &&& asked && slot.busy ==> (r->Err_0).status == 409
        }),
        upgrade_text(sum)
            == "HTTP/1.1 101 Switching Protocols\r\nUpgrade: websocket\r\nConnection: Upgrade\r\nSec-WebSocket-Accept: "@
            + base64(sum) + "\r\n\r\n"@,
{
}

/// The pages: the description of the API for everybody, the pad where it is switched on, and its
/// browser where that is. Where they are off, and on any other path, there is nothing.
pub proof fn law_pages_are_served(q: RequestView, swagger: bool, web_ui: bool)
    requires
        q.method == "GET"@,
    ensures
        ({
            let r = route_of(q, swagger, web_ui);
            let reply = r->Reply_0;
            &&& q.path == "/openapi.yaml"@ ==> r is Reply && reply.status == 200 && reply.headers
                == seq![("Content-Type"@, "application/yaml"@)] && reply.body == utf8::encode_utf8(
                OPENAPI_YAML@,
            )
            &&& web_ui && (q.path == "/"@ || q.path == "/pad"@) ==> r is Reply && reply.status
                == 200 && reply.headers == seq![
                ("Content-Type"@, "text/html; charset=utf-8"@),
                ("Cache-Control"@, "no-cache"@),
            ] && reply.body == utf8::encode_utf8(PAD_HTML@)
            &&& q.path == "/swagger"@ && swagger ==> r is Reply && reply.status == 200
                && reply.body == utf8::encode_utf8(SWAGGER_HTML@)
            &&& q.path == "/swagger"@ && !swagger ==> r is Reply && reply.status == 404
            &&& !web_ui && (q.path == "/"@ || q.path == "/pad"@) ==> r is Reply && reply.status
                == 404
        }),
{
    lemma_pages_differ();
    lemma_paths_differ();
    if web_ui && (q.path == "/"@ || q.path == "/pad"@) {
        let reply = route_of(q, swagger, web_ui)->Reply_0;
        assert(reply.headers =~= seq![
            ("Content-Type"@, "text/html; charset=utf-8"@),
            ("Cache-Control"@, "no-cache"@),
        ]);
    }
}

proof fn lemma_pages_differ()
    ensures
        "/openapi.yaml"@ != "/"@,
        "/openapi.yaml"@ != "/pad"@,
        "/openapi.yaml"@ != "/swagger"@,
        "/swagger"@ != "/"@,
        "/swagger"@ != "/pad"@,
        "/"@ != "/pad"@,
        "/"@ != "/v1/events"@,
        "/pad"@ != "/v1/events"@,
        "/"@ != "/v1/stream.mjpeg"@,
        "/pad"@ != "/v1/stream.mjpeg"@,
        "/"@ != "/v1/audio.pcm"@,
        "/pad"@ != "/v1/audio.pcm"@,
        "/"@ != "/v1/talk.ws"@,
        "/pad"@ != "/v1/talk.ws"@,
{
    reveal_strlit("/openapi.yaml");
    reveal_strlit("/");
    reveal_strlit("/pad");
    reveal_strlit("/swagger");
    reveal_strlit("/v1/events");
    reveal_strlit("/v1/stream.mjpeg");
    reveal_strlit("/v1/audio.pcm");
    reveal_strlit("/v1/talk.ws");
    assert("/openapi.yaml"@.len() == 13 && "/"@.len() == 1 && "/pad"@.len() == 4
        && "/swagger"@.len() == 8);
    assert("/v1/events"@.len() == 10 && "/v1/stream.mjpeg"@.len() == 16 && "/v1/audio.pcm"@.len()
        == 13 && "/v1/talk.ws"@.len() == 11);
}

} // verus!
