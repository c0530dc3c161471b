//! The documents that the control plane serves: the description of its API, the browser Pad and
//! the page that shows the API.

use vstd::prelude::*;

verus! {

/// The description of the API.
pub const OPENAPI_YAML: &'static str = r##"openapi: 3.1.0
info:
  title: michoi Agent API
  version: "1"
  description: >-
    The control plane of an intercom Agent. Every request names the media types that it accepts;
    every request with a body names the type of the body.
security:
  - bearer: []
  - token: []
paths:
  /v1/:
    get:
      summary: The version, the media types and the capabilities of the Agent.
      responses:
        "200":
          description: The description of the Agent.
          content:
            application/json; v=1:
              schema: { $ref: "#/components/schemas/ApiInfo" }
        "401": { $ref: "#/components/responses/Unauthorized" }
        "406": { $ref: "#/components/responses/NotAcceptable" }
  /v1/state:
    get:
      summary: The state of the call.
      responses:
        "200":
          description: The state of the call.
          content:
            application/json; v=1:
              schema: { $ref: "#/components/schemas/CallState" }
        "401": { $ref: "#/components/responses/Unauthorized" }
        "406": { $ref: "#/components/responses/NotAcceptable" }
  /v1/media:
    get:
      summary: The media that the Agent offers.
      responses:
        "200":
          description: The media that the Agent offers.
          content:
            application/json; v=1:
              schema: { $ref: "#/components/schemas/MediaInfo" }
        "401": { $ref: "#/components/responses/Unauthorized" }
        "406": { $ref: "#/components/responses/NotAcceptable" }
  /v1/snapshot.jpg:
    get:
      summary: The latest frame of the door.
      responses:
        "200":
          description: The frame. X-Frame-Age-Ms says how old it is.
          content:
            image/jpeg: {}
        "401": { $ref: "#/components/responses/Unauthorized" }
        "404":
          description: No frame has been received yet.
        "406": { $ref: "#/components/responses/NotAcceptable" }
  /v1/call/claim:
    post:
      summary: Answers the ringing call.
      requestBody: { $ref: "#/components/requestBodies/Command" }
      responses:
        "200": { $ref: "#/components/responses/CommandDone" }
        "400": { $ref: "#/components/responses/NoCommand" }
        "401": { $ref: "#/components/responses/Unauthorized" }
        "406": { $ref: "#/components/responses/NotAcceptable" }
        "409": { $ref: "#/components/responses/NotAllowed" }
        "415": { $ref: "#/components/responses/UnsupportedMediaType" }
        "429": { $ref: "#/components/responses/Cooldown" }
        "501": { $ref: "#/components/responses/Unsupported" }
        "503": { $ref: "#/components/responses/Unreachable" }
  /v1/call/unlock:
    post:
      summary: Opens the door.
      requestBody: { $ref: "#/components/requestBodies/Command" }
      responses:
        "200": { $ref: "#/components/responses/CommandDone" }
        "400": { $ref: "#/components/responses/NoCommand" }
        "401": { $ref: "#/components/responses/Unauthorized" }
        "406": { $ref: "#/components/responses/NotAcceptable" }
        "409": { $ref: "#/components/responses/NotAllowed" }
        "415": { $ref: "#/components/responses/UnsupportedMediaType" }
        "429": { $ref: "#/components/responses/Cooldown" }
        "501": { $ref: "#/components/responses/Unsupported" }
        "503": { $ref: "#/components/responses/Unreachable" }
  /v1/call/hangup:
    post:
      summary: Ends the call.
      requestBody: { $ref: "#/components/requestBodies/Command" }
      responses:
        "200": { $ref: "#/components/responses/CommandDone" }
        "400": { $ref: "#/components/responses/NoCommand" }
        "401": { $ref: "#/components/responses/Unauthorized" }
        "406": { $ref: "#/components/responses/NotAcceptable" }
        "409": { $ref: "#/components/responses/NotAllowed" }
        "415": { $ref: "#/components/responses/UnsupportedMediaType" }
        "429": { $ref: "#/components/responses/Cooldown" }
        "501": { $ref: "#/components/responses/Unsupported" }
        "503": { $ref: "#/components/responses/Unreachable" }
  /v1/events:
    get:
      summary: The events of the Agent as a stream, resumed behind Last-Event-ID.
      parameters:
        - name: Last-Event-ID
          in: header
          schema: { type: integer }
      responses:
        "200":
          description: The missed events or a snapshot, then every event as it happens.
          content:
            text/event-stream: {}
        "401": { $ref: "#/components/responses/Unauthorized" }
        "406": { $ref: "#/components/responses/NotAcceptable" }
  /v1/talk:
    post:
      summary: Talks to the visitor; one upload at a time.
      requestBody:
        content:
          audio/L16; rate=8000; channels=1: {}
      responses:
        "204":
          description: All of it has been sent on.
        "401": { $ref: "#/components/responses/Unauthorized" }
        "409":
          description: Another upload is active, or the call does not allow it.
        "415": { $ref: "#/components/responses/UnsupportedMediaType" }
  /v1/talk.ws:
    get:
      summary: Talks to the visitor over a WebSocket of binary messages.
      responses:
        "101":
          description: The connection is a WebSocket from here on.
        "400":
          description: No WebSocket has been asked for.
        "401": { $ref: "#/components/responses/Unauthorized" }
        "409":
          description: Another upload is active.
  /v1/stream.mjpeg:
    get:
      summary: The frames of the door, the latest one first.
      responses:
        "200":
          description: One part for each frame.
          content:
            multipart/x-mixed-replace: {}
        "401": { $ref: "#/components/responses/Unauthorized" }
        "406": { $ref: "#/components/responses/NotAcceptable" }
  /v1/audio.pcm:
    get:
      summary: The sound of the door.
      responses:
        "200":
          description: Samples of 16 bits in network order.
          content:
            audio/L16; rate=8000; channels=1: {}
        "401": { $ref: "#/components/responses/Unauthorized" }
        "406": { $ref: "#/components/responses/NotAcceptable" }
components:
  securitySchemes:
    bearer:
      type: http
      scheme: bearer
    token:
      type: apiKey
      in: query
      name: token
  requestBodies:
    Command:
      required: true
      content:
        application/json; v=1:
          schema: { $ref: "#/components/schemas/CommandRequest" }
  responses:
    Unauthorized:
      description: The token is missing or wrong.
    NotAcceptable:
      description: None of the supported types is accepted; the body lists them.
    UnsupportedMediaType:
      description: The type of the body is not supported; the response lists those that are.
    CommandDone:
      description: The command was carried out, now or when it first came.
      content:
        application/json; v=1:
          schema: { $ref: "#/components/schemas/CommandResult" }
    NoCommand:
      description: The body is no command.
    NotAllowed:
      description: The call does not allow the command.
      content:
        application/json; v=1:
          schema: { $ref: "#/components/schemas/CommandResult" }
    Cooldown:
      description: The door was opened a moment ago.
      content:
        application/json; v=1:
          schema: { $ref: "#/components/schemas/CommandResult" }
    Unsupported:
      description: The Agent does not support the command in its mode.
      content:
        application/json; v=1:
          schema: { $ref: "#/components/schemas/CommandResult" }
    Unreachable:
      description: The door cannot be reached.
      content:
        application/json; v=1:
          schema: { $ref: "#/components/schemas/CommandResult" }
  schemas:
    ApiInfo:
      type: object
      properties:
        api_version: { type: string }
        agent_id: { type: string }
        media_types: { type: array, items: { type: string } }
        capabilities: { type: array, items: { type: string } }
    CallState:
      type: object
      properties:
        phase: { type: string, enum: [idle, ringing, connected, ending] }
        owner: { type: string, enum: [none, pad, remote] }
        session_id: { type: [string, "null"] }
        door_id: { type: [string, "null"] }
        room_id: { type: [string, "null"] }
        since_ms: { type: [integer, "null"] }
        agent_id: { type: string }
        connected: { type: boolean }
        uptime_ms: { type: integer }
    MediaInfo:
      type: object
      properties:
        rtsp_url: { type: [string, "null"] }
        video: { type: object }
        audio: { type: object }
        talk: { type: boolean }
        history_ms: { type: integer }
        buffered_ms: { type: integer }
    CommandRequest:
      type: object
      required: [command_id]
      properties:
        command_id: { type: string, minLength: 1, maxLength: 128 }
    CommandResult:
      type: object
      properties:
        command_id: { type: string }
        ok: { type: boolean }
        error: { type: string }
        replayed: { type: boolean }
"##;

/// The browser Pad: one page without anything else to load. It rings, shows the door and lets it
/// be heard, answers, unlocks, hangs up, and sends the microphone while the talk button is held.
pub const PAD_HTML: &'static str = r##"<!doctype html>
<html lang="en">
<head>
<meta charset="utf-8">
<meta name="viewport" content="width=device-width, initial-scale=1">
<title>Pad</title>
<style>
body { font-family: sans-serif; margin: 1em auto; max-width: 40em; text-align: center; }
body.ringing { background: #fed; }
img { width: 100%; background: #000; min-height: 12em; }
button { font-size: 1.2em; margin: .3em; padding: .5em 1em; }
button.on { background: #c33; color: #fff; }
</style>
</head>
<body>
<p id="state">offline</p>
<img id="door" alt="">
<p>
<button id="claim">Answer</button>
<button id="unlock">Unlock</button>
<button id="hangup">Hang up</button>
<button id="talk">Hold to talk</button>
</p>
<p>
<button id="sound">Sound</button>
<button id="settings">Settings</button>
</p>
<dialog id="dialog">
<form method="dialog">
<p><label>Token <input id="token" type="password"></label></p>
<button>Save</button>
</form>
</dialog>
<script>
const $ = (id) => document.getElementById(id);
const RATE = 8000;
const token = () => localStorage.getItem("token") || "";
const query = () => token() ? "?token=" + encodeURIComponent(token()) : "";
const headers = (more) => {
  if (token()) more["Authorization"] = "Bearer " + token();
  return more;
};

// One audio context serves the ringtone, the sound of the door and the microphone. A browser lets
// it start at the first press of a button.
let audio = null;
function context() {
  if (!audio) audio = new AudioContext();
  if (audio.state === "suspended") audio.resume();
  return audio;
}

// The ringtone: two tones, again and again while a call rings.
let bell = null;
function ring(on) {
  document.body.classList.toggle("ringing", on);
  if (on && !bell) {
    const strike = () => {
      const c = context();
      [880, 660].forEach((pitch, i) => {
        const tone = c.createOscillator();
        const level = c.createGain();
        const at = c.currentTime + i * 0.4;
        tone.frequency.value = pitch;
        level.gain.setValueAtTime(0.2, at);
        level.gain.exponentialRampToValueAtTime(0.001, at + 0.4);
        tone.connect(level).connect(c.destination);
        tone.start(at);
        tone.stop(at + 0.4);
      });
    };
    strike();
    bell = setInterval(strike, 2000);
  } else if (!on && bell) {
    clearInterval(bell);
    bell = null;
  }
}

// The sound of the door: samples of 16 bits in network order, played one piece behind the other.
let hearing = null;
async function hear() {
  if (hearing) {
    hearing.abort();
    return;
  }
  const c = context();
  const stop = new AbortController();
  hearing = stop;
  $("sound").classList.add("on");
  try {
    const reply = await fetch("/v1/audio.pcm", {
      headers: headers({ "Accept": "audio/L16" }),
      signal: stop.signal,
    });
    if (!reply.ok) throw new Error("no sound");
    const reader = reply.body.getReader();
    let rest = new Uint8Array(0);
    let at = 0;
    for (;;) {
      const { done, value } = await reader.read();
      if (done) break;
      const bytes = new Uint8Array(rest.length + value.length);
      bytes.set(rest);
      bytes.set(value, rest.length);
      const count = bytes.length >> 1;
      rest = bytes.slice(count * 2);
      if (count === 0) continue;
      const view = new DataView(bytes.buffer);
      const piece = c.createBuffer(1, count, RATE);
      const samples = piece.getChannelData(0);
      for (let i = 0; i < count; i++) samples[i] = view.getInt16(i * 2, false) / 32768;
      const player = c.createBufferSource();
      player.buffer = piece;
      player.connect(c.destination);
      at = Math.max(at, c.currentTime + 0.05);
      player.start(at);
      at += piece.duration;
    }
  } catch (e) {
    if (e.name !== "AbortError") $("state").textContent = "no sound";
  }
  hearing = null;
  $("sound").classList.remove("on");
}

// Hold to talk: the microphone at 8 kHz, samples of 16 bits with the low byte first. A browser
// gives the microphone to a secure page only.
let talking = null;
async function talk() {
  if (talking) return;
  const session = { over: false };
  talking = session;
  $("talk").classList.add("on");
  try {
    const c = context();
    session.stream = await navigator.mediaDevices.getUserMedia({ audio: true });
    if (session.over) return release(session);
    const scheme = location.protocol === "https:" ? "wss://" : "ws://";
    session.socket = new WebSocket(scheme + location.host + "/v1/talk.ws" + query());
    session.socket.binaryType = "arraybuffer";
    session.socket.onmessage = (e) => {
      if (typeof e.data === "string") $("state").textContent = JSON.parse(e.data).error || "";
    };
    session.socket.onclose = () => release(session);
    session.source = c.createMediaStreamSource(session.stream);
    session.tap = c.createScriptProcessor(1024, 1, 1);
    let position = 0;
    session.tap.onaudioprocess = (e) => {
      if (session.socket.readyState !== WebSocket.OPEN) return;
      const input = e.inputBuffer.getChannelData(0);
      const step = c.sampleRate / RATE;
      const out = [];
      for (; position < input.length; position += step) out.push(input[Math.floor(position)]);
      position -= input.length;
      const view = new DataView(new ArrayBuffer(out.length * 2));
      out.forEach((v, i) => {
        view.setInt16(i * 2, Math.round(Math.max(-1, Math.min(1, v)) * 32767), true);
      });
      session.socket.send(view.buffer);
    };
    session.source.connect(session.tap);
    session.tap.connect(c.destination);
  } catch (e) {
    $("state").textContent = "no microphone";
    release(session);
  }
}
function release(session) {
  if (!session) return;
  session.over = true;
  if (session.tap) session.tap.disconnect();
  if (session.source) session.source.disconnect();
  if (session.stream) session.stream.getTracks().forEach((t) => t.stop());
  if (session.socket) session.socket.close();
  if (talking === session) {
    talking = null;
    $("talk").classList.remove("on");
  }
}

let feed = null;
function connect() {
  if (feed) feed.close();
  $("door").src = "/v1/stream.mjpeg" + query();
  feed = new EventSource("/v1/events" + query());
  const show = (text) => {
    $("state").textContent = text;
    ring(text === "ringing");
    if (text === "idle") release(talking);
  };
  feed.onerror = () => show("offline");
  feed.addEventListener("snapshot", (e) => show(JSON.parse(e.data).state.phase));
  feed.addEventListener("call_started", () => show("ringing"));
  feed.addEventListener("pad_answered", () => show("answered at the Pad"));
  feed.addEventListener("remote_answered", () => show("connected"));
  feed.addEventListener("call_ended", () => show("idle"));
}

async function command(action) {
  context();
  const id = action + "-" + Date.now() + "-" + Math.random().toString(16).slice(2);
  const reply = await fetch("/v1/call/" + action, {
    method: "POST",
    headers: headers({ "Accept": "application/json", "Content-Type": "application/json" }),
    body: JSON.stringify({ command_id: id }),
  });
  const result = await reply.json();
  if (!result.ok) $("state").textContent = result.error || "failed";
  else if (action === "claim" && !hearing) hear();
}

for (const action of ["claim", "unlock", "hangup"]) $(action).onclick = () => command(action);
$("sound").onclick = hear;
$("talk").onpointerdown = talk;
for (const event of ["pointerup", "pointerleave", "pointercancel"]) {
  $("talk").addEventListener(event, () => release(talking));
}
$("settings").onclick = () => { $("token").value = token(); $("dialog").showModal(); };
$("dialog").onclose = () => { localStorage.setItem("token", $("token").value); connect(); };
connect();
</script>
</body>
</html>
"##;

/// The page that shows the API.
pub const SWAGGER_HTML: &'static str = r##"<!doctype html>
<html lang="en">
<head>
<meta charset="utf-8">
<title>pad-gateway Agent API</title>
<link rel="stylesheet" href="https://cdn.jsdelivr.net/npm/swagger-ui-dist@5/swagger-ui.css">
</head>
<body>
<div id="swagger-ui"></div>
<script src="https://cdn.jsdelivr.net/npm/swagger-ui-dist@5/swagger-ui-bundle.js"></script>
<script>
window.ui = SwaggerUIBundle({ url: "/openapi.yaml", dom_id: "#swagger-ui", persistAuthorization: true });
</script>
</body>
</html>
"##;

} // verus!
