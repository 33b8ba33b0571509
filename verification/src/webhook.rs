//! The generic webhook channel: receives messages over HTTP POST and sends
//! replies to a configurable outbound URL, for any system that supports
//! webhooks. This module holds the channel's configuration, its decisions
//! on incoming requests (signature, content, message framing) and on
//! outgoing ones (whether, where and how to send, and what).

use vstd::prelude::*;
use crate::outside::{unix_epoch, all_ascii, ascii_upper, hex_decode, hex_decoded, hmac_sha256_verify, hmac_sha256_tag, to_uppercase, uppercase_of};
use crate::text::{chars_of, str_equal, string_from_chars, trim, trim_start_matches, trim_ws, without_leading};
use crate::timing::{entries_map, keys_sorted, TimingMap, TimingValueView};
use crate::voice::{
    IncomingVoiceEvent, VoiceEventView, VoiceMetadata, first_present, opt_view,
    metadata_of, metadata_is_empty,
};

verus! {

/// The channel's name.
pub const CHANNEL_NAME: &'static str = "webhook";

/// Where the channel listens when no path is configured.
pub const DEFAULT_LISTEN_PATH: &'static str = "/webhook";

/// The outbound HTTP method when none is configured.
pub const DEFAULT_SEND_METHOD: &'static str = "POST";

/// The configured method that selects `PUT` for outbound requests.
pub const PUT_METHOD: &'static str = "PUT";

/// The prefix a signature header may carry before its hexadecimal digits.
pub const SIGNATURE_PREFIX: &'static str = "sha256=";

/// The request header that carries the signature of the body.
pub const SIGNATURE_HEADER: &'static str = "x-webhook-signature";

/// The request header that carries the configured authorization.
pub const AUTHORIZATION_HEADER: &'static str = "Authorization";

/// The media type of the voice-event metadata attachment.
pub const VOICE_EVENT_METADATA_MIME: &'static str = "application/vnd.zeroclaw.voice-event+json";

/// The file name of the voice-event metadata attachment.
pub const VOICE_EVENT_FILE_NAME: &'static str = "voice_event.json";

/// The prefix of the ids of incoming messages.
pub const MESSAGE_ID_PREFIX: &'static str = "webhook_";

/// The protocol name of outbound event envelopes.
pub const EVENT_PROTOCOL: &'static str = "zeroclaw.webhook.event";

/// The event type of a final assistant reply.
pub const ASSISTANT_RESPONSE: &'static str = "assistant_response";

/// The event type of an interim progress message.
pub const ASSISTANT_PROGRESS: &'static str = "assistant_progress";

/// The content format of outbound events.
pub const CONTENT_FORMAT: &'static str = "text/plain";

/// The speech format of outbound events.
pub const TTS_FORMAT: &'static str = "plain_text";

// ---------------------------------------------------------------------------
// Configuration
// ---------------------------------------------------------------------------

/// The listen path: the configured one or the default, with a `/` put in
/// front where it does not start with one.
pub open spec fn normalized_listen_path(path: Option<Seq<char>>) -> Seq<char> {
    let p = match path {
        Some(p) => p,
        None => DEFAULT_LISTEN_PATH@,
    };
    if p.len() > 0 && p[0] == '/' {
        p
    } else {
        seq!['/'] + p
    }
}

/// The outbound method: the configured one or the default, upper-cased.
pub open spec fn normalized_send_method(method: Option<Seq<char>>) -> Seq<char> {
    uppercase_of(
        match method {
            Some(m) => m,
            None => DEFAULT_SEND_METHOD@,
        },
    )
}

/// Generic webhook channel: receives messages via HTTP POST and sends
/// replies to a configurable outbound URL. This is the "universal adapter"
/// for any system that supports webhooks.
pub struct WebhookChannel {
    listen_port: u16,
    listen_path: String,
    send_url: Option<String>,
    send_method: String,
    auth_header: Option<String>,
    secret: Option<String>,
}

fn clone_opt(o: &Option<String>) -> (r: Option<String>)
    ensures
        opt_view(r) == opt_view(*o),
{
    match o {
        Some(s) => Some(s.clone()),
        None => None,
    }
}

impl WebhookChannel {
    pub closed spec fn spec_listen_port(&self) -> u16 {
        self.listen_port
    }

    pub closed spec fn spec_listen_path(&self) -> Seq<char> {
        self.listen_path@
    }

    pub closed spec fn spec_send_url(&self) -> Option<Seq<char>> {
        opt_view(self.send_url)
    }

    pub closed spec fn spec_send_method(&self) -> Seq<char> {
        self.send_method@
    }

    pub closed spec fn spec_auth_header(&self) -> Option<Seq<char>> {
        opt_view(self.auth_header)
    }

    pub closed spec fn spec_secret(&self) -> Option<Seq<char>> {
        opt_view(self.secret)
    }

    /// A channel listening on `listen_port` at `listen_path` (default
    /// `/webhook`, always starting with `/`), sending replies to `send_url`
    /// with `send_method` (default `POST`, upper-cased), with an optional
    /// `Authorization` header value and an optional signing secret.
    pub fn new(
        listen_port: u16,
        listen_path: Option<String>,
        send_url: Option<String>,
        send_method: Option<String>,
        auth_header: Option<String>,
        secret: Option<String>,
    ) -> (ch: WebhookChannel)
        ensures
            ch.spec_listen_port() == listen_port,
            ch.spec_listen_path() == normalized_listen_path(opt_view(listen_path)),
            ch.spec_send_url() == opt_view(send_url),
            ch.spec_send_method() == normalized_send_method(opt_view(send_method)),
            send_method is None ==> ch.spec_send_method() == DEFAULT_SEND_METHOD@,
            match send_method {
                Some(m) => all_ascii(m@) ==> ch.spec_send_method() == m@.map_values(
                    |c: char| ascii_upper(c),
                ),
                None => true,
            },
            ch.spec_auth_header() == opt_view(auth_header),
            ch.spec_secret() == opt_view(secret),
    {
        let path = match listen_path {
            Some(p) => p,
            None => String::from_str(DEFAULT_LISTEN_PATH),
        };
        let starts_with_slash = path.as_str().unicode_len() > 0 && path.as_str().get_char(0)
            == '/';
        let listen_path = if starts_with_slash {
            path
        } else {
            let mut p = String::new();
            p.push('/');
            p.append(path.as_str());
            assert(p@ == seq!['/'] + path@);
            p
        };
        let ghost given = opt_view(send_method);
        let method = match send_method {
            Some(m) => m,
            None => String::from_str(DEFAULT_SEND_METHOD),
        };
        let send_method = to_uppercase(method.as_str());
        proof {
            reveal_strlit("POST");
            assert(DEFAULT_SEND_METHOD@ == "POST"@);
            if given is None {
                assert(all_ascii(method@));
                assert(method@.map_values(|c: char| ascii_upper(c)) =~= method@);
            }
        }
        WebhookChannel { listen_port, listen_path, send_url, send_method, auth_header, secret }
    }

    /// The port the channel listens on.
    pub fn listen_port(&self) -> (r: u16)
        ensures
            r == self.spec_listen_port(),
    {
        self.listen_port
    }

    /// The path the channel listens at.
    pub fn listen_path(&self) -> (r: &str)
        ensures
            r@ == self.spec_listen_path(),
    {
        self.listen_path.as_str()
    }

    /// The URL replies are sent to, if any.
    pub fn send_url(&self) -> (r: Option<&str>)
        ensures
            match r {
                Some(u) => self.spec_send_url() == Some(u@),
                None => self.spec_send_url() is None,
            },
    {
        match &self.send_url {
            Some(u) => Some(u.as_str()),
            None => None,
        }
    }

    /// The method replies are sent with.
    pub fn send_method(&self) -> (r: &str)
        ensures
            r@ == self.spec_send_method(),
    {
        self.send_method.as_str()
    }

    /// The `Authorization` header value sent with replies, if any.
    pub fn auth_header(&self) -> (r: Option<&str>)
        ensures
            match r {
                Some(a) => self.spec_auth_header() == Some(a@),
                None => self.spec_auth_header() is None,
            },
    {
        match &self.auth_header {
            Some(a) => Some(a.as_str()),
            None => None,
        }
    }
}

// ---------------------------------------------------------------------------
// Signatures
// ---------------------------------------------------------------------------

/// Whether a request body with the given signature header is accepted: with
/// no secret configured every request is; with one, the header must be
/// present and, after any leading `sha256=` prefixes, be the hexadecimal
/// HMAC-SHA256 of the body under the secret's UTF-8 bytes.
pub open spec fn signature_accepted(
    secret: Option<Seq<char>>,
    body: Seq<u8>,
    signature: Option<Seq<char>>,
) -> bool {
    match secret {
        None => true,
        Some(key) => match signature {
            None => false,
            Some(sig) => match hex_decoded(without_leading(sig, SIGNATURE_PREFIX@)) {
                Some(tag) => tag == hmac_sha256_tag(vstd::utf8::encode_utf8(key), body),
                None => false,
            },
        },
    }
}

impl WebhookChannel {
    /// Verifies an incoming request's signature if a secret is configured.
    pub fn verify_signature(&self, body: &[u8], signature: Option<&str>) -> (ok: bool)
        ensures
            ok == signature_accepted(
                self.spec_secret(),
                body@,
                match signature {
                    Some(s) => Some(s@),
                    None => None,
                },
            ),
            self.spec_secret() is None ==> ok,
            match (self.spec_secret(), signature) {
                (Some(key), Some(sig)) => ok == (hex_decoded(without_leading(sig@, SIGNATURE_PREFIX@))
                    == Some(hmac_sha256_tag(vstd::utf8::encode_utf8(key), body@))),
                (Some(_), None) => !ok,
                (None, _) => ok,
            },
    {
        let secret = match &self.secret {
            Some(s) => s,
            None => return true,
        };
        let sig = match signature {
            Some(s) => s,
            None => return false,
        };
        let hex_text = trim_start_matches(sig, SIGNATURE_PREFIX);
        let expected = match hex_decode(hex_text.as_str()) {
            Some(v) => v,
            None => return false,
        };
        hmac_sha256_verify(secret.as_str().as_bytes(), body, expected.as_slice())
    }
}

// ---------------------------------------------------------------------------
// Outbound
// ---------------------------------------------------------------------------

/// A reply to send through the channel.
pub struct OutboundMessage {
    pub content: String,
    /// Who the reply is for; empty when nobody in particular.
    pub recipient: String,
    /// The thread the reply belongs to, if any.
    pub thread_ts: Option<String>,
}

/// Speech hints of an outbound event.
pub struct OutgoingWebhookTtsEvent {
    pub speak: bool,
    pub format: &'static str,
    pub interrupt_thinking: bool,
}

/// Outbound event envelope for receivers that want structured
/// text-to-speech behaviour.
///
/// `content` stays at the top level of the payload for backward
/// compatibility with older webhook callbacks; receivers that understand the
/// event can use it for routing, timeline correlation, and explicit speech
/// semantics.
pub struct OutgoingWebhookEvent {
    pub protocol: &'static str,
    pub event_type: &'static str,
    pub version: u8,
    pub timestamp_ms: u64,
    pub content_format: &'static str,
    pub tts: OutgoingWebhookTtsEvent,
}

/// An event of the given type at the given time, to be spoken as plain text,
/// interrupting any "thinking" feedback.
pub open spec fn is_speech_event(e: OutgoingWebhookEvent, event_type: Seq<char>, timestamp_ms: u64) -> bool {
    &&& e.protocol@ == EVENT_PROTOCOL@
    &&& e.event_type@ == event_type
    &&& e.version == 1
    &&& e.timestamp_ms == timestamp_ms
    &&& e.content_format@ == CONTENT_FORMAT@
    &&& e.tts.speak
    &&& e.tts.format@ == TTS_FORMAT@
    &&& e.tts.interrupt_thinking
}

fn speech_event(event_type: &'static str, timestamp_ms: u64) -> (e: OutgoingWebhookEvent)
    ensures
        is_speech_event(e, event_type@, timestamp_ms),
{
    OutgoingWebhookEvent {
        protocol: EVENT_PROTOCOL,
        event_type,
        version: 1,
        timestamp_ms,
        content_format: CONTENT_FORMAT,
        tts: OutgoingWebhookTtsEvent { speak: true, format: TTS_FORMAT, interrupt_thinking: true },
    }
}

impl OutgoingWebhookEvent {
    /// The event of a final assistant reply.
    pub fn assistant_response(timestamp_ms: u64) -> (e: OutgoingWebhookEvent)
        ensures
            is_speech_event(e, ASSISTANT_RESPONSE@, timestamp_ms),
    {
        speech_event(ASSISTANT_RESPONSE, timestamp_ms)
    }

    /// The event of an interim progress message.
    pub fn assistant_progress(timestamp_ms: u64) -> (e: OutgoingWebhookEvent)
        ensures
            is_speech_event(e, ASSISTANT_PROGRESS@, timestamp_ms),
    {
        speech_event(ASSISTANT_PROGRESS, timestamp_ms)
    }
}

/// Outgoing webhook payload.
pub struct OutgoingWebhook {
    pub content: String,
    pub thread_id: Option<String>,
    pub recipient: Option<String>,
    pub event: Option<OutgoingWebhookEvent>,
}

/// The HTTP method of an outbound request.
#[derive(PartialEq, Eq, Structural, Debug, Clone, Copy)]
pub enum HttpMethod {
    Post,
    Put,
}

/// An outbound request: where, how, with what authorization, and what.
pub struct OutgoingRequest {
    pub url: String,
    pub method: HttpMethod,
    pub authorization: Option<String>,
    pub payload: OutgoingWebhook,
}

/// The method for a configured method name: `PUT` for exactly `PUT`,
/// `POST` for anything else.
pub open spec fn method_for(configured: Seq<char>) -> HttpMethod {
    if configured == PUT_METHOD@ {
        HttpMethod::Put
    } else {
        HttpMethod::Post
    }
}

/// The recipient field of a payload: absent for an empty recipient.
pub open spec fn recipient_for(recipient: Seq<char>) -> Option<Seq<char>> {
    if recipient.len() == 0 {
        None
    } else {
        Some(recipient)
    }
}

impl WebhookChannel {
    /// The request that sends `message` with `event`: `None` when no send
    /// URL is configured (the message is skipped); otherwise a request to
    /// that URL, by `PUT` where the configured method is `PUT` and by
    /// `POST` otherwise, with the configured authorization, carrying the
    /// content, the thread, the recipient (left out when empty) and the
    /// event.
    pub fn outgoing_request(&self, message: &OutboundMessage, event: OutgoingWebhookEvent) -> (r:
        Option<OutgoingRequest>)
        ensures
            match r {
                None => self.spec_send_url() is None,
                Some(req) => {
                    &&& self.spec_send_url() == Some(req.url@)
                    &&& req.method == method_for(self.spec_send_method())
                    &&& (req.method == HttpMethod::Put) == (self.spec_send_method() == seq!['P', 'U', 'T'])
                    &&& opt_view(req.authorization) == self.spec_auth_header()
                    &&& req.payload.content@ == message.content@
                    &&& opt_view(req.payload.thread_id) == opt_view(message.thread_ts)
                    &&& opt_view(req.payload.recipient) == recipient_for(message.recipient@)
                    &&& req.payload.event == Some(event)
                },
            },
    {
        let url = match &self.send_url {
            Some(u) => u.clone(),
            None => return None,
        };
        proof {
            reveal_strlit("PUT");
            assert(PUT_METHOD@ == seq!['P', 'U', 'T']);
        }
        let method = if str_equal(self.send_method.as_str(), PUT_METHOD) {
            HttpMethod::Put
        } else {
            HttpMethod::Post
        };
        let recipient = if message.recipient.as_str().unicode_len() == 0 {
            None
        } else {
            Some(message.recipient.clone())
        };
        let payload = OutgoingWebhook {
            content: message.content.clone(),
            thread_id: clone_opt(&message.thread_ts),
            recipient,
            event: Some(event),
        };
        Some(OutgoingRequest { url, method, authorization: clone_opt(&self.auth_header), payload })
    }
}

// ---------------------------------------------------------------------------
// Inbound
// ---------------------------------------------------------------------------

/// A file attached to an incoming message.
pub struct MediaAttachment {
    pub file_name: String,
    pub data: Vec<u8>,
    pub mime_type: Option<String>,
}

/// The attachment that carries a voice event's metadata, encoded as JSON in
/// `data`.
pub fn voice_metadata_attachment(data: Vec<u8>) -> (a: MediaAttachment)
    ensures
        a.file_name@ == VOICE_EVENT_FILE_NAME@,
        a.data@ == data@,
        opt_view(a.mime_type) == Some(VOICE_EVENT_METADATA_MIME@),
{
    MediaAttachment {
        file_name: String::from_str(VOICE_EVENT_FILE_NAME),
        data,
        mime_type: Some(String::from_str(VOICE_EVENT_METADATA_MIME)),
    }
}

/// A message received by the channel, for the agent.
pub struct InboundMessage {
    pub id: String,
    pub sender: String,
    pub reply_target: String,
    pub content: String,
    pub channel: String,
    pub timestamp: u64,
    pub thread_ts: Option<String>,
    pub interruption_scope_id: Option<String>,
    pub attachments: Vec<MediaAttachment>,
}

/// The answer to an incoming webhook request.
#[derive(PartialEq, Eq, Structural, Debug, Clone, Copy)]
pub enum WebhookStatus {
    /// Accepted and handed to the agent.
    Accepted,
    /// The body is no valid payload, or its content is blank.
    BadRequest,
    /// A secret is configured and the signature is missing or wrong.
    Unauthorized,
    /// The agent's queue is closed.
    ServiceUnavailable,
}

/// The HTTP status code of each answer.
pub open spec fn status_code_of(s: WebhookStatus) -> u16 {
    match s {
        WebhookStatus::Accepted => 200,
        WebhookStatus::BadRequest => 400,
        WebhookStatus::Unauthorized => 401,
        WebhookStatus::ServiceUnavailable => 503,
    }
}

impl WebhookStatus {
    /// The HTTP status code of the answer.
    pub fn code(&self) -> (c: u16)
        ensures
            c == status_code_of(*self),
    {
        match self {
            WebhookStatus::Accepted => 200,
            WebhookStatus::BadRequest => 400,
            WebhookStatus::Unauthorized => 401,
            WebhookStatus::ServiceUnavailable => 503,
        }
    }
}

/// The decimal digits of `n`, most significant first, without leading zeros.
pub open spec fn decimal(n: nat) -> Seq<char>
    decreases n,
{
    if n < 10 {
        seq![(('0' as u32) + n) as char]
    } else {
        decimal(n / 10).push((('0' as u32) + n % 10) as char)
    }
}

fn digit_char(d: u64) -> (c: char)
    requires
        d < 10,
    ensures
        c == (('0' as u32) + d) as char,
{
    match d {
        0 => '0',
        1 => '1',
        2 => '2',
        3 => '3',
        4 => '4',
        5 => '5',
        6 => '6',
        7 => '7',
        8 => '8',
        _ => '9',
    }
}

fn push_decimal(out: &mut Vec<char>, n: u64)
    ensures
        final(out)@ == old(out)@ + decimal(n as nat),
    decreases n,
{
    if n < 10 {
        out.push(digit_char(n));
    } else {
        push_decimal(out, n / 10);
        out.push(digit_char(n % 10));
    }
}

/// The id of the `seq`-th accepted message: `webhook_` and `seq` in decimal.
pub open spec fn message_id(seq: u64) -> Seq<char> {
    MESSAGE_ID_PREFIX@ + decimal(seq as nat)
}

/// The id of the `seq`-th accepted message.
pub fn message_id_for(seq: u64) -> (id: String)
    ensures
        id@ == message_id(seq),
{
    let mut v = chars_of(MESSAGE_ID_PREFIX);
    push_decimal(&mut v, seq);
    string_from_chars(&v)
}

/// Incoming webhook payload: who sent it, what it says, the thread, and any
/// voice-event metadata, nested under `voice_event` or given at the top
/// level.
pub struct IncomingWebhook {
    pub sender: String,
    pub content: String,
    pub thread_id: Option<String>,
    pub voice_event: Option<IncomingVoiceEvent>,
    pub mode: Option<String>,
    pub stt_backend: Option<String>,
    pub stt_latency_ms: Option<u64>,
    pub latency_ms: Option<u64>,
    pub total_latency_ms: Option<u64>,
    pub audio_id: Option<String>,
    pub audio_path: Option<String>,
    pub timing: TimingMap,
    pub timings: TimingMap,
}

/// The voice event given at the top level of a payload.
pub open spec fn top_level_event(w: IncomingWebhook) -> VoiceEventView {
    VoiceEventView {
        mode: opt_view(w.mode),
        stt_backend: opt_view(w.stt_backend),
        stt_latency_ms: w.stt_latency_ms,
        latency_ms: w.latency_ms,
        total_latency_ms: w.total_latency_ms,
        audio_id: opt_view(w.audio_id),
        audio_path: opt_view(w.audio_path),
        timing: w.timing@,
        timings: w.timings@,
    }
}

/// The nested voice event of a payload, or an empty one.
pub open spec fn nested_event(w: IncomingWebhook) -> VoiceEventView {
    match w.voice_event {
        Some(e) => e@,
        None => VoiceEventView {
            mode: None,
            stt_backend: None,
            stt_latency_ms: None,
            latency_ms: None,
            total_latency_ms: None,
            audio_id: None,
            audio_path: None,
            timing: Seq::empty(),
            timings: Seq::empty(),
        },
    }
}

/// Whether `v` is the nested event `a` completed from the top-level event
/// `b`: each field from `a` where present, from `b` otherwise; each timing
/// map holding both, `b`'s values winning under the same key, in key order.
pub open spec fn completed_view(v: VoiceEventView, a: VoiceEventView, b: VoiceEventView) -> bool {
    &&& keys_sorted(v.timing)
    &&& keys_sorted(v.timings)
    &&& v.mode == first_present(a.mode, b.mode)
    &&& v.stt_backend == first_present(a.stt_backend, b.stt_backend)
    &&& v.stt_latency_ms == first_present(a.stt_latency_ms, b.stt_latency_ms)
    &&& v.latency_ms == first_present(a.latency_ms, b.latency_ms)
    &&& v.total_latency_ms == first_present(a.total_latency_ms, b.total_latency_ms)
    &&& v.audio_id == first_present(a.audio_id, b.audio_id)
    &&& v.audio_path == first_present(a.audio_path, b.audio_path)
    &&& entries_map(v.timing) == entries_map(a.timing).union_prefer_right(entries_map(b.timing))
    &&& entries_map(v.timings) == entries_map(a.timings).union_prefer_right(entries_map(b.timings))
}

/// Whether `e` is the nested event `a` completed from the top-level event `b`.
pub open spec fn completed_event(e: IncomingVoiceEvent, a: VoiceEventView, b: VoiceEventView) -> bool {
    completed_view(e@, a, b)
}

/// The nested event `a` completed from the top-level event `b` (there is
/// exactly one such event: see [`lemma_completed_unique`]).
pub open spec fn completed(a: VoiceEventView, b: VoiceEventView) -> VoiceEventView {
    choose|v: VoiceEventView| completed_view(v, a, b)
}

/// At most one event is the completion of `a` from `b`.
pub proof fn lemma_completed_unique(v1: VoiceEventView, v2: VoiceEventView, a: VoiceEventView, b: VoiceEventView)
    requires
        completed_view(v1, a, b),
        completed_view(v2, a, b),
    ensures
        v1 == v2,
{
    crate::timing::lemma_sorted_unique(v1.timing, v2.timing);
    crate::timing::lemma_sorted_unique(v1.timings, v2.timings);
}

/// Whether the completed event of `a` and `b` would carry nothing.
pub open spec fn completed_is_empty(a: VoiceEventView, b: VoiceEventView) -> bool {
    &&& first_present(a.mode, b.mode) is None
    &&& first_present(a.stt_backend, b.stt_backend) is None
    &&& first_present(a.stt_latency_ms, b.stt_latency_ms) is None
    &&& first_present(a.latency_ms, b.latency_ms) is None
    &&& first_present(a.total_latency_ms, b.total_latency_ms) is None
    &&& first_present(a.audio_id, b.audio_id) is None
    &&& first_present(a.audio_path, b.audio_path) is None
    &&& a.timing.len() == 0
    &&& b.timing.len() == 0
    &&& a.timings.len() == 0
    &&& b.timings.len() == 0
}

proof fn lemma_entries_map_empty(s: Seq<(Seq<char>, TimingValueView)>)
    ensures
        (entries_map(s).dom() == Set::<Seq<char>>::empty()) == (s.len() == 0),
{
    if s.len() > 0 {
        assert(entries_map(s).dom().contains(s[0].0));
    } else {
        assert(entries_map(s).dom() =~= Set::<Seq<char>>::empty());
    }
}

/// Whether `m` is the message for the accepted payload `w` under sequence
/// number `seq`: id `webhook_<seq>`, replies going to the thread where there
/// is one and to the sender otherwise, the trimmed content, and the given
/// time and attachments.
pub open spec fn frames_message(
    m: InboundMessage,
    w: IncomingWebhook,
    seq: u64,
    timestamp: u64,
    attachments: Seq<MediaAttachment>,
) -> bool {
    &&& m.id@ == message_id(seq)
    &&& m.sender@ == w.sender@
    &&& m.reply_target@ == match w.thread_id {
        Some(t) => t@,
        None => w.sender@,
    }
    &&& m.content@ == trim_ws(w.content@)
    &&& m.channel@ == CHANNEL_NAME@
    &&& m.timestamp == timestamp
    &&& opt_view(m.thread_ts) == opt_view(w.thread_id)
    &&& m.interruption_scope_id is None
    &&& m.attachments@ == attachments
}

impl IncomingWebhook {
    /// The voice event of the payload: the nested one completed from the
    /// top-level fields, or `None` where that carries nothing.
    pub fn voice_event(&self) -> (r: Option<IncomingVoiceEvent>)
        ensures
            match r {
                Some(e) => completed_event(e, nested_event(*self), top_level_event(*self))
                    && !completed_is_empty(nested_event(*self), top_level_event(*self)),
                None => completed_is_empty(nested_event(*self), top_level_event(*self)),
            },
    {
        let mut event = match &self.voice_event {
            Some(e) => e.clone(),
            None => IncomingVoiceEvent::empty(),
        };
        let top = IncomingVoiceEvent {
            mode: clone_opt(&self.mode),
            stt_backend: clone_opt(&self.stt_backend),
            stt_latency_ms: self.stt_latency_ms,
            latency_ms: self.latency_ms,
            total_latency_ms: self.total_latency_ms,
            audio_id: clone_opt(&self.audio_id),
            audio_path: clone_opt(&self.audio_path),
            timing: self.timing.clone(),
            timings: self.timings.clone(),
        };
        let ghost a = event@;
        let ghost b = top@;
        assert(a.timing =~= nested_event(*self).timing);
        assert(a.timings =~= nested_event(*self).timings);
        event.merge_missing(top);
        proof {
            use_type_invariant(&event.timing);
            use_type_invariant(&event.timings);
            lemma_entries_map_empty(a.timing);
            lemma_entries_map_empty(b.timing);
            lemma_entries_map_empty(a.timings);
            lemma_entries_map_empty(b.timings);
            lemma_entries_map_empty(event@.timing);
            lemma_entries_map_empty(event@.timings);
            let u = entries_map(a.timing).union_prefer_right(entries_map(b.timing));
            if u.dom() == Set::<Seq<char>>::empty() {
                assert(entries_map(a.timing).dom() =~= Set::<Seq<char>>::empty());
                assert(entries_map(b.timing).dom() =~= Set::<Seq<char>>::empty());
            }
            if a.timing.len() == 0 && b.timing.len() == 0 {
                assert(u.dom() =~= Set::<Seq<char>>::empty());
            }
            let u2 = entries_map(a.timings).union_prefer_right(entries_map(b.timings));
            if a.timings.len() == 0 && b.timings.len() == 0 {
                assert(u2.dom() =~= Set::<Seq<char>>::empty());
            }
            if u2.dom() == Set::<Seq<char>>::empty() {
                assert(entries_map(a.timings).dom() =~= Set::<Seq<char>>::empty());
                assert(entries_map(b.timings).dom() =~= Set::<Seq<char>>::empty());
            }
        }
        assert(a == nested_event(*self));
        assert(b == top_level_event(*self));
        if event.is_empty() {
            None
        } else {
            Some(event)
        }
    }

    /// The content that the agent's prompt sees: the message content,
    /// trimmed. Voice metadata is kept out of it; it travels as an
    /// attachment instead.
    pub fn content_with_voice_context(&self) -> (r: String)
        ensures
            r@ == trim_ws(self.content@),
            exists|a: int, b: int|
                0 <= a <= b <= self.content@.len() && r@ == self.content@.subrange(a, b)
                    && (forall|i: int| 0 <= i < a ==> crate::text::is_ws(#[trigger] self.content@[i]))
                    && (forall|i: int|
                    b <= i < self.content@.len() ==> crate::text::is_ws(#[trigger] self.content@[i]))
                    && (a < b ==> !crate::text::is_ws(self.content@[a]) && !crate::text::is_ws(
                    self.content@[b - 1],
                )),
    {
        proof {
            crate::text::lemma_trim_is_slice(self.content@);
        }
        trim(self.content.as_str())
    }

    /// The trace metadata of the payload's voice event: `None` when the
    /// completed event carries nothing, or nothing that survives cleaning.
    pub fn voice_event_metadata(&self) -> (r: Option<VoiceMetadata>)
        ensures
            match r {
                Some(m) => !completed_is_empty(nested_event(*self), top_level_event(*self))
                    && m@ == metadata_of(completed(nested_event(*self), top_level_event(*self)))
                    && !metadata_is_empty(m@),
                None => completed_is_empty(nested_event(*self), top_level_event(*self))
                    || metadata_is_empty(
                    metadata_of(completed(nested_event(*self), top_level_event(*self))),
                ),
            },
            match r {
                Some(m) => m.stt_latency_ms == first_present(
                    nested_event(*self).stt_latency_ms,
                    self.stt_latency_ms,
                ) && m.latency_ms == first_present(nested_event(*self).latency_ms, self.latency_ms)
                    && m.total_latency_ms == first_present(
                    nested_event(*self).total_latency_ms,
                    self.total_latency_ms,
                ),
                None => first_present(nested_event(*self).stt_latency_ms, self.stt_latency_ms) is None
                    && first_present(nested_event(*self).latency_ms, self.latency_ms) is None
                    && first_present(nested_event(*self).total_latency_ms, self.total_latency_ms)
                    is None,
            },
    {
        match self.voice_event() {
            Some(e) => {
                proof {
                    let a = nested_event(*self);
                    let b = top_level_event(*self);
                    lemma_completed_unique(completed(a, b), e@, a, b);
                }
                e.normalized_metadata()
            },
            None => None,
        }
    }

    /// Whether the content is more than whitespace.
    pub fn has_content(&self) -> (r: bool)
        ensures
            r == (trim_ws(self.content@).len() > 0),
    {
        let t = trim(self.content.as_str());
        t.as_str().unicode_len() > 0
    }

    /// The message handed to the agent for an accepted payload: id
    /// `webhook_<seq>`, replies going to the thread where there is one and
    /// to the sender otherwise, the trimmed content, and the given time and
    /// attachments.
    pub fn into_message(self, seq: u64, timestamp: u64, attachments: Vec<MediaAttachment>) -> (m:
        InboundMessage)
        ensures
            frames_message(m, self, seq, timestamp, attachments@),
            exists|a: int, b: int|
                0 <= a <= b <= self.content@.len() && m.content@ == self.content@.subrange(a, b)
                    && (forall|i: int| 0 <= i < a ==> crate::text::is_ws(#[trigger] self.content@[i]))
                    && (forall|i: int|
                    b <= i < self.content@.len() ==> crate::text::is_ws(#[trigger] self.content@[i]))
                    && (a < b ==> !crate::text::is_ws(self.content@[a]) && !crate::text::is_ws(
                    self.content@[b - 1],
                )),
    {
        proof {
            crate::text::lemma_trim_is_slice(self.content@);
        }
        let reply_target = match &self.thread_id {
            Some(t) => t.clone(),
            None => self.sender.clone(),
        };
        let content = trim(self.content.as_str());
        InboundMessage {
            id: message_id_for(seq),
            sender: self.sender,
            reply_target,
            content,
            channel: String::from_str(CHANNEL_NAME),
            timestamp,
            thread_ts: self.thread_id,
            interruption_scope_id: None,
            attachments,
        }
    }
}

// ---------------------------------------------------------------------------
// Time
// ---------------------------------------------------------------------------

/// Milliseconds since the Unix epoch as a `u64`, saturating at `u64::MAX`.
pub fn saturating_millis(ms: u128) -> (r: u64)
    ensures
        r == if ms <= u64::MAX as u128 {
            ms as u64
        } else {
            u64::MAX
        },
{
    if ms <= u64::MAX as u128 {
        ms as u64
    } else {
        u64::MAX
    }
}

/// The time elapsed since the Unix epoch, if the clock is past it.
fn since_unix_epoch() -> Option<core::time::Duration> {
    match std::time::SystemTime::now().duration_since(unix_epoch()) {
        Ok(d) => Some(d),
        Err(_) => None,
    }
}

/// A timestamp in milliseconds from a clock reading: the milliseconds since
/// the Unix epoch (saturating at `u64::MAX`), or 0 for a clock before it.
pub fn millis_since_epoch(reading: Option<u128>) -> (r: u64)
    ensures
        r == match reading {
            Some(ms) => if ms <= u64::MAX as u128 {
                ms as u64
            } else {
                u64::MAX
            },
            None => 0,
        },
{
    match reading {
        Some(ms) => saturating_millis(ms),
        None => 0,
    }
}

/// A timestamp in seconds from a clock reading: the whole seconds since the
/// Unix epoch, or 0 for a clock before it.
pub fn secs_since_epoch(reading: Option<u64>) -> (r: u64)
    ensures
        r == match reading {
            Some(s) => s,
            None => 0,
        },
{
    match reading {
        Some(s) => s,
        None => 0,
    }
}

/// Milliseconds since the Unix epoch: 0 when the clock is before it, and
/// `u64::MAX` when they do not fit.
pub fn unix_timestamp_ms() -> u64 {
    let reading = match since_unix_epoch() {
        Some(d) => Some(d.as_millis()),
        None => None,
    };
    millis_since_epoch(reading)
}

/// Whole seconds since the Unix epoch: 0 when the clock is before it.
pub fn unix_timestamp_secs() -> u64 {
    let reading = match since_unix_epoch() {
        Some(d) => Some(d.as_secs()),
        None => None,
    };
    secs_since_epoch(reading)
}

// ---------------------------------------------------------------------------
// Answering a request
// ---------------------------------------------------------------------------

/// The answer to an incoming request, checks taken in order: a signature
/// that is not accepted is answered `Unauthorized` before the body is
/// looked at; a body that is no payload, or whose content is blank, is
/// answered `BadRequest`; an accepted message (which alone takes a sequence
/// number) is answered `Accepted` when handed to the agent and
/// `ServiceUnavailable` when the agent's queue is closed.
pub open spec fn request_answer(
    signature_ok: bool,
    payload_content: Option<Seq<char>>,
    delivered: bool,
) -> WebhookStatus {
    if !signature_ok {
        WebhookStatus::Unauthorized
    } else {
        match payload_content {
            None => WebhookStatus::BadRequest,
            Some(c) => if trim_ws(c).len() == 0 {
                WebhookStatus::BadRequest
            } else if delivered {
                WebhookStatus::Accepted
            } else {
                WebhookStatus::ServiceUnavailable
            },
        }
    }
}

impl WebhookChannel {
    /// The first check on a request: `Some(Unauthorized)` where its
    /// signature is not accepted, `None` where the request may go on.
    pub fn signature_status(&self, body: &[u8], signature: Option<&str>) -> (r: Option<WebhookStatus>)
        ensures
            r == if signature_accepted(
                self.spec_secret(),
                body@,
                match signature {
                    Some(s) => Some(s@),
                    None => None,
                },
            ) {
                None::<WebhookStatus>
            } else {
                Some(WebhookStatus::Unauthorized)
            },
    {
        if self.verify_signature(body, signature) {
            None
        } else {
            Some(WebhookStatus::Unauthorized)
        }
    }
}

/// The second check on an admitted request, given its parsed payload (or
/// `None` where the body is no payload): `Some(BadRequest)` where there is
/// no payload or its content is blank, `None` where it is accepted.
pub fn accept(payload: Option<&IncomingWebhook>) -> (r: Option<WebhookStatus>)
    ensures
        r == match payload {
            None => Some(WebhookStatus::BadRequest),
            Some(p) => if trim_ws(p.content@).len() > 0 {
                None::<WebhookStatus>
            } else {
                Some(WebhookStatus::BadRequest)
            },
        },
{
    match payload {
        None => Some(WebhookStatus::BadRequest),
        Some(p) => if p.has_content() {
            None
        } else {
            Some(WebhookStatus::BadRequest)
        },
    }
}

/// The answer to an accepted request once its message was offered to the
/// agent: `Accepted` where it was taken, `ServiceUnavailable` otherwise.
pub fn delivery_status(delivered: bool) -> (s: WebhookStatus)
    ensures
        s == if delivered {
            WebhookStatus::Accepted
        } else {
            WebhookStatus::ServiceUnavailable
        },
{
    if delivered {
        WebhookStatus::Accepted
    } else {
        WebhookStatus::ServiceUnavailable
    }
}

/// The sequence number after `counter`, wrapping at `u64::MAX` as an
/// atomic counter's `fetch_add(1)` does.
pub open spec fn next_counter(counter: u64) -> u64 {
    if counter == u64::MAX {
        0
    } else {
        (counter + 1) as u64
    }
}

/// The outcome of one incoming request.
pub struct Received {
    /// The message for the agent, or the answer refusing the request.
    pub outcome: Result<InboundMessage, WebhookStatus>,
    /// The sequence counter after the request.
    pub counter: u64,
}

impl WebhookChannel {
    /// One incoming request, taken from its body, signature header and
    /// parsed payload (`None` where the body is no payload) to its outcome,
    /// with the sequence counter standing at `counter`: the checks run in the
    /// order of [`request_answer`]; a refused request gets that answer and
    /// leaves the counter as it is; an accepted one gets the message framed
    /// under sequence number `counter`, and the counter moves on by one.
    pub fn receive(
        &self,
        body: &[u8],
        signature: Option<&str>,
        payload: Option<IncomingWebhook>,
        counter: u64,
        timestamp: u64,
        attachments: Vec<MediaAttachment>,
    ) -> (r: Received)
        ensures
            ({
                let answer = request_answer(
                    signature_accepted(
                        self.spec_secret(),
                        body@,
                        match signature {
                            Some(s) => Some(s@),
                            None => None,
                        },
                    ),
                    match payload {
                        Some(p) => Some(p.content@),
                        None => None,
                    },
                    true,
                );
                &&& (r.outcome is Ok) == (answer == WebhookStatus::Accepted)
                &&& r.outcome matches Err(s) ==> s == answer
                &&& r.outcome matches Ok(m) ==> frames_message(
                    m,
                    payload.unwrap(),
                    counter,
                    timestamp,
                    attachments@,
                )
                &&& r.counter == if r.outcome is Ok {
                    next_counter(counter)
                } else {
                    counter
                }
            }),
    {
        if let Some(refused) = self.signature_status(body, signature) {
            return Received { outcome: Err(refused), counter };
        }
        if let Some(refused) = accept(payload.as_ref()) {
            return Received { outcome: Err(refused), counter };
        }
        let p = match payload {
            Some(p) => p,
            None => return Received { outcome: Err(WebhookStatus::BadRequest), counter },
        };
        let next = if counter == u64::MAX {
            0
        } else {
            counter + 1
        };
        Received { outcome: Ok(p.into_message(counter, timestamp, attachments)), counter: next }
    }
}

// ---------------------------------------------------------------------------
// Answers to sending
// ---------------------------------------------------------------------------

/// The start of the error for a refused reply.
pub const SEND_FAILED_PREFIX: &'static str = "Webhook send failed (";

/// What stands between the status and the body in that error.
pub const SEND_FAILED_SEPARATOR: &'static str = "): ";

/// The outcome of sending a reply, from whether the receiver's status was a
/// success, the status as text and the body it answered with: `Ok` on
/// success, otherwise the error `Webhook send failed (<status>): <body>`.
pub fn send_outcome(success: bool, status_text: &str, body: &str) -> (r: Result<(), String>)
    ensures
        (r is Ok) == success,
        r matches Err(e) ==> e@ == SEND_FAILED_PREFIX@ + status_text@ + SEND_FAILED_SEPARATOR@
            + body@,
{
    if success {
        return Ok(());
    }
    let mut e = String::from_str(SEND_FAILED_PREFIX);
    e.append(status_text);
    e.append(SEND_FAILED_SEPARATOR);
    e.append(body);
    Err(e)
}

/// Taken in order, the three checks give the request's answer: `signature_status`'s
/// refusal where there is one, then `accept`'s, then the delivery's.
pub proof fn lemma_checks_give_answer(
    secret: Option<Seq<char>>,
    body: Seq<u8>,
    signature: Option<Seq<char>>,
    payload_content: Option<Seq<char>>,
    delivered: bool,
)
    ensures
        !signature_accepted(secret, body, signature) ==> request_answer(
            signature_accepted(secret, body, signature),
            payload_content,
            delivered,
        ) == WebhookStatus::Unauthorized,
        signature_accepted(secret, body, signature) && (payload_content is None || trim_ws(
            payload_content.unwrap(),
        ).len() == 0) ==> request_answer(true, payload_content, delivered)
            == WebhookStatus::BadRequest,
        payload_content matches Some(c) && trim_ws(c).len() > 0 ==> request_answer(
            true,
            payload_content,
            delivered,
        ) == (if delivered {
            WebhookStatus::Accepted
        } else {
            WebhookStatus::ServiceUnavailable
        }),
{
}

// ---------------------------------------------------------------------------
// Laws
// ---------------------------------------------------------------------------

/// The listen path always starts with `/`: a configured path that does is
/// kept as it is, one that does not gets a `/` in front, and no path means
/// `/webhook`. Normalising a normalised path changes nothing.
pub proof fn lemma_listen_path(path: Option<Seq<char>>)
    ensures
        normalized_listen_path(path).len() > 0,
        normalized_listen_path(path)[0] == '/',
        match path {
            None => normalized_listen_path(path) == DEFAULT_LISTEN_PATH@,
            Some(p) => if p.len() > 0 && p[0] == '/' {
                normalized_listen_path(path) == p
            } else {
                normalized_listen_path(path) == seq!['/'] + p
            },
        },
        normalized_listen_path(Some(normalized_listen_path(path))) == normalized_listen_path(path),
{
    reveal_strlit("/webhook");
    assert(DEFAULT_LISTEN_PATH@ == "/webhook"@);
}

/// Completeness and soundness of signature checks, for every body: with a
/// secret, a signature is accepted exactly when its hexadecimal text (after
/// any leading `sha256=` prefixes) decodes to the HMAC-SHA256 tag of the
/// whole body under the secret's UTF-8 bytes, whatever bytes the body holds.
pub proof fn lemma_signature_complete(secret: Seq<char>, body: Seq<u8>, sig: Seq<char>)
    ensures
        hex_decoded(without_leading(sig, SIGNATURE_PREFIX@)) == Some(
            hmac_sha256_tag(vstd::utf8::encode_utf8(secret), body),
        ) ==> signature_accepted(Some(secret), body, Some(sig)),
        signature_accepted(Some(secret), body, Some(sig)) ==> hex_decoded(
            without_leading(sig, SIGNATURE_PREFIX@),
        ) == Some(hmac_sha256_tag(vstd::utf8::encode_utf8(secret), body)),
{
}

/// The outbound method is `PUT` exactly when the configured method is the
/// text `PUT`; any other method, the default `POST` among them, gives `POST`.
pub proof fn lemma_put_only_for_put(configured: Seq<char>)
    ensures
        (method_for(configured) == HttpMethod::Put) == (configured == seq!['P', 'U', 'T']),
        (method_for(configured) == HttpMethod::Post) == (configured != seq!['P', 'U', 'T']),
        method_for(DEFAULT_SEND_METHOD@) == HttpMethod::Post,
{
    reveal_strlit("PUT");
    reveal_strlit("POST");
    assert(PUT_METHOD@ == seq!['P', 'U', 'T']);
    assert(DEFAULT_SEND_METHOD@ == seq!['P', 'O', 'S', 'T']);
    assert(DEFAULT_SEND_METHOD@ != seq!['P', 'U', 'T']) by {
        assert(DEFAULT_SEND_METHOD@.len() != 3);
    }
}

/// Without a secret every request is accepted, signature or not.
pub proof fn lemma_no_secret_accepts(body: Seq<u8>, signature: Option<Seq<char>>)
    ensures
        signature_accepted(None, body, signature),
{
}

/// With a secret, a request without a signature is refused.
pub proof fn lemma_secret_needs_signature(secret: Seq<char>, body: Seq<u8>)
    ensures
        !signature_accepted(Some(secret), body, None),
{
}

/// The `sha256=` prefix of a signature is optional: with or without it the
/// same signatures are accepted.
pub proof fn lemma_signature_prefix_optional(secret: Seq<char>, body: Seq<u8>, sig: Seq<char>)
    ensures
        signature_accepted(Some(secret), body, Some(SIGNATURE_PREFIX@ + sig))
            == signature_accepted(Some(secret), body, Some(sig)),
{
    reveal_strlit("sha256=");
    assert(SIGNATURE_PREFIX@ == "sha256="@);
    let full = SIGNATURE_PREFIX@ + sig;
    assert(full.take(SIGNATURE_PREFIX@.len() as int) == SIGNATURE_PREFIX@);
    assert(full.skip(SIGNATURE_PREFIX@.len() as int) == sig);
}

/// A signature accepted for a body under a secret is the body's tag there:
/// two bodies with different tags are never both accepted with one
/// signature.
pub proof fn lemma_accepted_signature_is_tag(secret: Seq<char>, body: Seq<u8>, sig: Seq<char>)
    requires
        signature_accepted(Some(secret), body, Some(sig)),
    ensures
        hex_decoded(without_leading(sig, SIGNATURE_PREFIX@)) == Some(
            hmac_sha256_tag(vstd::utf8::encode_utf8(secret), body),
        ),
{
}

proof fn lemma_decimal_len(n: nat)
    ensures
        decimal(n).len() >= 1,
        n >= 10 ==> decimal(n).len() >= 2,
    decreases n,
{
    if n >= 10 {
        lemma_decimal_len(n / 10);
    }
}

/// Different numbers have different decimal forms.
pub proof fn lemma_decimal_injective(a: nat, b: nat)
    requires
        a != b,
    ensures
        decimal(a) != decimal(b),
    decreases a,
{
    lemma_decimal_len(a);
    lemma_decimal_len(b);
    if decimal(a) == decimal(b) {
        if a < 10 && b < 10 {
            assert(decimal(a)[0] == decimal(b)[0]);
        } else if a >= 10 && b >= 10 {
            assert(decimal(a).last() == decimal(b).last());
            assert(a % 10 == b % 10);
            assert(decimal(a).drop_last() == decimal(a / 10));
            assert(decimal(b).drop_last() == decimal(b / 10));
            lemma_decimal_injective(a / 10, b / 10);
        }
    }
}

/// Messages accepted under different sequence numbers get different ids.
pub proof fn lemma_message_ids_distinct(a: u64, b: u64)
    requires
        a != b,
    ensures
        message_id(a) != message_id(b),
{
    lemma_decimal_injective(a as nat, b as nat);
    if message_id(a) == message_id(b) {
        let n = MESSAGE_ID_PREFIX@.len() as int;
        assert(message_id(a).skip(n) == decimal(a as nat));
        assert(message_id(b).skip(n) == decimal(b as nat));
    }
}

} // verus!
