//! Metadata that push-to-talk voice clients may attach to a webhook message:
//! which mode and speech-to-text backend produced the text, latencies, an
//! utterance id, and timing breakdowns. The metadata is kept out of the
//! prompt and normalised into a compact, single-line form for tracing.

use vstd::prelude::*;
use crate::text::{is_collapsed, lemma_collapse_is_collapsed, lemma_collapse_idempotent, lemma_truncated_keeps_collapsed, lemma_truncated_props, chars_of, collapse_whitespace_chars, collapse_ws, string_from_chars, truncate_char_vec, truncated};
use crate::timing::{TimingMap, TimingValue, TimingValueView, entry_view};

verus! {

/// The longest a metadata value may be, in characters, once cleaned.
pub const MAX_METADATA_VALUE_CHARS: usize = 160;

/// A metadata value on one line: its words joined by single spaces (line
/// breaks and tabs included among the whitespace), cut to
/// [`MAX_METADATA_VALUE_CHARS`] characters with a trailing `…`.
pub open spec fn clean_text(s: Seq<char>) -> Seq<char> {
    truncated(collapse_ws(s), MAX_METADATA_VALUE_CHARS as nat)
}

/// `value` on one line, its words joined by single spaces, cut to
/// [`MAX_METADATA_VALUE_CHARS`] characters with a trailing `…`.
pub fn clean_metadata_text(value: &str) -> (r: String)
    ensures
        r@ == clean_text(value@),
{
    let v = chars_of(value);
    let c = collapse_whitespace_chars(&v);
    let t = truncate_char_vec(c, MAX_METADATA_VALUE_CHARS);
    string_from_chars(&t)
}

/// A timing value as it goes into trace metadata: strings cleaned, arrays
/// and objects turned into their cleaned JSON text, everything else kept.
pub open spec fn traced_value(v: TimingValueView) -> TimingValueView {
    match v {
        TimingValueView::Text(s) => TimingValueView::Text(clean_text(s)),
        TimingValueView::Compound(s) => TimingValueView::Text(clean_text(s)),
        _ => v,
    }
}

/// `value` as it goes into trace metadata.
pub fn metadata_value_for_trace(value: &TimingValue) -> (r: TimingValue)
    ensures
        r@ == traced_value(value@),
{
    match value {
        TimingValue::Null => TimingValue::Null,
        TimingValue::Bool(b) => TimingValue::Bool(*b),
        TimingValue::Number(n) => TimingValue::Number(n.clone()),
        TimingValue::Text(s) => TimingValue::Text(clean_metadata_text(s.as_str())),
        TimingValue::Compound(s) => TimingValue::Text(clean_metadata_text(s.as_str())),
    }
}

/// `m` with the entries of `s` added in order under their cleaned keys,
/// with traced values; entries whose key cleans to nothing are left out,
/// and a later entry replaces an earlier one under the same cleaned key.
pub open spec fn traced_timing_from(
    m: Map<Seq<char>, TimingValueView>,
    s: Seq<(Seq<char>, TimingValueView)>,
) -> Map<Seq<char>, TimingValueView>
    decreases s.len(),
{
    if s.len() == 0 {
        m
    } else {
        let prev = traced_timing_from(m, s.drop_last());
        let k = clean_text(s.last().0);
        if k.len() > 0 {
            prev.insert(k, traced_value(s.last().1))
        } else {
            prev
        }
    }
}

/// The trace form of the timing entries `s`, walked in order.
pub open spec fn traced_timing(s: Seq<(Seq<char>, TimingValueView)>) -> Map<
    Seq<char>,
    TimingValueView,
> {
    traced_timing_from(Map::empty(), s)
}

/// The mathematical form of an optional string.
pub open spec fn opt_view(o: Option<String>) -> Option<Seq<char>> {
    match o {
        Some(s) => Some(s@),
        None => None,
    }
}

/// `a` where present, otherwise `b`.
pub open spec fn first_present<T>(a: Option<T>, b: Option<T>) -> Option<T> {
    match a {
        Some(_) => a,
        None => b,
    }
}

/// A cleaned optional string field: present only where the cleaned text is
/// not empty.
pub open spec fn cleaned_field(o: Option<Seq<char>>) -> Option<Seq<char>> {
    match o {
        Some(s) => if clean_text(s).len() > 0 {
            Some(clean_text(s))
        } else {
            None
        },
        None => None,
    }
}

fn clone_opt_string(o: &Option<String>) -> (r: Option<String>)
    ensures
        opt_view(r) == opt_view(*o),
{
    match o {
        Some(s) => Some(s.clone()),
        None => None,
    }
}

/// A string field as it goes into trace metadata: cleaned, and left out
/// where it is absent or cleans to nothing.
pub fn clean_field(o: &Option<String>) -> (r: Option<String>)
    ensures
        opt_view(r) == cleaned_field(opt_view(*o)),
{
    match o {
        Some(s) => {
            let c = clean_metadata_text(s.as_str());
            if c.as_str().unicode_len() > 0 {
                Some(c)
            } else {
                None
            }
        },
        None => None,
    }
}

/// Optional metadata supplied by local push-to-talk voice clients.
///
/// This keeps the generic webhook payload backward-compatible while allowing
/// voice senders to include speech-to-text and runtime details that the
/// agent can use for spoken UX decisions and trace correlation.
pub struct IncomingVoiceEvent {
    /// Interaction mode, e.g. `agent`, `radio_command`, or `confirmation`.
    pub mode: Option<String>,
    /// Speech-to-text backend that produced the content, e.g. `sherpa`.
    pub stt_backend: Option<String>,
    /// Transcription latency in milliseconds.
    pub stt_latency_ms: Option<u64>,
    /// End-to-end or sender-observed latency in milliseconds.
    pub latency_ms: Option<u64>,
    /// Full turn latency where the sender tells it apart from `latency_ms`.
    pub total_latency_ms: Option<u64>,
    /// Stable audio or utterance id for trace correlation.
    pub audio_id: Option<String>,
    /// Local audio path or id, for debugging; metadata only, never read.
    pub audio_path: Option<String>,
    /// Timing breakdown supplied by the client, e.g. `{record_ms, stt_ms}`.
    pub timing: TimingMap,
    /// The same, under the other name some clients use.
    pub timings: TimingMap,
}

/// The mathematical form of an [`IncomingVoiceEvent`].
pub struct VoiceEventView {
    pub mode: Option<Seq<char>>,
    pub stt_backend: Option<Seq<char>>,
    pub stt_latency_ms: Option<u64>,
    pub latency_ms: Option<u64>,
    pub total_latency_ms: Option<u64>,
    pub audio_id: Option<Seq<char>>,
    pub audio_path: Option<Seq<char>>,
    pub timing: Seq<(Seq<char>, TimingValueView)>,
    pub timings: Seq<(Seq<char>, TimingValueView)>,
}

impl View for IncomingVoiceEvent {
    type V = VoiceEventView;

    open spec fn view(&self) -> VoiceEventView {
        VoiceEventView {
            mode: opt_view(self.mode),
            stt_backend: opt_view(self.stt_backend),
            stt_latency_ms: self.stt_latency_ms,
            latency_ms: self.latency_ms,
            total_latency_ms: self.total_latency_ms,
            audio_id: opt_view(self.audio_id),
            audio_path: opt_view(self.audio_path),
            timing: self.timing@,
            timings: self.timings@,
        }
    }
}

/// Whether an event carries nothing at all.
pub open spec fn event_is_empty(e: VoiceEventView) -> bool {
    &&& e.mode is None
    &&& e.stt_backend is None
    &&& e.stt_latency_ms is None
    &&& e.latency_ms is None
    &&& e.total_latency_ms is None
    &&& e.audio_id is None
    &&& e.audio_path is None
    &&& e.timing.len() == 0
    &&& e.timings.len() == 0
}

/// The trace metadata of an event, as a value per field.
pub struct VoiceMetadataView {
    pub mode: Option<Seq<char>>,
    pub stt_backend: Option<Seq<char>>,
    pub stt_latency_ms: Option<u64>,
    pub latency_ms: Option<u64>,
    pub total_latency_ms: Option<u64>,
    pub audio_id: Option<Seq<char>>,
    pub audio_path: Option<Seq<char>>,
    pub timing: Map<Seq<char>, TimingValueView>,
}

/// The trace metadata of `e`: string fields cleaned (and dropped where they
/// clean to nothing), numbers kept, and both timing maps traced into one,
/// `timing` first and `timings` after it.
pub open spec fn metadata_of(e: VoiceEventView) -> VoiceMetadataView {
    VoiceMetadataView {
        mode: cleaned_field(e.mode),
        stt_backend: cleaned_field(e.stt_backend),
        stt_latency_ms: e.stt_latency_ms,
        latency_ms: e.latency_ms,
        total_latency_ms: e.total_latency_ms,
        audio_id: cleaned_field(e.audio_id),
        audio_path: cleaned_field(e.audio_path),
        timing: traced_timing(e.timing + e.timings),
    }
}

/// Each latency of the trace metadata is the event's latency of the same
/// name, and metadata with nothing to say comes only from an event without
/// latencies.
pub proof fn lemma_metadata_keeps_latencies(e: VoiceEventView)
    ensures
        metadata_of(e).stt_latency_ms == e.stt_latency_ms,
        metadata_of(e).latency_ms == e.latency_ms,
        metadata_of(e).total_latency_ms == e.total_latency_ms,
        metadata_is_empty(metadata_of(e)) ==> e.stt_latency_ms is None && e.latency_ms is None
            && e.total_latency_ms is None,
{
}

/// Whether trace metadata has nothing to say.
pub open spec fn metadata_is_empty(m: VoiceMetadataView) -> bool {
    &&& m.mode is None
    &&& m.stt_backend is None
    &&& m.stt_latency_ms is None
    &&& m.latency_ms is None
    &&& m.total_latency_ms is None
    &&& m.audio_id is None
    &&& m.audio_path is None
    &&& m.timing.dom() == Set::<Seq<char>>::empty()
}

/// Normalised voice metadata for tracing: cleaned single-line strings,
/// latencies, and one merged timing map.
pub struct VoiceMetadata {
    pub mode: Option<String>,
    pub stt_backend: Option<String>,
    pub stt_latency_ms: Option<u64>,
    pub latency_ms: Option<u64>,
    pub total_latency_ms: Option<u64>,
    pub audio_id: Option<String>,
    pub audio_path: Option<String>,
    pub timing: TimingMap,
}

impl View for VoiceMetadata {
    type V = VoiceMetadataView;

    open spec fn view(&self) -> VoiceMetadataView {
        VoiceMetadataView {
            mode: opt_view(self.mode),
            stt_backend: opt_view(self.stt_backend),
            stt_latency_ms: self.stt_latency_ms,
            latency_ms: self.latency_ms,
            total_latency_ms: self.total_latency_ms,
            audio_id: opt_view(self.audio_id),
            audio_path: opt_view(self.audio_path),
            timing: self.timing.as_map(),
        }
    }
}

impl IncomingVoiceEvent {
    /// An event that carries nothing.
    pub fn empty() -> (e: IncomingVoiceEvent)
        ensures
            event_is_empty(e@),
    {
        IncomingVoiceEvent {
            mode: None,
            stt_backend: None,
            stt_latency_ms: None,
            latency_ms: None,
            total_latency_ms: None,
            audio_id: None,
            audio_path: None,
            timing: TimingMap::new(),
            timings: TimingMap::new(),
        }
    }

    /// Whether the event carries nothing at all.
    pub fn is_empty(&self) -> (r: bool)
        ensures
            r == event_is_empty(self@),
    {
        self.mode.is_none() && self.stt_backend.is_none() && self.stt_latency_ms.is_none()
            && self.latency_ms.is_none() && self.total_latency_ms.is_none()
            && self.audio_id.is_none() && self.audio_path.is_none() && self.timing.is_empty()
            && self.timings.is_empty()
    }

    /// Fills every field that this event lacks from `other`; the timing maps
    /// take all of `other`'s entries, which replace this event's under the
    /// same key.
    pub fn merge_missing(&mut self, other: IncomingVoiceEvent)
        ensures
            final(self)@.mode == first_present(old(self)@.mode, other@.mode),
            final(self)@.stt_backend == first_present(old(self)@.stt_backend, other@.stt_backend),
            final(self)@.stt_latency_ms == first_present(
                old(self)@.stt_latency_ms,
                other@.stt_latency_ms,
            ),
            final(self)@.latency_ms == first_present(old(self)@.latency_ms, other@.latency_ms),
            final(self)@.total_latency_ms == first_present(
                old(self)@.total_latency_ms,
                other@.total_latency_ms,
            ),
            final(self)@.audio_id == first_present(old(self)@.audio_id, other@.audio_id),
            final(self)@.audio_path == first_present(old(self)@.audio_path, other@.audio_path),
            final(self).timing.as_map() == old(self).timing.as_map().union_prefer_right(
                other.timing.as_map(),
            ),
            final(self).timings.as_map() == old(self).timings.as_map().union_prefer_right(
                other.timings.as_map(),
            ),
    {
        if self.mode.is_none() {
            self.mode = other.mode;
        }
        if self.stt_backend.is_none() {
            self.stt_backend = other.stt_backend;
        }
        if self.stt_latency_ms.is_none() {
            self.stt_latency_ms = other.stt_latency_ms;
        }
        if self.latency_ms.is_none() {
            self.latency_ms = other.latency_ms;
        }
        if self.total_latency_ms.is_none() {
            self.total_latency_ms = other.total_latency_ms;
        }
        if self.audio_id.is_none() {
            self.audio_id = other.audio_id;
        }
        if self.audio_path.is_none() {
            self.audio_path = other.audio_path;
        }
        self.timing.extend(other.timing);
        self.timings.extend(other.timings);
    }
}

impl IncomingVoiceEvent {
    /// The event's metadata for tracing: `None` when, once cleaned, nothing
    /// is left to report.
    pub fn normalized_metadata(&self) -> (r: Option<VoiceMetadata>)
        ensures
            match r {
                Some(m) => m@ == metadata_of(self@) && !metadata_is_empty(metadata_of(self@)),
                None => metadata_is_empty(metadata_of(self@)),
            },
            match r {
                Some(m) => m.stt_latency_ms == self.stt_latency_ms && m.latency_ms == self.latency_ms
                    && m.total_latency_ms == self.total_latency_ms,
                None => self.stt_latency_ms is None && self.latency_ms is None
                    && self.total_latency_ms is None,
            },
    {
        let ghost all = self.timing@ + self.timings@;
        let mut timing = TimingMap::new();
        let first = self.timing.entries();
        let mut i: usize = 0;
        while i < first.len()
            invariant
                i <= first.len(),
                first@.map_values(|e: (String, TimingValue)| entry_view(e)) == self.timing@,
                all == self.timing@ + self.timings@,
                timing.as_map() == traced_timing_from(Map::empty(), all.take(i as int)),
            decreases first.len() - i,
        {
            assert(all[i as int] == entry_view(first@[i as int]));
            let key = clean_metadata_text(first[i].0.as_str());
            if key.as_str().unicode_len() > 0 {
                timing.insert(key, metadata_value_for_trace(&first[i].1));
            }
            assert(all.take(i + 1).drop_last() == all.take(i as int));
            i = i + 1;
        }
        let second = self.timings.entries();
        let n = first.len();
        let mut j: usize = 0;
        while j < second.len()
            invariant
                j <= second.len(),
                n == self.timing@.len(),
                second@.map_values(|e: (String, TimingValue)| entry_view(e)) == self.timings@,
                all == self.timing@ + self.timings@,
                timing.as_map() == traced_timing_from(Map::empty(), all.take(n + j)),
            decreases second.len() - j,
        {
            assert(all[n + j] == entry_view(second@[j as int]));
            let key = clean_metadata_text(second[j].0.as_str());
            if key.as_str().unicode_len() > 0 {
                timing.insert(key, metadata_value_for_trace(&second[j].1));
            }
            assert(all.take(n + j + 1).drop_last() == all.take(n + j));
            j = j + 1;
        }
        assert(all.take(n + second.len()) == all);
        let m = VoiceMetadata {
            mode: clean_field(&self.mode),
            stt_backend: clean_field(&self.stt_backend),
            stt_latency_ms: self.stt_latency_ms,
            latency_ms: self.latency_ms,
            total_latency_ms: self.total_latency_ms,
            audio_id: clean_field(&self.audio_id),
            audio_path: clean_field(&self.audio_path),
            timing,
        };
        if m.mode.is_none() && m.stt_backend.is_none() && m.stt_latency_ms.is_none()
            && m.latency_ms.is_none() && m.total_latency_ms.is_none() && m.audio_id.is_none()
            && m.audio_path.is_none() && m.timing.is_empty() {
            None
        } else {
            Some(m)
        }
    }
}

impl Clone for IncomingVoiceEvent {
    fn clone(&self) -> (r: Self)
        ensures
            r@ == self@,
    {
        IncomingVoiceEvent {
            mode: clone_opt_string(&self.mode),
            stt_backend: clone_opt_string(&self.stt_backend),
            stt_latency_ms: self.stt_latency_ms,
            latency_ms: self.latency_ms,
            total_latency_ms: self.total_latency_ms,
            audio_id: clone_opt_string(&self.audio_id),
            audio_path: clone_opt_string(&self.audio_path),
            timing: self.timing.clone(),
            timings: self.timings.clone(),
        }
    }
}

impl Default for IncomingVoiceEvent {
    fn default() -> (e: Self)
        ensures
            event_is_empty(e@),
    {
        IncomingVoiceEvent::empty()
    }
}

// ---------------------------------------------------------------------------
// Laws
// ---------------------------------------------------------------------------

/// A cleaned metadata value is on one line with single spaces (no line
/// breaks or tabs survive), has at most [`MAX_METADATA_VALUE_CHARS`]
/// characters, and cleaning it again changes nothing.
pub proof fn lemma_clean_text(s: Seq<char>)
    ensures
        is_collapsed(clean_text(s)),
        clean_text(s).len() <= MAX_METADATA_VALUE_CHARS,
        clean_text(clean_text(s)) == clean_text(s),
{
    let c = crate::text::collapse_ws(s);
    lemma_collapse_is_collapsed(s);
    lemma_truncated_keeps_collapsed(c, MAX_METADATA_VALUE_CHARS as nat);
    lemma_truncated_props(c, MAX_METADATA_VALUE_CHARS as nat);
    let t = clean_text(s);
    lemma_collapse_idempotent(t);
    lemma_truncated_props(t, MAX_METADATA_VALUE_CHARS as nat);
}

/// Whether a timing value, once traced, is clean: strings are cleaned
/// metadata values and no array or object is left.
pub open spec fn traced_value_is_clean(v: TimingValueView) -> bool {
    match v {
        TimingValueView::Text(s) => is_collapsed(s) && s.len() <= MAX_METADATA_VALUE_CHARS,
        TimingValueView::Compound(_) => false,
        _ => true,
    }
}

/// Every key and value of a traced timing map is clean: keys are non-empty
/// cleaned texts and values are clean.
pub proof fn lemma_traced_timing_clean(
    m: Map<Seq<char>, TimingValueView>,
    s: Seq<(Seq<char>, TimingValueView)>,
)
    requires
        forall|k: Seq<char>|
            #[trigger] m.dom().contains(k) ==> is_collapsed(k) && 0 < k.len()
                <= MAX_METADATA_VALUE_CHARS && traced_value_is_clean(m[k]),
    ensures
        forall|k: Seq<char>| #[trigger]
            traced_timing_from(m, s).dom().contains(k) ==> is_collapsed(k) && 0 < k.len()
                <= MAX_METADATA_VALUE_CHARS && traced_value_is_clean(traced_timing_from(m, s)[k]),
    decreases s.len(),
{
    if s.len() > 0 {
        lemma_traced_timing_clean(m, s.drop_last());
        lemma_clean_text(s.last().0);
        match s.last().1 {
            TimingValueView::Text(t) => lemma_clean_text(t),
            TimingValueView::Compound(t) => lemma_clean_text(t),
            _ => {},
        }
        assert(traced_value_is_clean(traced_value(s.last().1)));
        let prev = traced_timing_from(m, s.drop_last());
        let k0 = clean_text(s.last().0);
        let cur = traced_timing_from(m, s);
        assert forall|k: Seq<char>| #[trigger] cur.dom().contains(k) implies is_collapsed(k) && 0
            < k.len() <= MAX_METADATA_VALUE_CHARS && traced_value_is_clean(cur[k]) by {
            if k0.len() > 0 && k == k0 {
            } else {
                assert(prev.dom().contains(k));
            }
        }
    }
}

/// The trace metadata of any event holds only clean values: present
/// strings are non-empty cleaned texts, and the timing map is clean.
pub proof fn lemma_metadata_clean(e: VoiceEventView)
    ensures
        forall|s: Seq<char>|
            metadata_of(e).mode == Some(s) || metadata_of(e).stt_backend == Some(s)
                || metadata_of(e).audio_id == Some(s) || metadata_of(e).audio_path == Some(s)
                ==> is_collapsed(s) && 0 < s.len() <= MAX_METADATA_VALUE_CHARS,
        forall|k: Seq<char>| #[trigger]
            metadata_of(e).timing.dom().contains(k) ==> is_collapsed(k) && 0 < k.len()
                <= MAX_METADATA_VALUE_CHARS && traced_value_is_clean(metadata_of(e).timing[k]),
{
    if let Some(x) = e.mode {
        lemma_clean_text(x);
    }
    if let Some(x) = e.stt_backend {
        lemma_clean_text(x);
    }
    if let Some(x) = e.audio_id {
        lemma_clean_text(x);
    }
    if let Some(x) = e.audio_path {
        lemma_clean_text(x);
    }
    lemma_traced_timing_clean(Map::empty(), e.timing + e.timings);
}

/// How a string field goes into trace metadata: a present value that cleans
/// to some text is there as that cleaned text; an absent value, or one that
/// cleans to nothing, is left out. This holds of each string field of
/// [`metadata_of`].
pub proof fn lemma_string_field(o: Option<Seq<char>>)
    ensures
        match o {
            Some(v) => if clean_text(v).len() > 0 {
                cleaned_field(o) == Some(clean_text(v))
            } else {
                cleaned_field(o) is None
            },
            None => cleaned_field(o) is None,
        },
        forall|e: VoiceEventView| #![trigger metadata_of(e)]
            metadata_of(e).mode == cleaned_field(e.mode) && metadata_of(e).stt_backend
                == cleaned_field(e.stt_backend) && metadata_of(e).audio_id == cleaned_field(
                e.audio_id,
            ) && metadata_of(e).audio_path == cleaned_field(e.audio_path),
{
}

} // verus!
