//! The trusted boundary around the MIDI container parser.  The `midly`
//! crate decodes the byte stream; everything after that call is verified
//! against the names and contracts declared here.

use vstd::prelude::*;

use midly::MetaMessage as MidlyMeta;
use midly::MidiMessage as MidlyMsg;
use midly::TrackEventKind as MidlyKind;

use crate::control::abs_tick_after;
use crate::control::lemma_abs_tick_monotonic;
use crate::control::track_ticks_in_range;
use crate::control::tracks_ticks_in_range;
use crate::control::tracks_view;
use crate::notes::event_kind_wf;
use crate::notes::tracks_events_wf;
use crate::types::MidiEventKind;
use crate::types::MidiFormat;
use crate::types::MidiLoadError;
use crate::types::TrackEvent;

verus! {

#[verifier::external_type_specification]
#[verifier::external_body]
pub struct ExSmf<'a>(midly::Smf<'a>);

/// Whether `midly::Smf::parse` accepts the byte buffer as a MIDI
/// container.  Parsing is a pure function of the bytes.
pub uninterp spec fn smf_parse_ok(bytes: Seq<u8>) -> bool;

/// What a parsed container holds: one event sequence per track, each
/// event a delta time and the kind this loader acts on.
pub uninterp spec fn smf_events(smf: midly::Smf<'static>) -> Seq<Seq<TrackEvent>>;

/// The parsed header: the track layout, and the ticks-per-quarter-note
/// division for metrical timing or `None` for SMPTE timing.
pub uninterp spec fn smf_header(smf: midly::Smf<'static>) -> (MidiFormat, Option<u16>);

/// The events a byte buffer parses to.  Parsing is a pure function of
/// the bytes: acceptance is decided on the header, a damaged track is
/// truncated the same way every time, and the tracks keep file order.
pub uninterp spec fn smf_events_of(bytes: Seq<u8>) -> Seq<Seq<TrackEvent>>;

/// The header a byte buffer parses to, under the same reading as
/// `smf_header`.
pub uninterp spec fn smf_header_of(bytes: Seq<u8>) -> (MidiFormat, Option<u16>);

/// The buffer parses with a metrical, non-zero ticks-per-quarter-note
/// division: what the timeline needs of a header.
pub open spec fn metrical_division_usable(bytes: Seq<u8>) -> bool {
    match smf_header_of(bytes).1 {
        Some(d) => d >= 1,
        None => false,
    }
}

/// Relies on `midly::Smf::parse`: it accepts exactly the buffers that
/// parse as a MIDI container, and header and events are functions of the
/// bytes alone.  `make_static` only replaces byte-string payloads, which
/// this loader maps to `Other` events anyway.
#[verifier::external_body]
fn parse_smf(bytes: &[u8]) -> (r: Option<midly::Smf<'static>>)
    ensures
        r is Some <==> smf_parse_ok(bytes@),
        r matches Some(s) ==> smf_events(s) == smf_events_of(bytes@) && smf_header(s)
            == smf_header_of(bytes@),
{
    match midly::Smf::parse(bytes) {
        Ok(smf) => Some(smf.make_static()),
        Err(_) => None,
    }
}

/// Relies on `midly::Smf`'s `tracks` field: how many tracks were parsed.
#[verifier::external_body]
fn smf_track_count(smf: &midly::Smf<'static>) -> (n: usize)
    ensures
        n == smf_events(*smf).len(),
{
    smf.tracks.len()
}

/// Relies on `midly::Smf`'s `tracks` field: how many events one track holds.
#[verifier::external_body]
fn smf_track_len(smf: &midly::Smf<'static>, t: usize) -> (n: usize)
    requires
        t < smf_events(*smf).len(),
    ensures
        n == smf_events(*smf)[t as int].len(),
{
    smf.tracks[t].len()
}

/// Relies on `midly::TrackEvent`'s `delta` field, a 28-bit variable-length
/// integer (`midly`'s `u28` masks the upper bits).
#[verifier::external_body]
fn smf_event_delta(smf: &midly::Smf<'static>, t: usize, i: usize) -> (d: u32)
    requires
        t < smf_events(*smf).len(),
        i < smf_events(*smf)[t as int].len(),
    ensures
        d == smf_events(*smf)[t as int][i as int].delta,
        d < 0x1000_0000,
{
    smf.tracks[t][i].delta.as_int()
}

/// Relies on `midly::TrackEvent`'s `kind` field.  Channel, key and
/// velocity are within MIDI's 4- and 7-bit ranges and a tempo within its
/// 24-bit range, because `midly` stores them in bit-restricted integer
/// types (`u4`, `u7`, `u24`).
#[verifier::external_body]
fn smf_event_kind(smf: &midly::Smf<'static>, t: usize, i: usize) -> (k: MidiEventKind)
    requires
        t < smf_events(*smf).len(),
        i < smf_events(*smf)[t as int].len(),
    ensures
        k == smf_events(*smf)[t as int][i as int].kind,
        event_kind_wf(k),
        k matches MidiEventKind::TempoChange { microseconds_per_quarter } ==>
            microseconds_per_quarter < 0x100_0000,
{
    match smf.tracks[t][i].kind {
        MidlyKind::Midi { channel, message: MidlyMsg::NoteOn { key, vel } } => MidiEventKind::NoteOn { channel: channel.as_int(), key: key.as_int(), velocity: vel.as_int() },
        MidlyKind::Midi { channel, message: MidlyMsg::NoteOff { key, vel: _ } } => MidiEventKind::NoteOff { channel: channel.as_int(), key: key.as_int() },
        MidlyKind::Meta(MidlyMeta::Tempo(v)) => MidiEventKind::TempoChange { microseconds_per_quarter: v.as_int() },
        MidlyKind::Meta(MidlyMeta::TimeSignature(n, d, c, s)) => MidiEventKind::TimeSignatureChange { numerator: n, denominator_exponent: d, midi_clocks_per_metronome_click: c, thirty_seconds_notes_per_quarter_note: s },
        MidlyKind::Meta(MidlyMeta::EndOfTrack) => MidiEventKind::EndOfTrack,
        _ => MidiEventKind::Other,
    }
}

/// Relies on `midly::Header`: the file format, and the division for
/// metrical timing (a 15-bit value, so below 0x8000) or `None` for
/// SMPTE timing.
#[verifier::external_body]
fn smf_header_info(smf: &midly::Smf<'static>) -> (h: (MidiFormat, Option<u16>))
    ensures
        h == smf_header(*smf),
        h.1 matches Some(d) ==> d < 0x8000,
{
    let format = match smf.header.format {
        midly::Format::SingleTrack => MidiFormat::SingleTrack,
        midly::Format::Parallel => MidiFormat::Parallel,
        midly::Format::Sequential => MidiFormat::Sequential,
    };
    let division = match smf.header.timing {
        midly::Timing::Metrical(d) => Some(d.as_int()),
        midly::Timing::Timecode(_, _) => None,
    };
    (format, division)
}

/// A decoded file, ready for the pipeline: the track layout, a non-zero
/// metrical division, and plain-value track events whose absolute ticks
/// fit the timeline's range.
pub struct ParsedMidi {
    pub format: MidiFormat,
    /// Ticks per quarter note, at least 1 and below 0x8000.
    pub division: u16,
    /// The tracks' events, in file order.
    pub tracks: Vec<Vec<TrackEvent>>,
}

impl ParsedMidi {
    /// What `parse_midi_bytes` guarantees of everything it returns.
    pub open spec fn wf(&self) -> bool {
        &&& 1 <= self.division < 0x8000
        &&& tracks_ticks_in_range(tracks_view(self.tracks@))
        &&& tracks_events_wf(tracks_view(self.tracks@))
    }
}

/// Decode a byte buffer into plain track events.  Decoding succeeds on
/// exactly the buffers the container parser accepts whose division is
/// metrical and non-zero and whose accumulated tick positions fit the
/// timeline's 32-bit tick range; the result then holds exactly the
/// parsed header and events.  A rejected buffer — or one whose ticks
/// overflow that range — is malformed; a file counting time in SMPTE
/// frames, or declaring a zero division, has unsupported timing.
pub fn parse_midi_bytes(bytes: &[u8]) -> (r: Result<ParsedMidi, MidiLoadError>)
    ensures
        r is Ok <==> smf_parse_ok(bytes@) && metrical_division_usable(bytes@)
            && tracks_ticks_in_range(smf_events_of(bytes@)),
        r == Err::<ParsedMidi, MidiLoadError>(MidiLoadError::UnsupportedTiming) <==> (
        smf_parse_ok(bytes@) && !metrical_division_usable(bytes@)),
        r == Err::<ParsedMidi, MidiLoadError>(MidiLoadError::MalformedFile) <==> (!smf_parse_ok(
            bytes@,
        ) || (smf_parse_ok(bytes@) && metrical_division_usable(bytes@) && !tracks_ticks_in_range(
            smf_events_of(bytes@),
        ))),
        r matches Ok(p) ==> ({
            &&& p.wf()
            &&& tracks_view(p.tracks@) == smf_events_of(bytes@)
            &&& p.format == smf_header_of(bytes@).0
            &&& Some(p.division) == smf_header_of(bytes@).1
        }),
{
    let smf = match parse_smf(bytes) {
        Some(smf) => smf,
        None => {
            return Err(MidiLoadError::MalformedFile);
        },
    };
    let (format, division) = smf_header_info(&smf);
    let division: u16 = match division {
        Some(d) => d,
        None => {
            return Err(MidiLoadError::UnsupportedTiming);
        },
    };
    if division == 0 {
        return Err(MidiLoadError::UnsupportedTiming);
    }
    let track_count = smf_track_count(&smf);
    let mut tracks: Vec<Vec<TrackEvent>> = Vec::new();
    let mut t: usize = 0;
    while t < track_count
        invariant
            smf_parse_ok(bytes@),
            metrical_division_usable(bytes@),
            smf_events(smf) == smf_events_of(bytes@),
            track_count == smf_events(smf).len(),
            0 <= t <= track_count,
            tracks@.len() == t,
            forall|k: int| 0 <= k < t ==> (#[trigger] tracks@[k])@ == smf_events(smf)[k],
            tracks_ticks_in_range(tracks_view(tracks@)),
            tracks_events_wf(tracks_view(tracks@)),
        decreases track_count - t,
    {
        let n = smf_track_len(&smf, t);
        let mut track: Vec<TrackEvent> = Vec::new();
        let mut ticks: u32 = 0;
        let mut i: usize = 0;
        while i < n
            invariant
                smf_parse_ok(bytes@),
                metrical_division_usable(bytes@),
                smf_events(smf) == smf_events_of(bytes@),
                track_count == smf_events(smf).len(),
                0 <= t < track_count,
                n == smf_events(smf)[t as int].len(),
                0 <= i <= n,
                track@.len() == i,
                track@ == smf_events(smf)[t as int].take(i as int),
                ticks == abs_tick_after(track@, i as int),
                forall|j: int| 0 <= j < i ==> event_kind_wf(#[trigger] track@[j].kind),
            decreases n - i,
        {
            let delta = smf_event_delta(&smf, t, i);
            let kind = smf_event_kind(&smf, t, i);
            if delta > u32::MAX - ticks {
                proof {
                    let tr = smf_events(smf)[t as int];
                    lemma_abs_tick_prefix_stable(track@, tr, i as int);
                    assert(abs_tick_after(tr, i + 1) == abs_tick_after(tr, i as int)
                        + tr[i as int].delta);
                    lemma_abs_tick_monotonic(tr, i + 1, tr.len() as int);
                    assert(!track_ticks_in_range(smf_events_of(bytes@)[t as int]));
                }
                return Err(MidiLoadError::MalformedFile);
            }
            let e = TrackEvent { delta, kind };
            let ghost tprev = track@;
            track.push(e);
            proof {
                assert(smf_events(smf)[t as int].take(i + 1).drop_last() =~= smf_events(
                    smf,
                )[t as int].take(i as int));
                assert(smf_events(smf)[t as int].take(i + 1).last() == smf_events(smf)[t as int][
                    i as int
                ]);
                assert(track@ =~= smf_events(smf)[t as int].take(i + 1));
                lemma_abs_tick_prefix_stable(tprev, track@, i as int);
                assert(track@[i as int] == e);
                assert(abs_tick_after(track@, i + 1) == abs_tick_after(track@, i as int)
                    + e.delta);
            }
            ticks = ticks + delta;
            i = i + 1;
        }
        proof {
            assert(track@ =~= smf_events(smf)[t as int]);
            lemma_abs_tick_monotonic(track@, 0, track@.len() as int);
        }
        let ghost prev = tracks@;
        tracks.push(track);
        proof {
            assert(tracks_view(tracks@)[t as int] == track@);
            assert forall|k: int| 0 <= k < tracks@.len() implies track_ticks_in_range(
                #[trigger] tracks_view(tracks@)[k],
            ) by {
                assert(tracks_view(tracks@)[k] == tracks@[k]@);
                if k < t {
                    assert(tracks@[k] == prev[k]);
                    assert(track_ticks_in_range(tracks_view(prev)[k]));
                    assert(tracks_view(prev)[k] == prev[k]@);
                }
            }
            assert forall|k: int, j: int|
                0 <= k < tracks_view(tracks@).len() && 0 <= j < tracks_view(tracks@)[k].len()
                implies event_kind_wf(#[trigger] tracks_view(tracks@)[k][j].kind) by {
                assert(tracks_view(tracks@)[k] == tracks@[k]@);
                if k < t {
                    assert(tracks@[k] == prev[k]);
                    assert(tracks_view(prev)[k] == prev[k]@);
                    assert(event_kind_wf(tracks_view(prev)[k][j].kind));
                } else {
                    assert(event_kind_wf(track@[j].kind));
                }
            }
        }
        t = t + 1;
    }
    proof {
        assert(tracks_view(tracks@) =~= smf_events(smf));
    }
    Ok(ParsedMidi { format, division, tracks })
}

/// The accumulated tick after `n` events depends only on those events.
proof fn lemma_abs_tick_prefix_stable(a: Seq<TrackEvent>, b: Seq<TrackEvent>, n: int)
    requires
        n <= a.len(),
        a.len() <= b.len(),
        forall|j: int| 0 <= j < a.len() ==> a[j] == b[j],
    ensures
        abs_tick_after(a, n) == abs_tick_after(b, n),
    decreases n,
{
    if n > 0 {
        lemma_abs_tick_prefix_stable(a, b, n - 1);
    }
}

} // verus!
