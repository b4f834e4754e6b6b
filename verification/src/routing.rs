//! The routing configuration of one virtual device: its sources, the
//! matrix of connections from source channels to output channels, and the
//! monitors (physical outputs) its mix is played to.
//!
//! This is the device's configuration and decision logic. The live
//! resources (capture streams, monitor streams, the mixer thread) are run
//! by the application around it, which performs the work each operation
//! asks for and reports back what succeeded.
use vstd::prelude::*;
use vstd::string::*;

use crate::edit::{finished_entry, ledger_finalized, ledger_tracks, PendingTrack, RecordingLedger};
use crate::recording::TrackManifest;
use crate::recording::{
    default_recording_name, duration_ms_of, max_duration, sanitize_component_spec, track_file_name,
    RecordingManifest, RecordingSummary,
};
use crate::text::str_equal;

verus! {

/// The IEEE-754 bit pattern of the gain `1.0f32`.
pub const UNITY_GAIN_BITS: u32 = 0x3f80_0000;

pub const MIN_OUTPUT_CHANNELS: usize = 1;
pub const MAX_OUTPUT_CHANNELS: usize = 32;
pub const DEFAULT_OUTPUT_CHANNELS: usize = 2;
pub const DEFAULT_MONITOR_BUFFER_MS: u32 = 20;
pub const MIN_MONITOR_BUFFER_MS: u32 = 5;
pub const MAX_MONITOR_BUFFER_MS: u32 = 250;
pub const MAX_MONITOR_DELAY_MS: u32 = 500;

/// One entry of the routing matrix: `source_channel` of `source_id` is added
/// into `output_channel` with the gain whose `f32` bit pattern is
/// `gain_bits` (the library only stores gains, it never computes with them).
pub struct Connection {
    pub source_id: String,
    pub source_channel: usize,
    pub output_channel: usize,
    pub gain_bits: u32,
}

pub struct ConnView {
    pub source_id: Seq<char>,
    pub source_channel: usize,
    pub output_channel: usize,
    pub gain_bits: u32,
}

impl View for Connection {
    type V = ConnView;

    open spec fn view(&self) -> ConnView {
        ConnView {
            source_id: self.source_id@,
            source_channel: self.source_channel,
            output_channel: self.output_channel,
            gain_bits: self.gain_bits,
        }
    }
}

impl Clone for Connection {
    fn clone(&self) -> (r: Self)
        ensures
            r@ == self@,
    {
        Connection {
            source_id: self.source_id.clone(),
            source_channel: self.source_channel,
            output_channel: self.output_channel,
            gain_bits: self.gain_bits,
        }
    }
}

/// A source feeding the device: how many channels it delivers, its gain
/// (as `f32` bits) and whether it is muted.
pub struct SourceState {
    pub id: String,
    pub channels: usize,
    pub gain_bits: u32,
    pub muted: bool,
}

pub struct SourceView {
    pub id: Seq<char>,
    pub channels: usize,
    pub gain_bits: u32,
    pub muted: bool,
}

impl View for SourceState {
    type V = SourceView;

    open spec fn view(&self) -> SourceView {
        SourceView {
            id: self.id@,
            channels: self.channels,
            gain_bits: self.gain_bits,
            muted: self.muted,
        }
    }
}

/// One parametric EQ band, each value as its `f32` bit pattern.
pub struct EqBandBits {
    pub freq_hz: u32,
    pub gain_db: u32,
    pub q: u32,
}

impl Clone for EqBandBits {
    fn clone(&self) -> (r: Self)
        ensures
            r == *self,
    {
        EqBandBits { freq_hz: self.freq_hz, gain_db: self.gain_db, q: self.q }
    }
}

/// A physical output the device's mix is played to. `channel_map[i]` is the
/// device output channel feeding the monitor's channel `i` (None: silent).
/// `live` says whether its output stream is currently running.
pub struct MonitorState {
    pub name: String,
    pub channel_map: Vec<Option<usize>>,
    pub exclusive: bool,
    pub buffer_ms: u32,
    pub delay_ms: u32,
    pub eq: Vec<EqBandBits>,
    pub live: bool,
}

pub struct MonitorView {
    pub name: Seq<char>,
    pub channel_map: Seq<Option<usize>>,
    pub exclusive: bool,
    pub buffer_ms: u32,
    pub delay_ms: u32,
    pub eq: Seq<EqBandBits>,
    pub live: bool,
}

impl View for MonitorState {
    type V = MonitorView;

    open spec fn view(&self) -> MonitorView {
        MonitorView {
            name: self.name@,
            channel_map: self.channel_map@,
            exclusive: self.exclusive,
            buffer_ms: self.buffer_ms,
            delay_ms: self.delay_ms,
            eq: self.eq@,
            live: self.live,
        }
    }
}

/// One virtual device: an independent mixing bus.
pub struct VirtualDevice {
    pub id: String,
    pub name: String,
    pub enabled: bool,
    pub output_channels: usize,
    pub sources: Vec<SourceState>,
    pub connections: Vec<Connection>,
    pub monitors: Vec<MonitorState>,
    pub is_published: bool,
    /// The take being recorded, if any.
    pub take: Option<RecordingLedger>,
}

pub struct DeviceView {
    pub id: Seq<char>,
    pub name: Seq<char>,
    pub enabled: bool,
    pub output_channels: usize,
    pub sources: Seq<SourceView>,
    pub connections: Seq<ConnView>,
    pub monitors: Seq<MonitorView>,
    pub is_published: bool,
    pub take: Option<RecordingLedger>,
}

impl View for VirtualDevice {
    type V = DeviceView;

    open spec fn view(&self) -> DeviceView {
        DeviceView {
            id: self.id@,
            name: self.name@,
            enabled: self.enabled,
            output_channels: self.output_channels,
            sources: self.sources@.map_values(|s: SourceState| s@),
            connections: self.connections@.map_values(|c: Connection| c@),
            monitors: self.monitors@.map_values(|m: MonitorState| m@),
            is_published: self.is_published,
            take: self.take,
        }
    }
}

// ---------------------------------------------------------------------
// Specification of the configuration and its operations.
// ---------------------------------------------------------------------

pub open spec fn source_from(ss: Seq<SourceView>, id: Seq<char>, i: int) -> Option<int>
    decreases ss.len() - i,
{
    if i < 0 || i >= ss.len() {
        None
    } else if ss[i].id == id {
        Some(i)
    } else {
        source_from(ss, id, i + 1)
    }
}

/// Position of the source `id`, if the device has it.
pub open spec fn source_pos(ss: Seq<SourceView>, id: Seq<char>) -> Option<int> {
    source_from(ss, id, 0)
}

pub open spec fn monitor_from(ms: Seq<MonitorView>, name: Seq<char>, i: int) -> Option<int>
    decreases ms.len() - i,
{
    if i < 0 || i >= ms.len() {
        None
    } else if ms[i].name == name {
        Some(i)
    } else {
        monitor_from(ms, name, i + 1)
    }
}

/// Position of the monitor `name`, if the device has it.
pub open spec fn monitor_pos(ms: Seq<MonitorView>, name: Seq<char>) -> Option<int> {
    monitor_from(ms, name, 0)
}

/// Whether `c` is the connection from `sc` of `sid` into `oc`.
pub open spec fn conn_has_key(c: ConnView, sid: Seq<char>, sc: usize, oc: usize) -> bool {
    c.source_id == sid && c.source_channel == sc && c.output_channel == oc
}

pub open spec fn conn_from(cs: Seq<ConnView>, sid: Seq<char>, sc: usize, oc: usize, i: int) -> Option<int>
    decreases cs.len() - i,
{
    if i < 0 || i >= cs.len() {
        None
    } else if conn_has_key(cs[i], sid, sc, oc) {
        Some(i)
    } else {
        conn_from(cs, sid, sc, oc, i + 1)
    }
}

pub open spec fn conn_pos(cs: Seq<ConnView>, sid: Seq<char>, sc: usize, oc: usize) -> Option<int> {
    conn_from(cs, sid, sc, oc, 0)
}

/// The matrix after setting a connection: an existing entry with the same
/// source, source channel and output channel takes the new gain, otherwise
/// the connection is appended.
pub open spec fn upsert_conn(cs: Seq<ConnView>, c: ConnView) -> Seq<ConnView> {
    match conn_pos(cs, c.source_id, c.source_channel, c.output_channel) {
        Some(i) => cs.update(i, ConnView { gain_bits: c.gain_bits, ..cs[i] }),
        None => cs.push(c),
    }
}

/// The matrix without the connection `sid`/`sc` -> `oc`.
pub open spec fn remove_conn(cs: Seq<ConnView>, sid: Seq<char>, sc: usize, oc: usize) -> Seq<ConnView>
    decreases cs.len(),
{
    if cs.len() == 0 {
        cs
    } else {
        let rest = remove_conn(cs.drop_last(), sid, sc, oc);
        if conn_has_key(cs.last(), sid, sc, oc) {
            rest
        } else {
            rest.push(cs.last())
        }
    }
}

/// The matrix without any connection from source `sid`.
pub open spec fn remove_source_conns(cs: Seq<ConnView>, sid: Seq<char>) -> Seq<ConnView>
    decreases cs.len(),
{
    if cs.len() == 0 {
        cs
    } else {
        let rest = remove_source_conns(cs.drop_last(), sid);
        if cs.last().source_id == sid {
            rest
        } else {
            rest.push(cs.last())
        }
    }
}

pub open spec fn distinct_sources(ss: Seq<SourceView>) -> bool {
    forall|i: int, j: int| 0 <= i < j < ss.len() ==> ss[i].id != ss[j].id
}

pub open spec fn distinct_monitors(ms: Seq<MonitorView>) -> bool {
    forall|i: int, j: int| 0 <= i < j < ms.len() ==> ms[i].name != ms[j].name
}

pub open spec fn distinct_conns(cs: Seq<ConnView>) -> bool {
    forall|i: int, j: int|
        0 <= i < j < cs.len() ==> !conn_has_key(cs[j], cs[i].source_id, cs[i].source_channel, cs[i].output_channel)
}

/// The device's standing invariant: sources, monitors and connections are
/// each identified uniquely, the output channel count is within 1..=32,
/// every monitor's buffer and delay are within their ranges, and a device
/// is only ever published while enabled.
pub open spec fn device_wf(d: DeviceView) -> bool {
    &&& distinct_sources(d.sources)
    &&& distinct_monitors(d.monitors)
    &&& distinct_conns(d.connections)
    &&& MIN_OUTPUT_CHANNELS <= d.output_channels <= MAX_OUTPUT_CHANNELS
    &&& forall|i: int|
        0 <= i < d.monitors.len() ==> MIN_MONITOR_BUFFER_MS <= (#[trigger] d.monitors[i]).buffer_ms
            <= MAX_MONITOR_BUFFER_MS && d.monitors[i].delay_ms <= MAX_MONITOR_DELAY_MS
    &&& d.is_published ==> d.enabled
}

pub open spec fn clamp_usize(x: usize, lo: usize, hi: usize) -> usize {
    if x < lo {
        lo
    } else if x > hi {
        hi
    } else {
        x
    }
}

pub open spec fn clamp_u32(x: u32, lo: u32, hi: u32) -> u32 {
    if x < lo {
        lo
    } else if x > hi {
        hi
    } else {
        x
    }
}

// ---------------------------------------------------------------------
// Lemmas about the connection matrix.
// ---------------------------------------------------------------------

/// What the search from position `i` finds is a connection with the given
/// key at or after `i`; when it finds none, no connection from `i` on has it.
pub proof fn lemma_conn_from_found(cs: Seq<ConnView>, sid: Seq<char>, sc: usize, oc: usize, i: int)
    requires
        0 <= i,
    ensures
        conn_from(cs, sid, sc, oc, i) matches Some(k) ==> i <= k < cs.len() && conn_has_key(
            cs[k],
            sid,
            sc,
            oc,
        ),
        conn_from(cs, sid, sc, oc, i) is None ==> forall|k: int|
            i <= k < cs.len() ==> !conn_has_key(#[trigger] cs[k], sid, sc, oc),
    decreases cs.len() - i,
{
    if i < cs.len() && !conn_has_key(cs[i], sid, sc, oc) {
        lemma_conn_from_found(cs, sid, sc, oc, i + 1);
    }
}

/// Removing a key leaves no connection with it and keeps every other one.
pub proof fn lemma_remove_conn_props(cs: Seq<ConnView>, sid: Seq<char>, sc: usize, oc: usize)
    ensures
        forall|k: int|
            0 <= k < remove_conn(cs, sid, sc, oc).len() ==> !conn_has_key(
                #[trigger] remove_conn(cs, sid, sc, oc)[k],
                sid,
                sc,
                oc,
            ),
        forall|x: ConnView| #[trigger]
            remove_conn(cs, sid, sc, oc).contains(x) <==> (cs.contains(x) && !conn_has_key(
                x,
                sid,
                sc,
                oc,
            )),
        distinct_conns(cs) ==> distinct_conns(remove_conn(cs, sid, sc, oc)),
    decreases cs.len(),
{
    let r = remove_conn(cs, sid, sc, oc);
    if cs.len() > 0 {
        let t = cs.drop_last();
        lemma_remove_conn_props(t, sid, sc, oc);
        let rt = remove_conn(t, sid, sc, oc);
        assert forall|x: ConnView| #[trigger] r.contains(x) <==> (cs.contains(x) && !conn_has_key(x, sid, sc, oc)) by {
            if cs.contains(x) && !conn_has_key(x, sid, sc, oc) {
                let k = choose|k: int| 0 <= k < cs.len() && cs[k] == x;
                if k < cs.len() - 1 {
                    assert(t[k] == x);
                    assert(rt.contains(x));
                    let m = choose|m: int| 0 <= m < rt.len() && rt[m] == x;
                    if !conn_has_key(cs.last(), sid, sc, oc) {
                        assert(r[m] == x);
                    }
                } else {
                    assert(r[r.len() - 1] == x);
                }
            }
            if r.contains(x) {
                let m = choose|m: int| 0 <= m < r.len() && r[m] == x;
                if conn_has_key(cs.last(), sid, sc, oc) || m < rt.len() {
                    assert(rt[m] == x);
                    assert(rt.contains(x));
                    let k = choose|k: int| 0 <= k < t.len() && t[k] == x;
                    assert(cs[k] == x);
                } else {
                    assert(cs[cs.len() - 1] == x);
                }
            }
        }
        if distinct_conns(cs) {
            assert(distinct_conns(t));
            assert forall|i: int, j: int| 0 <= i < j < r.len() implies !conn_has_key(
                r[j],
                r[i].source_id,
                r[i].source_channel,
                r[i].output_channel,
            ) by {
                if !conn_has_key(cs.last(), sid, sc, oc) && j == r.len() - 1 {
                    assert(rt.contains(r[i]));
                    assert(t.contains(r[i]));
                    let k = choose|k: int| 0 <= k < t.len() && t[k] == r[i];
                    assert(cs[k] == r[i]);
                } else {
                    assert(r[i] == rt[i] && r[j] == rt[j]);
                }
            }
        }
    }
}

/// Removing a source's connections keeps exactly the others, and keeps
/// them distinct.
pub proof fn lemma_remove_source_conns_props(cs: Seq<ConnView>, sid: Seq<char>)
    ensures
        forall|x: ConnView| #[trigger]
            remove_source_conns(cs, sid).contains(x) <==> (cs.contains(x) && x.source_id != sid),
        distinct_conns(cs) ==> distinct_conns(remove_source_conns(cs, sid)),
    decreases cs.len(),
{
    let r = remove_source_conns(cs, sid);
    if cs.len() > 0 {
        let t = cs.drop_last();
        lemma_remove_source_conns_props(t, sid);
        let rt = remove_source_conns(t, sid);
        assert forall|x: ConnView| #[trigger] r.contains(x) <==> (cs.contains(x) && x.source_id != sid) by {
            if cs.contains(x) && x.source_id != sid {
                let k = choose|k: int| 0 <= k < cs.len() && cs[k] == x;
                if k < cs.len() - 1 {
                    assert(t[k] == x);
                    assert(rt.contains(x));
                    let m = choose|m: int| 0 <= m < rt.len() && rt[m] == x;
                    if cs.last().source_id != sid {
                        assert(r[m] == x);
                    }
                } else {
                    assert(r[r.len() - 1] == x);
                }
            }
            if r.contains(x) {
                let m = choose|m: int| 0 <= m < r.len() && r[m] == x;
                if cs.last().source_id == sid || m < rt.len() {
                    assert(rt[m] == x);
                    assert(rt.contains(x));
                    let k = choose|k: int| 0 <= k < t.len() && t[k] == x;
                    assert(cs[k] == x);
                } else {
                    assert(cs[cs.len() - 1] == x);
                }
            }
        }
        if distinct_conns(cs) {
            assert(distinct_conns(t));
            assert forall|i: int, j: int| 0 <= i < j < r.len() implies !conn_has_key(
                r[j],
                r[i].source_id,
                r[i].source_channel,
                r[i].output_channel,
            ) by {
                if cs.last().source_id != sid && j == r.len() - 1 {
                    assert(rt.contains(r[i]));
                    assert(t.contains(r[i]));
                    let k = choose|k: int| 0 <= k < t.len() && t[k] == r[i];
                    assert(cs[k] == r[i]);
                } else {
                    assert(r[i] == rt[i] && r[j] == rt[j]);
                }
            }
        }
    }
}

/// Setting a connection keeps the keys distinct, holds the new connection
/// and keeps every connection with another key.
pub proof fn lemma_upsert_conn_props(cs: Seq<ConnView>, c: ConnView)
    requires
        distinct_conns(cs),
    ensures
        distinct_conns(upsert_conn(cs, c)),
        upsert_conn(cs, c).contains(c),
        forall|x: ConnView|
            #![trigger upsert_conn(cs, c).contains(x)]
            !conn_has_key(x, c.source_id, c.source_channel, c.output_channel) ==> (upsert_conn(
                cs,
                c,
            ).contains(x) <==> cs.contains(x)),
{
    lemma_conn_from_found(cs, c.source_id, c.source_channel, c.output_channel, 0);
    let u = upsert_conn(cs, c);
    match conn_pos(cs, c.source_id, c.source_channel, c.output_channel) {
        Some(i) => {
            assert(u[i] == c);
            assert forall|x: ConnView|
                !conn_has_key(x, c.source_id, c.source_channel, c.output_channel) implies (u.contains(
                x,
            ) <==> cs.contains(x)) by {
                if u.contains(x) {
                    let k = choose|k: int| 0 <= k < u.len() && u[k] == x;
                    assert(k != i);
                    assert(cs[k] == x);
                }
                if cs.contains(x) {
                    let k = choose|k: int| 0 <= k < cs.len() && cs[k] == x;
                    assert(k != i);
                    assert(u[k] == x);
                }
            }
        },
        None => {
            assert(u[u.len() - 1] == c);
            assert forall|x: ConnView|
                !conn_has_key(x, c.source_id, c.source_channel, c.output_channel) implies (u.contains(
                x,
            ) <==> cs.contains(x)) by {
                if u.contains(x) {
                    let k = choose|k: int| 0 <= k < u.len() && u[k] == x;
                    assert(k != u.len() - 1);
                    assert(cs[k] == x);
                }
                if cs.contains(x) {
                    let k = choose|k: int| 0 <= k < cs.len() && cs[k] == x;
                    assert(u[k] == x);
                }
            }
        },
    }
}

/// Setting a connection and then removing it leaves no connection for that
/// source channel and output channel, and every other connection is the
/// same as it was before the connection was set.
pub proof fn lemma_set_then_remove_connection(cs: Seq<ConnView>, c: ConnView)
    requires
        distinct_conns(cs),
    ensures
        forall|x: ConnView| #[trigger]
            remove_conn(upsert_conn(cs, c), c.source_id, c.source_channel, c.output_channel).contains(x)
                <==> (cs.contains(x) && !conn_has_key(x, c.source_id, c.source_channel, c.output_channel)),
{
    lemma_upsert_conn_props(cs, c);
    lemma_remove_conn_props(upsert_conn(cs, c), c.source_id, c.source_channel, c.output_channel);
}

} // verus!

verus! {

pub open spec fn unknown_source_error(id: Seq<char>) -> Seq<char> {
    "Unknown source: "@ + id
}

pub open spec fn unknown_monitor_error(name: Seq<char>) -> Seq<char> {
    "Unknown monitor: "@ + name
}

pub open spec fn no_channel_error(name: Seq<char>, ch: usize) -> Seq<char> {
    "Monitor '"@ + name + "' has no channel "@ + crate::text::decimal(ch as nat)
}

/// What the device asks of its surroundings after a change of output
/// channel count.
pub struct ChannelResize {
    /// The count actually changed.
    pub resized: bool,
    /// The device was running: its streams were stopped and it must be
    /// enabled again (see `set_enabled`/`finish_enable`).
    pub restart: bool,
    /// Stopping the device withdrew its network publication.
    pub unpublish: bool,
}

/// How a new source is captured.
#[derive(Debug, Clone, Copy, PartialEq, Eq, Structural)]
pub enum CapturePlan {
    /// WASAPI loopback of the default output device.
    SystemLoopback,
    /// Per-process loopback of the application with this pid.
    Application(u32),
    /// The input device at this position of the names looked through.
    InputDevice(usize),
}

/// Position of the first name equal to `id` from position `i` on.
pub open spec fn name_from(names: Seq<String>, id: Seq<char>, i: int) -> Option<int>
    decreases names.len() - i,
{
    if i < 0 || i >= names.len() {
        None
    } else if names[i]@ == id {
        Some(i)
    } else {
        name_from(names, id, i + 1)
    }
}

/// `Input device not found: <id>`.
pub open spec fn input_not_found_error(id: Seq<char>) -> Seq<char> {
    "Input device not found: "@ + id
}

/// What switching a device on or off asks of the audio side.
pub enum EnableStep {
    /// The device already was in the requested state.
    Unchanged,
    /// Start these monitors' streams, in order, then the mixer, then call
    /// `finish_enable`.
    StartMonitors(Vec<String>),
    /// The device was stopped; withdraw its publication when `unpublish`.
    Stopped { unpublish: bool },
}

/// What a change of the publish switch asks of the network side.
#[derive(Debug, Clone, Copy, PartialEq, Eq, Structural)]
pub enum PublishAction {
    Unchanged,
    Publish,
    Unpublish,
}

/// A new device: disabled, stereo, with no sources, connections or
/// monitors, not published and not recording.
pub open spec fn new_device_view(id: Seq<char>, name: Seq<char>) -> DeviceView {
    DeviceView {
        id,
        name,
        enabled: false,
        output_channels: DEFAULT_OUTPUT_CHANNELS,
        sources: Seq::empty(),
        connections: Seq::empty(),
        monitors: Seq::empty(),
        is_published: false,
        take: None,
    }
}

/// The monitor of a freshly added output: every channel unwired, default
/// buffer, no delay, no EQ, shared mode, not yet playing.
pub open spec fn new_monitor_view(name: Seq<char>, channels: usize) -> MonitorView {
    MonitorView {
        name,
        channel_map: Seq::new(channels as nat, |i: int| None::<usize>),
        exclusive: false,
        buffer_ms: DEFAULT_MONITOR_BUFFER_MS,
        delay_ms: 0,
        eq: Seq::empty(),
        live: false,
    }
}

/// Every monitor marked as not playing.
pub open spec fn all_stopped(ms: Seq<MonitorView>) -> Seq<MonitorView> {
    Seq::new(ms.len(), |i: int| MonitorView { live: false, ..ms[i] })
}

/// A device as it is after being stopped: not enabled, no monitor playing,
/// not published.
pub open spec fn stopped_view(d: DeviceView) -> DeviceView {
    if d.enabled {
        DeviceView {
            enabled: false,
            monitors: all_stopped(d.monitors),
            is_published: false,
            ..d
        }
    } else {
        d
    }
}

/// Stopping a device changes only whether it runs, its monitors' playing
/// flags and its publication: its sources, connections, monitors (with
/// their wiring and settings), channel count and name all stay, so turning
/// it back on needs no reconfiguration.
pub proof fn lemma_stop_keeps_configuration(d: DeviceView)
    requires
        device_wf(d),
    ensures
        stopped_view(d).id == d.id,
        stopped_view(d).name == d.name,
        stopped_view(d).output_channels == d.output_channels,
        stopped_view(d).sources == d.sources,
        stopped_view(d).connections == d.connections,
        stopped_view(d).take == d.take,
        stopped_view(d).monitors.len() == d.monitors.len(),
        forall|i: int|
            0 <= i < d.monitors.len() ==> (#[trigger] stopped_view(d).monitors[i]) == (MonitorView {
                live: false,
                ..d.monitors[i]
            }) || stopped_view(d).monitors[i] == d.monitors[i],
        !stopped_view(d).enabled,
        !stopped_view(d).is_published,
{
}

/// Whether connection `c` feeds the mix: its output channel exists, its
/// source exists and is not muted, and its source channel exists.
pub open spec fn route_active(d: DeviceView, c: ConnView) -> bool {
    &&& c.output_channel < d.output_channels
    &&& source_pos(d.sources, c.source_id) matches Some(s) && !d.sources[s].muted
        && c.source_channel < d.sources[s].channels
}

/// The (connection, source) index pairs mixed each tick from the first `n`
/// connections, in connection order.
pub open spec fn mix_routes_spec(d: DeviceView, n: int) -> Seq<(int, int)>
    decreases n,
{
    if n <= 0 {
        Seq::empty()
    } else {
        let rest = mix_routes_spec(d, n - 1);
        let c = d.connections[n - 1];
        if route_active(d, c) {
            rest.push((n - 1, source_pos(d.sources, c.source_id)->0))
        } else {
            rest
        }
    }
}

/// What the search from position `i` finds is a source with id `id` at or
/// after `i`; when it finds none, no source from `i` on has that id.
pub proof fn lemma_source_from_found(ss: Seq<SourceView>, id: Seq<char>, i: int)
    requires
        0 <= i,
    ensures
        source_from(ss, id, i) matches Some(k) ==> i <= k < ss.len() && ss[k].id == id,
        source_from(ss, id, i) is None ==> forall|k: int| i <= k < ss.len() ==> (#[trigger] ss[k]).id != id,
    decreases ss.len() - i,
{
    if i < ss.len() && ss[i].id != id {
        lemma_source_from_found(ss, id, i + 1);
    }
}

/// What the search from position `i` finds is a monitor called `name` at or
/// after `i`; when it finds none, no monitor from `i` on is called so.
pub proof fn lemma_monitor_from_found(ms: Seq<MonitorView>, name: Seq<char>, i: int)
    requires
        0 <= i,
    ensures
        monitor_from(ms, name, i) matches Some(k) ==> i <= k < ms.len() && ms[k].name == name,
        monitor_from(ms, name, i) is None ==> forall|k: int| i <= k < ms.len() ==> (#[trigger] ms[k]).name != name,
    decreases ms.len() - i,
{
    if i < ms.len() && ms[i].name != name {
        lemma_monitor_from_found(ms, name, i + 1);
    }
}

impl VirtualDevice {
    /// A new device: disabled, stereo, with no sources, connections or
    /// monitors, not published and not recording.
    pub fn new(id: String, name: String) -> (d: VirtualDevice)
        ensures
            d@ == new_device_view(id@, name@),
            device_wf(d@),
    {
        let d = VirtualDevice {
            id,
            name,
            enabled: false,
            output_channels: DEFAULT_OUTPUT_CHANNELS,
            sources: Vec::new(),
            connections: Vec::new(),
            monitors: Vec::new(),
            is_published: false,
            take: None,
        };
        assert(d@.sources =~= Seq::empty());
        assert(d@.connections =~= Seq::empty());
        assert(d@.monitors =~= Seq::empty());
        d
    }

    /// Position of the source `id`.
    pub fn source_index(&self, id: &str) -> (r: Option<usize>)
        ensures
            (match r {
                Some(i) => Some(i as int),
                None => None,
            }) == source_pos(self@.sources, id@),
            r matches Some(i) ==> i < self.sources@.len(),
    {
        let mut i: usize = 0;
        while i < self.sources.len()
            invariant
                i <= self.sources@.len(),
                source_pos(self@.sources, id@) == source_from(self@.sources, id@, i as int),
            decreases self.sources@.len() - i,
        {
            if str_equal(self.sources[i].id.as_str(), id) {
                return Some(i);
            }
            i = i + 1;
        }
        None
    }

    /// Position of the monitor `name`.
    pub fn monitor_index(&self, name: &str) -> (r: Option<usize>)
        ensures
            (match r {
                Some(i) => Some(i as int),
                None => None,
            }) == monitor_pos(self@.monitors, name@),
            r matches Some(i) ==> i < self.monitors@.len(),
    {
        let mut i: usize = 0;
        while i < self.monitors.len()
            invariant
                i <= self.monitors@.len(),
                monitor_pos(self@.monitors, name@) == monitor_from(self@.monitors, name@, i as int),
            decreases self.monitors@.len() - i,
        {
            if str_equal(self.monitors[i].name.as_str(), name) {
                return Some(i);
            }
            i = i + 1;
        }
        None
    }

    /// Adds a source whose capture has started delivering `channels`
    /// channels, at unity gain and not muted. A source the device already
    /// has is left as it is (its capture need not be started).
    pub fn add_source(&mut self, id: String, channels: usize)
        requires
            device_wf(old(self)@),
        ensures
            final(self)@ == match source_pos(old(self)@.sources, id@) {
                Some(_) => old(self)@,
                None => DeviceView {
                    sources: old(self)@.sources.push(
                        SourceView { id: id@, channels, gain_bits: UNITY_GAIN_BITS, muted: false },
                    ),
                    ..old(self)@
                },
            },
            device_wf(final(self)@),
    {
        proof {
            lemma_source_from_found(old(self)@.sources, id@, 0);
        }
        if self.source_index(id.as_str()).is_some() {
            return;
        }
        self.sources.push(SourceState { id, channels, gain_bits: UNITY_GAIN_BITS, muted: false });
        assert(self@.sources =~= old(self)@.sources.push(
            SourceView { id: self.sources@.last().id@, channels, gain_bits: UNITY_GAIN_BITS, muted: false },
        ));
    }

    /// Removes source `id` (if present) together with every connection
    /// from it. When the running take has a track of that source, the track
    /// is closed now, `track_frames` long (what its writer wrote), and stays
    /// in the take rather than being lost.
    pub fn remove_source(&mut self, id: &str, track_frames: u64)
        requires
            device_wf(old(self)@),
        ensures
            final(self)@ == (DeviceView {
                sources: match source_pos(old(self)@.sources, id@) {
                    Some(i) => old(self)@.sources.remove(i),
                    None => old(self)@.sources,
                },
                connections: remove_source_conns(old(self)@.connections, id@),
                take: final(self)@.take,
                ..old(self)@
            }),
            old(self)@.take is None ==> final(self)@.take is None,
            old(self)@.take matches Some(t) ==> (final(self)@.take matches Some(t2) && ledger_finalized(
                t,
                t2,
                id@,
                track_frames,
            )),
            device_wf(final(self)@),
    {
        match self.take.take() {
            Some(mut t) => {
                t.finalize_track(id, track_frames);
                self.take = Some(t);
            },
            None => {},
        }
        proof {
            lemma_remove_source_conns_props(old(self)@.connections, id@);
        }
        match self.source_index(id) {
            Some(i) => {
                let ghost before = self.sources@;
                self.sources.remove(i);
                assert(self@.sources =~= old(self)@.sources.remove(i as int));
            },
            None => {},
        }
        let mut kept: Vec<Connection> = Vec::new();
        let mut k: usize = 0;
        let ghost cs = old(self)@.connections;
        while k < self.connections.len()
            invariant
                k <= self.connections@.len(),
                cs == self.connections@.map_values(|c: Connection| c@),
                kept@.map_values(|c: Connection| c@) == remove_source_conns(cs.subrange(0, k as int), id@),
            decreases self.connections@.len() - k,
        {
            let c = &self.connections[k];
            assert(cs.subrange(0, k + 1).drop_last() =~= cs.subrange(0, k as int));
            if !str_equal(c.source_id.as_str(), id) {
                kept.push(c.clone());
            }
            assert(kept@.map_values(|c: Connection| c@) =~= remove_source_conns(cs.subrange(0, k + 1), id@));
            k = k + 1;
        }
        assert(cs.subrange(0, k as int) =~= cs);
        self.connections = kept;
    }

    /// Sets the gain (as `f32` bits) of source `id`.
    pub fn set_source_gain(&mut self, id: &str, gain_bits: u32) -> (r: Result<(), String>)
        requires
            device_wf(old(self)@),
        ensures
            device_wf(final(self)@),
            match source_pos(old(self)@.sources, id@) {
                Some(i) => r is Ok && final(self)@ == (DeviceView {
                    sources: old(self)@.sources.update(i, SourceView { gain_bits, ..old(self)@.sources[i] }),
                    ..old(self)@
                }),
                None => r matches Err(e) && e@ == unknown_source_error(id@) && final(self)@ == old(self)@,
            },
    {
        match self.source_index(id) {
            Some(i) => {
                let mut s = self.sources.remove(i);
                s.gain_bits = gain_bits;
                self.sources.insert(i, s);
                assert(self@.sources =~= old(self)@.sources.update(
                    i as int,
                    SourceView { gain_bits, ..old(self)@.sources[i as int] },
                ));
                Ok(())
            },
            None => {
                let mut e = String::from_str("Unknown source: ");
                e.append(id);
                Err(e)
            },
        }
    }

    /// Mutes or unmutes source `id`.
    pub fn set_source_muted(&mut self, id: &str, muted: bool) -> (r: Result<(), String>)
        requires
            device_wf(old(self)@),
        ensures
            device_wf(final(self)@),
            match source_pos(old(self)@.sources, id@) {
                Some(i) => r is Ok && final(self)@ == (DeviceView {
                    sources: old(self)@.sources.update(i, SourceView { muted, ..old(self)@.sources[i] }),
                    ..old(self)@
                }),
                None => r matches Err(e) && e@ == unknown_source_error(id@) && final(self)@ == old(self)@,
            },
    {
        match self.source_index(id) {
            Some(i) => {
                let mut s = self.sources.remove(i);
                s.muted = muted;
                self.sources.insert(i, s);
                assert(self@.sources =~= old(self)@.sources.update(
                    i as int,
                    SourceView { muted, ..old(self)@.sources[i as int] },
                ));
                Ok(())
            },
            None => {
                let mut e = String::from_str("Unknown source: ");
                e.append(id);
                Err(e)
            },
        }
    }

    /// Sets a connection: an existing one for the same source channel and
    /// output channel takes the new gain, otherwise it is added.
    pub fn set_connection(&mut self, c: Connection)
        requires
            device_wf(old(self)@),
        ensures
            final(self)@ == (DeviceView { connections: upsert_conn(old(self)@.connections, c@), ..old(self)@ }),
            device_wf(final(self)@),
    {
        let ghost cs = old(self)@.connections;
        proof {
            lemma_upsert_conn_props(cs, c@);
        }
        let mut i: usize = 0;
        while i < self.connections.len()
            invariant
                i <= self.connections@.len(),
                *self == *old(self),
                device_wf(self@),
                cs == self.connections@.map_values(|x: Connection| x@),
                conn_pos(cs, c@.source_id, c.source_channel, c.output_channel) == conn_from(
                    cs,
                    c@.source_id,
                    c.source_channel,
                    c.output_channel,
                    i as int,
                ),
            decreases self.connections@.len() - i,
        {
            let x = &self.connections[i];
            if x.source_channel == c.source_channel && x.output_channel == c.output_channel && str_equal(
                x.source_id.as_str(),
                c.source_id.as_str(),
            ) {
                let mut old_c = self.connections.remove(i);
                old_c.gain_bits = c.gain_bits;
                self.connections.insert(i, old_c);
                assert(self@.connections =~= upsert_conn(cs, c@));
                proof {
                    lemma_upsert_conn_props(cs, c@);
                }
                return;
            }
            i = i + 1;
        }
        self.connections.push(c);
        assert(self@.connections =~= upsert_conn(cs, c@));
    }

    /// Removes the connection from `source_channel` of `source_id` into
    /// `output_channel`, if there is one.
    pub fn remove_connection(&mut self, source_id: &str, source_channel: usize, output_channel: usize)
        requires
            device_wf(old(self)@),
        ensures
            final(self)@ == (DeviceView {
                connections: remove_conn(old(self)@.connections, source_id@, source_channel, output_channel),
                ..old(self)@
            }),
            device_wf(final(self)@),
    {
        let ghost cs = old(self)@.connections;
        proof {
            lemma_remove_conn_props(cs, source_id@, source_channel, output_channel);
        }
        let mut kept: Vec<Connection> = Vec::new();
        let mut k: usize = 0;
        while k < self.connections.len()
            invariant
                k <= self.connections@.len(),
                cs == self.connections@.map_values(|c: Connection| c@),
                kept@.map_values(|c: Connection| c@) == remove_conn(
                    cs.subrange(0, k as int),
                    source_id@,
                    source_channel,
                    output_channel,
                ),
            decreases self.connections@.len() - k,
        {
            let c = &self.connections[k];
            assert(cs.subrange(0, k + 1).drop_last() =~= cs.subrange(0, k as int));
            if !(c.source_channel == source_channel && c.output_channel == output_channel && str_equal(
                c.source_id.as_str(),
                source_id,
            )) {
                kept.push(c.clone());
            }
            assert(kept@.map_values(|c: Connection| c@) =~= remove_conn(
                cs.subrange(0, k + 1),
                source_id@,
                source_channel,
                output_channel,
            ));
            k = k + 1;
        }
        assert(cs.subrange(0, k as int) =~= cs);
        self.connections = kept;
    }

    /// The routes mixed on every tick: each connection whose output channel
    /// exists and whose source exists, is not muted and has that channel,
    /// as (connection, source) positions in connection order.
    pub fn mix_routes(&self) -> (r: Vec<(usize, usize)>)
        ensures
            r@.len() == mix_routes_spec(self@, self@.connections.len() as int).len(),
            forall|i: int|
                0 <= i < r@.len() ==> (r@[i].0 as int, r@[i].1 as int) == #[trigger] mix_routes_spec(
                    self@,
                    self@.connections.len() as int,
                )[i],
    {
        let mut r: Vec<(usize, usize)> = Vec::new();
        let mut k: usize = 0;
        while k < self.connections.len()
            invariant
                k <= self.connections@.len(),
                r@.len() == mix_routes_spec(self@, k as int).len(),
                forall|i: int|
                    0 <= i < r@.len() ==> (r@[i].0 as int, r@[i].1 as int) == #[trigger] mix_routes_spec(
                        self@,
                        k as int,
                    )[i],
            decreases self.connections@.len() - k,
        {
            let c = &self.connections[k];
            if c.output_channel < self.output_channels {
                match self.source_index(c.source_id.as_str()) {
                    Some(s) => {
                        if !self.sources[s].muted && c.source_channel < self.sources[s].channels {
                            r.push((k, s));
                        }
                    },
                    None => {},
                }
            }
            k = k + 1;
        }
        r
    }

    fn unknown_monitor(name: &str) -> (e: String)
        ensures
            e@ == unknown_monitor_error(name@),
    {
        let mut e = String::from_str("Unknown monitor: ");
        e.append(name);
        e
    }

    /// Adds monitor `name`, whose output device offers `channels` channels,
    /// fully unwired. Returns whether its stream must be started right away
    /// (it was added and the device is running). A monitor the device
    /// already has is left as it is.
    pub fn add_monitor(&mut self, name: String, channels: usize) -> (start_now: bool)
        requires
            device_wf(old(self)@),
        ensures
            match monitor_pos(old(self)@.monitors, name@) {
                Some(_) => final(self)@ == old(self)@ && !start_now,
                None => final(self)@ == (DeviceView {
                    monitors: old(self)@.monitors.push(new_monitor_view(name@, channels)),
                    ..old(self)@
                }) && start_now == old(self)@.enabled,
            },
            device_wf(final(self)@),
    {
        proof {
            lemma_monitor_from_found(old(self)@.monitors, name@, 0);
        }
        if self.monitor_index(name.as_str()).is_some() {
            return false;
        }
        let mut map: Vec<Option<usize>> = Vec::new();
        let mut k: usize = 0;
        while k < channels
            invariant
                k <= channels,
                map@ == Seq::new(k as nat, |i: int| None::<usize>),
            decreases channels - k,
        {
            map.push(None);
            k = k + 1;
            assert(map@ =~= Seq::new(k as nat, |i: int| None::<usize>));
        }
        let ghost name_view = name@;
        self.monitors.push(
            MonitorState {
                name,
                channel_map: map,
                exclusive: false,
                buffer_ms: DEFAULT_MONITOR_BUFFER_MS,
                delay_ms: 0,
                eq: Vec::new(),
                live: false,
            },
        );
        assert(self@.monitors =~= old(self)@.monitors.push(new_monitor_view(name_view, channels)));
        self.enabled
    }

    /// Records whether monitor `name`'s output stream is playing.
    pub fn mark_monitor_live(&mut self, name: &str, live: bool)
        requires
            device_wf(old(self)@),
        ensures
            device_wf(final(self)@),
            final(self)@ == match monitor_pos(old(self)@.monitors, name@) {
                Some(i) => DeviceView {
                    monitors: old(self)@.monitors.update(i, MonitorView { live, ..old(self)@.monitors[i] }),
                    ..old(self)@
                },
                None => old(self)@,
            },
    {
        match self.monitor_index(name) {
            Some(i) => {
                let mut m = self.monitors.remove(i);
                m.live = live;
                self.monitors.insert(i, m);
                assert(self@.monitors =~= old(self)@.monitors.update(
                    i as int,
                    MonitorView { live, ..old(self)@.monitors[i as int] },
                ));
            },
            None => {},
        }
    }

    /// Removes monitor `name` with all of its settings.
    pub fn remove_monitor(&mut self, name: &str)
        requires
            device_wf(old(self)@),
        ensures
            device_wf(final(self)@),
            final(self)@ == match monitor_pos(old(self)@.monitors, name@) {
                Some(i) => DeviceView { monitors: old(self)@.monitors.remove(i), ..old(self)@ },
                None => old(self)@,
            },
    {
        match self.monitor_index(name) {
            Some(i) => {
                self.monitors.remove(i);
                assert(self@.monitors =~= old(self)@.monitors.remove(i as int));
            },
            None => {},
        }
    }

    /// Switches monitor `name` between shared and exclusive mode. Returns
    /// whether its stream was playing and so must be started again in the
    /// new mode; the monitor is marked as not playing until it is.
    pub fn set_monitor_exclusive(&mut self, name: &str, exclusive: bool) -> (r: Result<bool, String>)
        requires
            device_wf(old(self)@),
        ensures
            device_wf(final(self)@),
            match monitor_pos(old(self)@.monitors, name@) {
                Some(i) => r == Ok::<bool, String>(old(self)@.monitors[i].live) && final(self)@ == (DeviceView {
                    monitors: old(self)@.monitors.update(
                        i,
                        MonitorView { exclusive, live: false, ..old(self)@.monitors[i] },
                    ),
                    ..old(self)@
                }),
                None => r matches Err(e) && e@ == unknown_monitor_error(name@) && final(self)@ == old(self)@,
            },
    {
        match self.monitor_index(name) {
            Some(i) => {
                let mut m = self.monitors.remove(i);
                let restart = m.live;
                m.exclusive = exclusive;
                m.live = false;
                self.monitors.insert(i, m);
                assert(self@.monitors =~= old(self)@.monitors.update(
                    i as int,
                    MonitorView { exclusive, live: false, ..old(self)@.monitors[i as int] },
                ));
                Ok(restart)
            },
            None => Err(Self::unknown_monitor(name)),
        }
    }

    /// Sets monitor `name`'s target buffer, clamped to 5..=250 ms. Returns
    /// whether its stream must be restarted (it was playing).
    pub fn set_monitor_buffer_ms(&mut self, name: &str, ms: u32) -> (r: Result<bool, String>)
        requires
            device_wf(old(self)@),
        ensures
            device_wf(final(self)@),
            match monitor_pos(old(self)@.monitors, name@) {
                Some(i) => r == Ok::<bool, String>(old(self)@.monitors[i].live) && final(self)@ == (DeviceView {
                    monitors: old(self)@.monitors.update(
                        i,
                        MonitorView {
                            buffer_ms: clamp_u32(ms, MIN_MONITOR_BUFFER_MS, MAX_MONITOR_BUFFER_MS),
                            live: false,
                            ..old(self)@.monitors[i]
                        },
                    ),
                    ..old(self)@
                }),
                None => r matches Err(e) && e@ == unknown_monitor_error(name@) && final(self)@ == old(self)@,
            },
    {
        match self.monitor_index(name) {
            Some(i) => {
                let mut m = self.monitors.remove(i);
                let restart = m.live;
                m.buffer_ms = if ms < MIN_MONITOR_BUFFER_MS {
                    MIN_MONITOR_BUFFER_MS
                } else if ms > MAX_MONITOR_BUFFER_MS {
                    MAX_MONITOR_BUFFER_MS
                } else {
                    ms
                };
                m.live = false;
                self.monitors.insert(i, m);
                assert(self@.monitors =~= old(self)@.monitors.update(
                    i as int,
                    MonitorView {
                        buffer_ms: clamp_u32(ms, MIN_MONITOR_BUFFER_MS, MAX_MONITOR_BUFFER_MS),
                        live: false,
                        ..old(self)@.monitors[i as int]
                    },
                ));
                Ok(restart)
            },
            None => Err(Self::unknown_monitor(name)),
        }
    }

    /// Sets monitor `name`'s extra delay, clamped to at most 500 ms.
    /// Returns whether its stream must be restarted (it was playing).
    pub fn set_monitor_delay_ms(&mut self, name: &str, ms: u32) -> (r: Result<bool, String>)
        requires
            device_wf(old(self)@),
        ensures
            device_wf(final(self)@),
            match monitor_pos(old(self)@.monitors, name@) {
                Some(i) => r == Ok::<bool, String>(old(self)@.monitors[i].live) && final(self)@ == (DeviceView {
                    monitors: old(self)@.monitors.update(
                        i,
                        MonitorView {
                            delay_ms: clamp_u32(ms, 0, MAX_MONITOR_DELAY_MS),
                            live: false,
                            ..old(self)@.monitors[i]
                        },
                    ),
                    ..old(self)@
                }),
                None => r matches Err(e) && e@ == unknown_monitor_error(name@) && final(self)@ == old(self)@,
            },
    {
        match self.monitor_index(name) {
            Some(i) => {
                let mut m = self.monitors.remove(i);
                let restart = m.live;
                m.delay_ms = if ms > MAX_MONITOR_DELAY_MS {
                    MAX_MONITOR_DELAY_MS
                } else {
                    ms
                };
                m.live = false;
                self.monitors.insert(i, m);
                assert(self@.monitors =~= old(self)@.monitors.update(
                    i as int,
                    MonitorView { delay_ms: clamp_u32(ms, 0, MAX_MONITOR_DELAY_MS), live: false, ..old(self)@.monitors[i as int] },
                ));
                Ok(restart)
            },
            None => Err(Self::unknown_monitor(name)),
        }
    }

    /// Replaces monitor `name`'s EQ bands; a playing stream picks them up
    /// without a restart.
    pub fn set_monitor_eq(&mut self, name: &str, bands: Vec<EqBandBits>) -> (r: Result<(), String>)
        requires
            device_wf(old(self)@),
        ensures
            device_wf(final(self)@),
            match monitor_pos(old(self)@.monitors, name@) {
                Some(i) => r is Ok && final(self)@ == (DeviceView {
                    monitors: old(self)@.monitors.update(i, MonitorView { eq: bands@, ..old(self)@.monitors[i] }),
                    ..old(self)@
                }),
                None => r matches Err(e) && e@ == unknown_monitor_error(name@) && final(self)@ == old(self)@,
            },
    {
        match self.monitor_index(name) {
            Some(i) => {
                let ghost b = bands@;
                let mut m = self.monitors.remove(i);
                m.eq = bands;
                self.monitors.insert(i, m);
                assert(self@.monitors =~= old(self)@.monitors.update(
                    i as int,
                    MonitorView { eq: b, ..old(self)@.monitors[i as int] },
                ));
                Ok(())
            },
            None => Err(Self::unknown_monitor(name)),
        }
    }

    fn wire_monitor_channel(&mut self, name: &str, monitor_channel: usize, value: Option<usize>) -> (r:
        Result<(), String>)
        requires
            device_wf(old(self)@),
        ensures
            device_wf(final(self)@),
            match monitor_pos(old(self)@.monitors, name@) {
                Some(i) => if monitor_channel < old(self)@.monitors[i].channel_map.len() {
                    r is Ok && final(self)@ == (DeviceView {
                        monitors: old(self)@.monitors.update(
                            i,
                            MonitorView {
                                channel_map: old(self)@.monitors[i].channel_map.update(monitor_channel as int, value),
                                ..old(self)@.monitors[i]
                            },
                        ),
                        ..old(self)@
                    })
                } else {
                    r matches Err(e) && e@ == no_channel_error(name@, monitor_channel) && final(self)@ == old(self)@
                },
                None => r matches Err(e) && e@ == unknown_monitor_error(name@) && final(self)@ == old(self)@,
            },
    {
        match self.monitor_index(name) {
            Some(i) => {
                if monitor_channel >= self.monitors[i].channel_map.len() {
                    let mut e = String::from_str("Monitor '");
                    e.append(name);
                    e.append("' has no channel ");
                    let digits = crate::text::decimal_string(monitor_channel as u64);
                    e.append(digits.as_str());
                    return Err(e);
                }
                let mut m = self.monitors.remove(i);
                let ghost old_map = m.channel_map@;
                m.channel_map.set(monitor_channel, value);
                self.monitors.insert(i, m);
                assert(self@.monitors =~= old(self)@.monitors.update(
                    i as int,
                    MonitorView {
                        channel_map: old_map.update(monitor_channel as int, value),
                        ..old(self)@.monitors[i as int]
                    },
                ));
                Ok(())
            },
            None => Err(Self::unknown_monitor(name)),
        }
    }

    /// Feeds channel `monitor_channel` of monitor `name` from this device's
    /// `output_channel`.
    pub fn set_monitor_channel(&mut self, name: &str, monitor_channel: usize, output_channel: usize) -> (r:
        Result<(), String>)
        requires
            device_wf(old(self)@),
        ensures
            device_wf(final(self)@),
            match monitor_pos(old(self)@.monitors, name@) {
                Some(i) => if monitor_channel < old(self)@.monitors[i].channel_map.len() {
                    r is Ok && final(self)@ == (DeviceView {
                        monitors: old(self)@.monitors.update(
                            i,
                            MonitorView {
                                channel_map: old(self)@.monitors[i].channel_map.update(
                                    monitor_channel as int,
                                    Some(output_channel),
                                ),
                                ..old(self)@.monitors[i]
                            },
                        ),
                        ..old(self)@
                    })
                } else {
                    r matches Err(e) && e@ == no_channel_error(name@, monitor_channel) && final(self)@ == old(self)@
                },
                None => r matches Err(e) && e@ == unknown_monitor_error(name@) && final(self)@ == old(self)@,
            },
    {
        self.wire_monitor_channel(name, monitor_channel, Some(output_channel))
    }

    /// Silences channel `monitor_channel` of monitor `name`.
    pub fn clear_monitor_channel(&mut self, name: &str, monitor_channel: usize) -> (r: Result<(), String>)
        requires
            device_wf(old(self)@),
        ensures
            device_wf(final(self)@),
            match monitor_pos(old(self)@.monitors, name@) {
                Some(i) => if monitor_channel < old(self)@.monitors[i].channel_map.len() {
                    r is Ok && final(self)@ == (DeviceView {
                        monitors: old(self)@.monitors.update(
                            i,
                            MonitorView {
                                channel_map: old(self)@.monitors[i].channel_map.update(monitor_channel as int, None),
                                ..old(self)@.monitors[i]
                            },
                        ),
                        ..old(self)@
                    })
                } else {
                    r matches Err(e) && e@ == no_channel_error(name@, monitor_channel) && final(self)@ == old(self)@
                },
                None => r matches Err(e) && e@ == unknown_monitor_error(name@) && final(self)@ == old(self)@,
            },
    {
        self.wire_monitor_channel(name, monitor_channel, None)
    }

    /// Resizes monitor `name`'s channel map to the `channels` its output
    /// actually opened with: existing wiring is kept, new channels start
    /// unwired. Returns whether the monitor exists.
    pub fn resize_monitor_channels(&mut self, name: &str, channels: usize) -> (found: bool)
        requires
            device_wf(old(self)@),
        ensures
            device_wf(final(self)@),
            found == monitor_pos(old(self)@.monitors, name@) is Some,
            final(self)@ == match monitor_pos(old(self)@.monitors, name@) {
                Some(i) => DeviceView {
                    monitors: old(self)@.monitors.update(
                        i,
                        MonitorView {
                            channel_map: Seq::new(
                                channels as nat,
                                |k: int|
                                    if k < old(self)@.monitors[i].channel_map.len() {
                                        old(self)@.monitors[i].channel_map[k]
                                    } else {
                                        None
                                    },
                            ),
                            ..old(self)@.monitors[i]
                        },
                    ),
                    ..old(self)@
                },
                None => old(self)@,
            },
    {
        match self.monitor_index(name) {
            Some(i) => {
                let mut m = self.monitors.remove(i);
                let ghost old_map = m.channel_map@;
                let mut map: Vec<Option<usize>> = Vec::new();
                let mut k: usize = 0;
                while k < channels
                    invariant
                        k <= channels,
                        old_map == m.channel_map@,
                        map@ == Seq::new(
                            k as nat,
                            |j: int| if j < old_map.len() { old_map[j] } else { None },
                        ),
                    decreases channels - k,
                {
                    if k < m.channel_map.len() {
                        map.push(m.channel_map[k]);
                    } else {
                        map.push(None);
                    }
                    k = k + 1;
                    assert(map@ =~= Seq::new(
                        k as nat,
                        |j: int| if j < old_map.len() { old_map[j] } else { None },
                    ));
                }
                m.channel_map = map;
                self.monitors.insert(i, m);
                assert(self@.monitors =~= old(self)@.monitors.update(
                    i as int,
                    MonitorView {
                        channel_map: Seq::new(
                            channels as nat,
                            |k: int| if k < old_map.len() { old_map[k] } else { None },
                        ),
                        ..old(self)@.monitors[i as int]
                    },
                ));
                true
            },
            None => false,
        }
    }

    /// How a newly requested source must be captured, or `Ok(None)` when the
    /// device already has it (adding it again changes nothing). The
    /// system-audio pseudo-device and application ids are captured by
    /// loopback; any other id names an input device, found by name among
    /// `input_device_names` (the first of equal names), and fails with
    /// `Input device not found: <id>` when no input device has that name.
    pub fn source_plan(&self, id: &str, input_device_names: &[String]) -> (r: Result<Option<CapturePlan>, String>)
        ensures
            source_pos(self@.sources, id@) is Some ==> r == Ok::<Option<CapturePlan>, String>(None),
            source_pos(self@.sources, id@) is None ==> match crate::sources::source_kind_of(id@) {
                crate::sources::SourceKind::SystemLoopback => r == Ok::<Option<CapturePlan>, String>(
                    Some(CapturePlan::SystemLoopback),
                ),
                crate::sources::SourceKind::Application(pid) => r == Ok::<Option<CapturePlan>, String>(
                    Some(CapturePlan::Application(pid)),
                ),
                crate::sources::SourceKind::InputDevice => match name_from(input_device_names@, id@, 0) {
                    Some(k) => r == Ok::<Option<CapturePlan>, String>(Some(CapturePlan::InputDevice(k as usize))),
                    None => r matches Err(e) && e@ == input_not_found_error(id@),
                },
            },
    {
        if self.source_index(id).is_some() {
            return Ok(None);
        }
        match crate::sources::classify_source(id) {
            crate::sources::SourceKind::SystemLoopback => Ok(Some(CapturePlan::SystemLoopback)),
            crate::sources::SourceKind::Application(pid) => Ok(Some(CapturePlan::Application(pid))),
            crate::sources::SourceKind::InputDevice => {
                let mut k: usize = 0;
                while k < input_device_names.len()
                    invariant
                        k <= input_device_names@.len(),
                        name_from(input_device_names@, id@, 0) == name_from(input_device_names@, id@, k as int),
                        source_pos(self@.sources, id@) is None,
                        crate::sources::source_kind_of(id@) == crate::sources::SourceKind::InputDevice,
                    decreases input_device_names@.len() - k,
                {
                    if str_equal(input_device_names[k].as_str(), id) {
                        return Ok(Some(CapturePlan::InputDevice(k)));
                    }
                    k = k + 1;
                }
                let mut e = String::from_str("Input device not found: ");
                e.append(id);
                Err(e)
            },
        }
    }

    /// The id under which a peer's published device is added as a source,
    /// and whether the device already has that source (no new subscription).
    pub fn network_source_plan(&self, peer_id: &str, remote_device_id: &str) -> (r: (String, bool))
        ensures
            r.0@ == crate::sources::network_source_id_spec(peer_id@, remote_device_id@),
            r.1 == source_pos(self@.sources, r.0@) is Some,
    {
        let id = crate::sources::network_source_id(peer_id, remote_device_id);
        let present = self.source_index(id.as_str()).is_some();
        (id, present)
    }

    /// The names of the device's monitors, in order.
    fn monitor_names(&self) -> (names: Vec<String>)
        ensures
            names@.len() == self@.monitors.len(),
            forall|i: int| 0 <= i < names@.len() ==> (#[trigger] names@[i])@ == self@.monitors[i].name,
    {
        let mut names: Vec<String> = Vec::new();
        let mut i: usize = 0;
        while i < self.monitors.len()
            invariant
                i <= self.monitors@.len(),
                names@.len() == i,
                forall|j: int| 0 <= j < i ==> (#[trigger] names@[j])@ == self@.monitors[j].name,
            decreases self.monitors@.len() - i,
        {
            names.push(self.monitors[i].name.clone());
            i = i + 1;
        }
        names
    }

    /// Switches the device on or off. Switching it to the state it is in
    /// changes nothing. Switching it on changes nothing yet: the answer lists
    /// the monitors whose streams must be started, in order, after which the
    /// mixer starts and `finish_enable` marks the device running. Switching
    /// it off stops it at once (see `stopped_view`) and says whether its
    /// network publication must be withdrawn.
    pub fn set_enabled(&mut self, enabled: bool) -> (r: EnableStep)
        requires
            device_wf(old(self)@),
        ensures
            device_wf(final(self)@),
            enabled == old(self)@.enabled ==> final(self)@ == old(self)@ && r is Unchanged,
            enabled && !old(self)@.enabled ==> final(self)@ == old(self)@ && (r matches EnableStep::StartMonitors(names)
                && names@.len() == old(self)@.monitors.len() && forall|i: int|
                0 <= i < names@.len() ==> (#[trigger] names@[i])@ == old(self)@.monitors[i].name),
            !enabled && old(self)@.enabled ==> final(self)@ == stopped_view(old(self)@) && r == (EnableStep::Stopped {
                unpublish: old(self)@.is_published,
            }),
    {
        if enabled == self.enabled {
            EnableStep::Unchanged
        } else if enabled {
            EnableStep::StartMonitors(self.monitor_names())
        } else {
            let unpublish = self.disable();
            EnableStep::Stopped { unpublish }
        }
    }

    /// Marks the device as running once its monitors and mixer are up.
    pub fn finish_enable(&mut self)
        requires
            device_wf(old(self)@),
        ensures
            final(self)@ == (DeviceView { enabled: true, ..old(self)@ }),
            device_wf(final(self)@),
    {
        self.enabled = true;
    }

    fn stop_all_monitors(&mut self)
        requires
            device_wf(old(self)@),
        ensures
            final(self)@ == (DeviceView { monitors: all_stopped(old(self)@.monitors), ..old(self)@ }),
            device_wf(final(self)@),
    {
        let mut i: usize = 0;
        while i < self.monitors.len()
            invariant
                i <= self.monitors@.len(),
                self.monitors@.len() == old(self).monitors@.len(),
                self.id == old(self).id,
                self.name == old(self).name,
                self.enabled == old(self).enabled,
                self.output_channels == old(self).output_channels,
                self.sources == old(self).sources,
                self.connections == old(self).connections,
                self.is_published == old(self).is_published,
                self.take == old(self).take,
                forall|j: int|
                    0 <= j < self@.monitors.len() ==> #[trigger] self@.monitors[j] == if j < i {
                        MonitorView { live: false, ..old(self)@.monitors[j] }
                    } else {
                        old(self)@.monitors[j]
                    },
            decreases self.monitors@.len() - i,
        {
            let ghost before = self@.monitors;
            let mut m = self.monitors.remove(i);
            m.live = false;
            self.monitors.insert(i, m);
            assert(self@.monitors =~= before.update(i as int, MonitorView { live: false, ..before[i as int] }));
            i = i + 1;
        }
        assert(self@.monitors =~= all_stopped(old(self)@.monitors));
    }

    /// Stops the device: not enabled, no monitor playing, and no longer
    /// published. Returns whether its network publication must be
    /// withdrawn. A device that is not enabled is left as it is.
    fn disable(&mut self) -> (unpublish: bool)
        requires
            device_wf(old(self)@),
        ensures
            final(self)@ == stopped_view(old(self)@),
            unpublish == (old(self)@.enabled && old(self)@.is_published),
            device_wf(final(self)@),
    {
        if !self.enabled {
            return false;
        }
        self.stop_all_monitors();
        self.enabled = false;
        let unpublish = self.is_published;
        self.is_published = false;
        unpublish
    }

    /// Changes the output channel count, clamped to 1..=32. A running device
    /// is stopped around the change and must be enabled again.
    pub fn set_output_channels(&mut self, count: usize) -> (r: ChannelResize)
        requires
            device_wf(old(self)@),
        ensures
            device_wf(final(self)@),
            clamp_usize(count, MIN_OUTPUT_CHANNELS, MAX_OUTPUT_CHANNELS) == old(self)@.output_channels ==> {
                &&& final(self)@ == old(self)@
                &&& !r.resized && !r.restart && !r.unpublish
            },
            clamp_usize(count, MIN_OUTPUT_CHANNELS, MAX_OUTPUT_CHANNELS) != old(self)@.output_channels ==> {
                &&& final(self)@ == (DeviceView {
                    output_channels: clamp_usize(count, MIN_OUTPUT_CHANNELS, MAX_OUTPUT_CHANNELS),
                    ..stopped_view(old(self)@)
                })
                &&& r.resized
                &&& r.restart == old(self)@.enabled
                &&& r.unpublish == (old(self)@.enabled && old(self)@.is_published)
            },
    {
        let c = if count < MIN_OUTPUT_CHANNELS {
            MIN_OUTPUT_CHANNELS
        } else if count > MAX_OUTPUT_CHANNELS {
            MAX_OUTPUT_CHANNELS
        } else {
            count
        };
        if c == self.output_channels {
            return ChannelResize { resized: false, restart: false, unpublish: false };
        }
        let restart = self.enabled;
        let unpublish = self.disable();
        self.output_channels = c;
        ChannelResize { resized: true, restart, unpublish }
    }

    /// Turns network publication on or off. Publishing needs the device
    /// to be enabled.
    pub fn set_published(&mut self, published: bool) -> (r: Result<PublishAction, String>)
        requires
            device_wf(old(self)@),
        ensures
            device_wf(final(self)@),
            published == old(self)@.is_published ==> (r matches Ok(PublishAction::Unchanged) && final(self)@
                == old(self)@),
            published && !old(self)@.is_published && !old(self)@.enabled ==> (r matches Err(e) && e@
                == "Enable the device before publishing it to the network"@ && final(self)@ == old(self)@),
            published && !old(self)@.is_published && old(self)@.enabled ==> (r matches Ok(
                PublishAction::Publish,
            ) && final(self)@ == (DeviceView { is_published: true, ..old(self)@ })),
            !published && old(self)@.is_published ==> (r matches Ok(PublishAction::Unpublish) && final(self)@
                == (DeviceView { is_published: false, ..old(self)@ })),
    {
        if published == self.is_published {
            return Ok(PublishAction::Unchanged);
        }
        if published {
            if !self.enabled {
                return Err("Enable the device before publishing it to the network".to_string());
            }
            self.is_published = true;
            Ok(PublishAction::Publish)
        } else {
            self.is_published = false;
            Ok(PublishAction::Unpublish)
        }
    }

    /// Tears the device down: stopped, with no sources and no connections.
    /// Returns whether its network publication must be withdrawn.
    pub fn shutdown(&mut self) -> (unpublish: bool)
        requires
            device_wf(old(self)@),
        ensures
            final(self)@ == (DeviceView {
                sources: Seq::empty(),
                connections: Seq::empty(),
                ..stopped_view(old(self)@)
            }),
            unpublish == (old(self)@.enabled && old(self)@.is_published),
            device_wf(final(self)@),
    {
        let unpublish = self.disable();
        self.sources = Vec::new();
        self.connections = Vec::new();
        assert(self@.sources =~= Seq::<SourceView>::empty());
        assert(self@.connections =~= Seq::<ConnView>::empty());
        unpublish
    }

    /// The track a new take records from a source: its id, its file
    /// `track_<sanitized id>.wav` and at least one channel.
    fn pending_track(s: &SourceState) -> (p: PendingTrack)
        ensures
            pending_matches(p, s@),
    {
        PendingTrack {
            source_id: s.id.clone(),
            file: track_file_name(s.id.as_str()),
            channels: if s.channels < 1 {
                1
            } else {
                s.channels
            },
        }
    }

    /// Starts a take of every source the device has, called `name` (by
    /// default `<device name> recording`), as session `session_id` begun at
    /// `created_at_ms`. Fails, changing nothing, when a take is already
    /// running or the device has no source. Returns the tracks to write, one
    /// per source in order; sources added later get none.
    pub fn start_recording(&mut self, session_id: String, name: Option<String>, created_at_ms: u64) -> (r: Result<
        Vec<PendingTrack>,
        String,
    >)
        requires
            device_wf(old(self)@),
        ensures
            device_wf(final(self)@),
            old(self)@.take is Some ==> (r matches Err(e) && e@ == "A recording is already in progress on this device"@
                && final(self)@ == old(self)@),
            old(self)@.take is None && old(self)@.sources.len() == 0 ==> (r matches Err(e) && e@
                == "Device has no sources to record"@ && final(self)@ == old(self)@),
            old(self)@.take is None && old(self)@.sources.len() > 0 ==> (r matches Ok(tracks) && final(self)@.take
                matches Some(t) && take_started(t, old(self)@, session_id@, name, created_at_ms) && tracks@.len()
                == old(self)@.sources.len() && (forall|i: int|
                0 <= i < tracks@.len() ==> pending_matches(#[trigger] tracks@[i], old(self)@.sources[i]))
                && final(self)@ == (DeviceView { take: final(self)@.take, ..old(self)@ })),
    {
        if self.take.is_some() {
            return Err("A recording is already in progress on this device".to_string());
        }
        if self.sources.len() == 0 {
            return Err("Device has no sources to record".to_string());
        }
        let mut pending: Vec<PendingTrack> = Vec::new();
        let mut tracks: Vec<PendingTrack> = Vec::new();
        let mut i: usize = 0;
        while i < self.sources.len()
            invariant
                i <= self.sources@.len(),
                tracks@.len() == i,
                pending@.len() == i,
                forall|j: int| 0 <= j < i ==> pending_matches(#[trigger] pending@[j], self@.sources[j]),
                forall|j: int| 0 <= j < i ==> pending_matches(#[trigger] tracks@[j], self@.sources[j]),
            decreases self.sources@.len() - i,
        {
            pending.push(Self::pending_track(&self.sources[i]));
            tracks.push(Self::pending_track(&self.sources[i]));
            i = i + 1;
        }
        let name = match name {
            Some(n) => n,
            None => default_recording_name(self.name.as_str()),
        };
        self.take = Some(
            RecordingLedger::new(session_id, name, self.id.clone(), self.name.clone(), created_at_ms, pending),
        );
        Ok(tracks)
    }

    /// Drops a take whose track writers could not all be started, so the
    /// device is left not recording.
    pub fn cancel_recording(&mut self)
        requires
            device_wf(old(self)@),
        ensures
            final(self)@ == (DeviceView { take: None, ..old(self)@ }),
            device_wf(final(self)@),
    {
        self.take = None;
    }

    /// The sources whose tracks the running take is still writing, in
    /// order, or None when no take is running.
    pub fn recording_sources(&self) -> (r: Option<Vec<String>>)
        ensures
            match self@.take {
                Some(t) => r matches Some(v) && v@.len() == t.pending@.len() && forall|i: int|
                    0 <= i < v@.len() ==> #[trigger] v@[i] == t.pending@[i].source_id,
                None => r is None,
            },
    {
        match &self.take {
            Some(t) => Some(t.source_ids()),
            None => None,
        }
    }

    /// Ends the running take: the tracks still being written close with
    /// the lengths in `frames` (one per such track, in the order
    /// `recording_sources` lists them), and the take's manifest lists every
    /// track closed earlier followed by those. Returns the manifest and its
    /// summary (its duration that of its longest track). Fails when no take
    /// is running, changing nothing, or, after ending the take, when the
    /// longest track is too long to express in milliseconds.
    pub fn stop_recording(&mut self, frames: &[u64]) -> (r: Result<(RecordingManifest, RecordingSummary), String>)
        requires
            device_wf(old(self)@),
            old(self)@.take matches Some(t) ==> frames@.len() == t.pending@.len(),
        ensures
            device_wf(final(self)@),
            old(self)@.take is None ==> (r matches Err(e) && e@ == "No recording in progress on this device"@
                && final(self)@ == old(self)@),
            old(self)@.take matches Some(t) ==> {
                &&& final(self)@ == (DeviceView { take: None, ..old(self)@ })
                &&& max_duration(ledger_tracks(t, frames@)) as int * 1000 <= u64::MAX ==> (r matches Ok(ms)
                    && manifest_of_take(ms.0, t, frames@) && summarizes(ms.1, ms.0))
                &&& max_duration(ledger_tracks(t, frames@)) as int * 1000 > u64::MAX ==> (r matches Err(e)
                    && e@ == "Recording is too long to summarize"@)
            },
    {
        let t = match self.take.take() {
            Some(t) => t,
            None => {
                return Err("No recording in progress on this device".to_string());
            },
        };
        let m = t.finish(frames);
        let mut longest: u64 = 0;
        let mut i: usize = 0;
        while i < m.tracks.len()
            invariant
                i <= m.tracks@.len(),
                longest == max_duration(m.tracks@.subrange(0, i as int)),
            decreases m.tracks@.len() - i,
        {
            assert(m.tracks@.subrange(0, i + 1).drop_last() =~= m.tracks@.subrange(0, i as int));
            if m.tracks[i].duration_frames > longest {
                longest = m.tracks[i].duration_frames;
            }
            i = i + 1;
        }
        assert(m.tracks@.subrange(0, i as int) =~= m.tracks@);
        if longest > u64::MAX / 1000 {
            return Err("Recording is too long to summarize".to_string());
        }
        let summary = RecordingSummary::from_manifest(&m);
        Ok((m, summary))
    }
}

/// `p` is the track a new take records from source `s`: same id, file
/// `track_<sanitized id>.wav`, at least one channel.
pub open spec fn pending_matches(p: PendingTrack, s: SourceView) -> bool {
    &&& p.source_id@ == s.id
    &&& p.file@ == "track_"@ + sanitize_component_spec(s.id) + ".wav"@
    &&& p.channels == if s.channels < 1 {
        1
    } else {
        s.channels
    }
}

/// `t` is the take just started on device `d` as session `session_id`,
/// called `name` (by default `<device name> recording`), begun at
/// `created_at_ms`: one pending track per source of `d`, in order, and
/// nothing finished yet.
pub open spec fn take_started(
    t: RecordingLedger,
    d: DeviceView,
    session_id: Seq<char>,
    name: Option<String>,
    created_at_ms: u64,
) -> bool {
    &&& t.session_id@ == session_id
    &&& t.name@ == match name {
        Some(n) => n@,
        None => d.name + " recording"@,
    }
    &&& t.device_id@ == d.id
    &&& t.device_name@ == d.name
    &&& t.created_at_ms == created_at_ms
    &&& t.pending@.len() == d.sources.len()
    &&& forall|i: int| 0 <= i < d.sources.len() ==> pending_matches(#[trigger] t.pending@[i], d.sources[i])
    &&& t.finished@.len() == 0
}

/// `m` is the manifest of take `t` ended with its pending tracks closed at
/// the lengths in `frames`.
pub open spec fn manifest_of_take(m: RecordingManifest, t: RecordingLedger, frames: Seq<u64>) -> bool {
    &&& m.session_id == t.session_id
    &&& m.name == t.name
    &&& m.device_id == t.device_id
    &&& m.device_name == t.device_name
    &&& m.created_at_ms == t.created_at_ms
    &&& m.tracks@ == ledger_tracks(t, frames)
}

/// `s` summarises manifest `m`: same session, name, device name and start,
/// its duration that of the longest track, one count per track.
pub open spec fn summarizes(s: RecordingSummary, m: RecordingManifest) -> bool {
    &&& s.session_id == m.session_id
    &&& s.name == m.name
    &&& s.device_name == m.device_name
    &&& s.created_at_ms == m.created_at_ms
    &&& s.duration_ms as int == duration_ms_of(max_duration(m.tracks@))
    &&& s.track_count == m.tracks@.len()
}

/// The source ids of a take's tracks, in order.
pub open spec fn track_ids(ts: Seq<TrackManifest>) -> Seq<Seq<char>> {
    ts.map_values(|m: TrackManifest| m.source_id@)
}

/// The source ids of a take's pending tracks, in order.
pub open spec fn pending_ids(t: RecordingLedger) -> Seq<Seq<char>> {
    t.pending@.map_values(|p: PendingTrack| p.source_id@)
}

/// The source ids of every track of a take, closed or still being written.
pub open spec fn take_ids(t: RecordingLedger) -> Seq<Seq<char>> {
    track_ids(t.finished@) + pending_ids(t)
}

/// The ids of a device's sources, in order.
pub open spec fn source_ids_of(ss: Seq<SourceView>) -> Seq<Seq<char>> {
    ss.map_values(|s: SourceView| s.id)
}

/// `ls` are the states of a take's ledger as the sources `ids` were
/// removed one after the other, their tracks closed at lengths `lens`.
pub open spec fn take_run(ls: Seq<RecordingLedger>, ids: Seq<Seq<char>>, lens: Seq<u64>) -> bool {
    &&& ls.len() == ids.len() + 1
    &&& lens.len() == ids.len()
    &&& forall|i: int| 0 <= i < ids.len() ==> #[trigger] ledger_finalized(ls[i], ls[i + 1], ids[i], lens[i])
}

proof fn lemma_finalize_keeps_tracks(a: RecordingLedger, b: RecordingLedger, id: Seq<char>, frames: u64)
    requires
        ledger_finalized(a, b, id, frames),
    ensures
        take_ids(b).to_multiset() == take_ids(a).to_multiset(),
        take_ids(b).len() == take_ids(a).len(),
        b.finished@.len() >= a.finished@.len(),
        b.finished@.subrange(0, a.finished@.len() as int) == a.finished@,
{
    broadcast use vstd::multiset::group_multiset_axioms;
    broadcast use vstd::seq_lib::lemma_multiset_commutative;
    broadcast use vstd::seq_lib::to_multiset_build;
    broadcast use vstd::seq_lib::to_multiset_remove;

    match crate::edit::pending_from(a.pending@, id, 0) {
        Some(i) => {
            crate::edit::lemma_pending_from_found(a.pending@, id, 0);
            let x = a.pending@[i].source_id@;
            let fa = track_ids(a.finished@);
            let pa = pending_ids(a);
            assert(track_ids(b.finished@) =~= fa.push(x));
            assert(pending_ids(b) =~= pa.remove(i));
            assert(pa[i] == x);
            let m1 = fa.to_multiset();
            let m2 = pa.to_multiset();
            assert(m2.count(x) > 0) by {
                vstd::seq_lib::to_multiset_contains(pa, x);
                assert(pa.contains(x));
            }
            assert(take_ids(b) == fa.push(x) + pa.remove(i));
            assert(take_ids(b).to_multiset() =~= m1.insert(x).add(m2.remove(x)));
            assert(m1.insert(x).add(m2.remove(x)) =~= m1.add(m2));
            assert(b.finished@.subrange(0, a.finished@.len() as int) =~= a.finished@);
        },
        None => {
            assert(track_ids(b.finished@) =~= track_ids(a.finished@));
            assert(pending_ids(b) =~= pending_ids(a));
            assert(b.finished@.subrange(0, a.finished@.len() as int) =~= a.finished@);
        },
    }
}

proof fn lemma_take_run_prefix(ls: Seq<RecordingLedger>, ids: Seq<Seq<char>>, lens: Seq<u64>, k: int)
    requires
        take_run(ls, ids, lens),
        0 <= k <= ids.len(),
    ensures
        take_ids(ls[k]).to_multiset() == take_ids(ls[0]).to_multiset(),
        take_ids(ls[k]).len() == take_ids(ls[0]).len(),
        forall|j: int|
            0 <= j <= k ==> ls[k].finished@.len() >= (#[trigger] ls[j]).finished@.len() && ls[k].finished@.subrange(
                0,
                ls[j].finished@.len() as int,
            ) == ls[j].finished@,
    decreases k,
{
    if k > 0 {
        lemma_take_run_prefix(ls, ids, lens, k - 1);
        let i = k - 1;
        assert(ledger_finalized(ls[i], ls[i + 1], ids[i], lens[i]));
        assert(i + 1 == k);
        lemma_finalize_keeps_tracks(ls[k - 1], ls[k], ids[k - 1], lens[k - 1]);
        assert forall|j: int| 0 <= j <= k implies ls[k].finished@.len() >= (#[trigger] ls[j]).finished@.len()
            && ls[k].finished@.subrange(0, ls[j].finished@.len() as int) == ls[j].finished@ by {
            if j < k {
                let fk = ls[k].finished@;
                let fp = ls[k - 1].finished@;
                assert(fp.subrange(0, ls[j].finished@.len() as int) == ls[j].finished@);
                assert(fk.subrange(0, fp.len() as int) == fp);
                assert(fk.subrange(0, ls[j].finished@.len() as int) =~= fp.subrange(0, ls[j].finished@.len() as int));
            } else {
                assert(ls[k].finished@.subrange(0, ls[k].finished@.len() as int) =~= ls[k].finished@);
            }
        }
    } else {
        assert(ls[0].finished@.subrange(0, ls[0].finished@.len() as int) =~= ls[0].finished@);
    }
}

/// The recording law over a whole take. A take started on device `d`
/// (one pending track per source, see `take_started`), whatever sources
/// are removed during it, ends with a manifest that holds exactly one track
/// per source the device had when the take started: the same source ids,
/// each as often, and so as many tracks as sources. Sources added later get
/// none. A track closed when its source was removed stays in the manifest,
/// where it was placed, with the length it was closed at. (Once stopped,
/// the device has no take, so stopping again is refused: see
/// `VirtualDevice::stop_recording`.)
pub proof fn lemma_take_keeps_one_track_per_source(
    d: DeviceView,
    ls: Seq<RecordingLedger>,
    ids: Seq<Seq<char>>,
    lens: Seq<u64>,
    session_id: Seq<char>,
    name: Option<String>,
    created_at_ms: u64,
    frames: Seq<u64>,
)
    requires
        take_started(ls[0], d, session_id, name, created_at_ms),
        take_run(ls, ids, lens),
        frames.len() == ls.last().pending@.len(),
    ensures
        track_ids(ledger_tracks(ls.last(), frames)).to_multiset() == source_ids_of(d.sources).to_multiset(),
        ledger_tracks(ls.last(), frames).len() == d.sources.len(),
        forall|j: int|
            0 <= j < ls.len() ==> ledger_tracks(ls.last(), frames).subrange(0, (#[trigger] ls[j]).finished@.len() as int)
                == ls[j].finished@,
{
    let n = ids.len() as int;
    lemma_take_run_prefix(ls, ids, lens, n);
    assert(ls.last() == ls[n]);
    let t0 = ls[0];
    let last = ls[n];
    assert(take_ids(t0) =~= source_ids_of(d.sources)) by {
        assert(track_ids(t0.finished@) =~= Seq::<Seq<char>>::empty());
        assert forall|i: int| 0 <= i < d.sources.len() implies pending_ids(t0)[i] == source_ids_of(d.sources)[i] by {
            assert(pending_matches(t0.pending@[i], d.sources[i]));
        }
    }
    let tr = ledger_tracks(last, frames);
    assert(track_ids(tr) =~= take_ids(last)) by {
        assert forall|i: int| 0 <= i < tr.len() implies track_ids(tr)[i] == take_ids(last)[i] by {
            if i >= last.finished@.len() {
                let j = i - last.finished@.len();
                assert(tr[i] == finished_entry(last.pending@[j], frames[j]));
            }
        }
    }
    assert forall|j: int| 0 <= j < ls.len() implies tr.subrange(0, (#[trigger] ls[j]).finished@.len() as int)
        == ls[j].finished@ by {
        assert(last.finished@.subrange(0, ls[j].finished@.len() as int) == ls[j].finished@);
        assert(tr.subrange(0, ls[j].finished@.len() as int) =~= last.finished@.subrange(
            0,
            ls[j].finished@.len() as int,
        ));
    }
}

} // verus!
