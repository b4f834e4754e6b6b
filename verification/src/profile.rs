//! Saving the routing setup as a profile and building devices back from
//! one. A profile keeps, per device, its name, output channel count,
//! whether it runs, its sources with their gain and mute, its connections
//! and its monitors with their channel wiring, exclusive mode, buffer,
//! delay and EQ.
use vstd::prelude::*;

use crate::router::{device_id_for, issued_id, router_wf, Router, RouterView};
use crate::routing::{
    clamp_u32, clamp_usize, conn_has_key, conn_pos, device_wf, distinct_conns, monitor_pos,
    new_device_view, new_monitor_view, source_pos, upsert_conn, ConnView, Connection, VirtualDevice, DeviceView,
    EqBandBits, MonitorState, MonitorView, SourceState, SourceView, MAX_MONITOR_BUFFER_MS,
    MAX_MONITOR_DELAY_MS, MAX_OUTPUT_CHANNELS, MIN_MONITOR_BUFFER_MS, MIN_OUTPUT_CHANNELS,
};

verus! {

/// A source as saved: its id, gain (as `f32` bits) and mute.
pub struct SourceProfile {
    pub id: String,
    pub gain_bits: u32,
    pub muted: bool,
}

pub struct SourceProfileView {
    pub id: Seq<char>,
    pub gain_bits: u32,
    pub muted: bool,
}

impl View for SourceProfile {
    type V = SourceProfileView;

    open spec fn view(&self) -> SourceProfileView {
        SourceProfileView { id: self.id@, gain_bits: self.gain_bits, muted: self.muted }
    }
}

/// A monitor as saved: its output's name, which output channel feeds each
/// of its channels, exclusive mode, buffer, delay and EQ bands.
pub struct MonitorProfile {
    pub name: String,
    pub channel_map: Vec<Option<usize>>,
    pub exclusive: bool,
    pub buffer_ms: u32,
    pub delay_ms: u32,
    pub eq_bands: Vec<EqBandBits>,
}

pub struct MonitorProfileView {
    pub name: Seq<char>,
    pub channel_map: Seq<Option<usize>>,
    pub exclusive: bool,
    pub buffer_ms: u32,
    pub delay_ms: u32,
    pub eq_bands: Seq<EqBandBits>,
}

impl View for MonitorProfile {
    type V = MonitorProfileView;

    open spec fn view(&self) -> MonitorProfileView {
        MonitorProfileView {
            name: self.name@,
            channel_map: self.channel_map@,
            exclusive: self.exclusive,
            buffer_ms: self.buffer_ms,
            delay_ms: self.delay_ms,
            eq_bands: self.eq_bands@,
        }
    }
}

/// One device as saved.
pub struct DeviceProfile {
    pub name: String,
    pub output_channels: usize,
    pub enabled: bool,
    pub sources: Vec<SourceProfile>,
    pub connections: Vec<Connection>,
    pub monitors: Vec<MonitorProfile>,
}

pub struct DeviceProfileView {
    pub name: Seq<char>,
    pub output_channels: usize,
    pub enabled: bool,
    pub sources: Seq<SourceProfileView>,
    pub connections: Seq<ConnView>,
    pub monitors: Seq<MonitorProfileView>,
}

impl View for DeviceProfile {
    type V = DeviceProfileView;

    open spec fn view(&self) -> DeviceProfileView {
        DeviceProfileView {
            name: self.name@,
            output_channels: self.output_channels,
            enabled: self.enabled,
            sources: self.sources@.map_values(|s: SourceProfile| s@),
            connections: self.connections@.map_values(|c: Connection| c@),
            monitors: self.monitors@.map_values(|m: MonitorProfile| m@),
        }
    }
}

/// The whole routing setup: every device, in order.
pub struct Profile {
    pub devices: Vec<DeviceProfile>,
}

impl View for Profile {
    type V = Seq<DeviceProfileView>;

    open spec fn view(&self) -> Seq<DeviceProfileView> {
        self.devices@.map_values(|d: DeviceProfile| d@)
    }
}

impl Default for Profile {
    fn default() -> (p: Profile)
        ensures
            p@.len() == 0,
    {
        Profile { devices: Vec::new() }
    }
}

// ---------------------------------------------------------------------
// What a profile records of a device.
// ---------------------------------------------------------------------

pub open spec fn source_profile_of(s: SourceView) -> SourceProfileView {
    SourceProfileView { id: s.id, gain_bits: s.gain_bits, muted: s.muted }
}

pub open spec fn monitor_profile_of(m: MonitorView) -> MonitorProfileView {
    MonitorProfileView {
        name: m.name,
        channel_map: m.channel_map,
        exclusive: m.exclusive,
        buffer_ms: m.buffer_ms,
        delay_ms: m.delay_ms,
        eq_bands: m.eq,
    }
}

pub open spec fn source_profiles_of(ss: Seq<SourceView>) -> Seq<SourceProfileView> {
    Seq::new(ss.len(), |i: int| source_profile_of(ss[i]))
}

pub open spec fn monitor_profiles_of(ms: Seq<MonitorView>) -> Seq<MonitorProfileView> {
    Seq::new(ms.len(), |i: int| monitor_profile_of(ms[i]))
}

/// The profile of one device: name, channel count, whether it runs, its
/// sources, connections and monitors (with their wiring and settings) in
/// order. Publication and whether a monitor is playing are not part of a
/// profile.
pub open spec fn device_profile_of(d: DeviceView) -> DeviceProfileView {
    DeviceProfileView {
        name: d.name,
        output_channels: d.output_channels,
        enabled: d.enabled,
        sources: source_profiles_of(d.sources),
        connections: d.connections,
        monitors: monitor_profiles_of(d.monitors),
    }
}

/// The profile of every device, in order.
pub open spec fn profile_of(r: RouterView) -> Seq<DeviceProfileView> {
    Seq::new(r.devices.len(), |i: int| device_profile_of(r.devices[i]))
}

fn copy_bands(bands: &Vec<EqBandBits>) -> (r: Vec<EqBandBits>)
    ensures
        r@ == bands@,
{
    let mut r: Vec<EqBandBits> = Vec::new();
    let mut i: usize = 0;
    while i < bands.len()
        invariant
            i <= bands@.len(),
            r@ == bands@.subrange(0, i as int),
        decreases bands@.len() - i,
    {
        r.push(bands[i].clone());
        i = i + 1;
        assert(r@ =~= bands@.subrange(0, i as int));
    }
    assert(bands@.subrange(0, i as int) =~= bands@);
    r
}

/// A channel map of `n` entries: the first `n` of `map`, then unwired
/// channels where `map` is shorter.
pub open spec fn fitted_map(map: Seq<Option<usize>>, n: nat) -> Seq<Option<usize>> {
    Seq::new(n, |k: int| if k < map.len() { map[k] } else { None })
}

fn fit_map(map: &Vec<Option<usize>>, n: usize) -> (r: Vec<Option<usize>>)
    ensures
        r@ == fitted_map(map@, n as nat),
{
    let mut r: Vec<Option<usize>> = Vec::new();
    let mut k: usize = 0;
    while k < n
        invariant
            k <= n,
            r@ == fitted_map(map@, k as nat),
        decreases n - k,
    {
        let e = if k < map.len() {
            map[k]
        } else {
            None
        };
        r.push(e);
        k = k + 1;
        assert(r@ =~= fitted_map(map@, k as nat));
    }
    r
}

fn copy_connections(cs: &Vec<Connection>) -> (r: Vec<Connection>)
    ensures
        r@.map_values(|c: Connection| c@) == cs@.map_values(|c: Connection| c@),
{
    let mut r: Vec<Connection> = Vec::new();
    let mut i: usize = 0;
    while i < cs.len()
        invariant
            i <= cs@.len(),
            r@.len() == i,
            forall|j: int| 0 <= j < i ==> (#[trigger] r@[j])@ == cs@[j]@,
        decreases cs@.len() - i,
    {
        r.push(cs[i].clone());
        i = i + 1;
    }
    assert(r@.map_values(|c: Connection| c@) =~= cs@.map_values(|c: Connection| c@));
    r
}

fn source_profile(s: &SourceState) -> (r: SourceProfile)
    ensures
        r@ == source_profile_of(s@),
{
    SourceProfile { id: s.id.clone(), gain_bits: s.gain_bits, muted: s.muted }
}

fn monitor_profile(m: &MonitorState) -> (r: MonitorProfile)
    ensures
        r@ == monitor_profile_of(m@),
{
    let channel_map = fit_map(&m.channel_map, m.channel_map.len());
    assert(channel_map@ =~= m.channel_map@);
    MonitorProfile {
        name: m.name.clone(),
        channel_map,
        exclusive: m.exclusive,
        buffer_ms: m.buffer_ms,
        delay_ms: m.delay_ms,
        eq_bands: copy_bands(&m.eq),
    }
}

impl VirtualDevice {
    /// This device's profile.
    pub fn profile(&self) -> (r: DeviceProfile)
        ensures
            r@ == device_profile_of(self@),
    {
        let mut sources: Vec<SourceProfile> = Vec::new();
        let mut i: usize = 0;
        while i < self.sources.len()
            invariant
                i <= self.sources@.len(),
                sources@.len() == i,
                forall|j: int| 0 <= j < i ==> (#[trigger] sources@[j])@ == source_profile_of(self@.sources[j]),
            decreases self.sources@.len() - i,
        {
            sources.push(source_profile(&self.sources[i]));
            i = i + 1;
        }
        let mut monitors: Vec<MonitorProfile> = Vec::new();
        let mut k: usize = 0;
        while k < self.monitors.len()
            invariant
                k <= self.monitors@.len(),
                monitors@.len() == k,
                forall|j: int| 0 <= j < k ==> (#[trigger] monitors@[j])@ == monitor_profile_of(self@.monitors[j]),
            decreases self.monitors@.len() - k,
        {
            monitors.push(monitor_profile(&self.monitors[k]));
            k = k + 1;
        }
        let r = DeviceProfile {
            name: self.name.clone(),
            output_channels: self.output_channels,
            enabled: self.enabled,
            sources,
            connections: copy_connections(&self.connections),
            monitors,
        };
        assert(r@.sources =~= source_profiles_of(self@.sources));
        assert(r@.monitors =~= monitor_profiles_of(self@.monitors));
        assert(r@.connections =~= self@.connections);
        r
    }
}

impl Router {
    /// The profile of the whole setup: every device in order.
    pub fn snapshot_profile(&self) -> (p: Profile)
        ensures
            p@ == profile_of(self@),
    {
        let mut devices: Vec<DeviceProfile> = Vec::new();
        let mut i: usize = 0;
        while i < self.devices.len()
            invariant
                i <= self.devices@.len(),
                devices@.len() == i,
                forall|j: int| 0 <= j < i ==> (#[trigger] devices@[j])@ == device_profile_of(self@.devices[j]),
            decreases self.devices@.len() - i,
        {
            devices.push(self.devices[i].profile());
            i = i + 1;
        }
        let p = Profile { devices };
        assert(p@ =~= profile_of(self@));
        p
    }
}


// ---------------------------------------------------------------------
// Building a device from its profile.
// ---------------------------------------------------------------------

/// The sources after applying one saved source: a source the device has
/// takes the saved gain and mute; a new one (whose capture delivers `ch`
/// channels) is appended with them.
pub open spec fn source_step(ss: Seq<SourceView>, sp: SourceProfileView, ch: usize) -> Seq<SourceView> {
    match source_pos(ss, sp.id) {
        Some(i) => ss.update(i, SourceView { gain_bits: sp.gain_bits, muted: sp.muted, ..ss[i] }),
        None => ss.push(SourceView { id: sp.id, channels: ch, gain_bits: sp.gain_bits, muted: sp.muted }),
    }
}

/// The sources after applying the first `n` saved sources in order.
pub open spec fn apply_sources(
    ss: Seq<SourceView>,
    sps: Seq<SourceProfileView>,
    chs: Seq<usize>,
    n: int,
) -> Seq<SourceView>
    decreases n,
{
    if n <= 0 {
        ss
    } else {
        source_step(apply_sources(ss, sps, chs, n - 1), sps[n - 1], chs[n - 1])
    }
}

/// The connections after setting the first `n` saved connections in order.
pub open spec fn apply_conns(cs: Seq<ConnView>, cps: Seq<ConnView>, n: int) -> Seq<ConnView>
    decreases n,
{
    if n <= 0 {
        cs
    } else {
        upsert_conn(apply_conns(cs, cps, n - 1), cps[n - 1])
    }
}

/// The monitors after applying one saved monitor: a monitor the device has
/// takes the saved wiring (fitted to its channel count), exclusive mode,
/// buffer, delay and EQ; a new one (an output with `ch` channels) is
/// appended with them, its wiring fitted to `ch` channels. Buffer and delay
/// are clamped to their ranges; the monitor is not playing.
pub open spec fn monitor_step(ms: Seq<MonitorView>, mp: MonitorProfileView, ch: usize) -> Seq<MonitorView> {
    let buffer_ms = clamp_u32(mp.buffer_ms, MIN_MONITOR_BUFFER_MS, MAX_MONITOR_BUFFER_MS);
    let delay_ms = clamp_u32(mp.delay_ms, 0, MAX_MONITOR_DELAY_MS);
    match monitor_pos(ms, mp.name) {
        Some(i) => ms.update(
            i,
            MonitorView {
                channel_map: fitted_map(mp.channel_map, ms[i].channel_map.len()),
                exclusive: mp.exclusive,
                buffer_ms,
                delay_ms,
                eq: mp.eq_bands,
                live: false,
                ..ms[i]
            },
        ),
        None => ms.push(
            MonitorView {
                channel_map: fitted_map(mp.channel_map, ch as nat),
                exclusive: mp.exclusive,
                buffer_ms,
                delay_ms,
                eq: mp.eq_bands,
                ..new_monitor_view(mp.name, ch)
            },
        ),
    }
}

/// The monitors after applying the first `n` saved monitors in order.
pub open spec fn apply_monitors(
    ms: Seq<MonitorView>,
    mps: Seq<MonitorProfileView>,
    chs: Seq<usize>,
    n: int,
) -> Seq<MonitorView>
    decreases n,
{
    if n <= 0 {
        ms
    } else {
        monitor_step(apply_monitors(ms, mps, chs, n - 1), mps[n - 1], chs[n - 1])
    }
}

/// Device `d` after applying profile `dp`: the channel count (clamped),
/// then the sources, the connections and the monitors in the profile's
/// order. `sc[k]` and `mc[k]` are the channel counts that the capture of
/// the `k`-th saved source and the output of the `k`-th saved monitor
/// delivered.
pub open spec fn applied_device(d: DeviceView, dp: DeviceProfileView, sc: Seq<usize>, mc: Seq<usize>) -> DeviceView {
    DeviceView {
        output_channels: clamp_usize(dp.output_channels, MIN_OUTPUT_CHANNELS, MAX_OUTPUT_CHANNELS),
        sources: apply_sources(d.sources, dp.sources, sc, dp.sources.len() as int),
        connections: apply_conns(d.connections, dp.connections, dp.connections.len() as int),
        monitors: apply_monitors(d.monitors, dp.monitors, mc, dp.monitors.len() as int),
        ..d
    }
}

impl VirtualDevice {
    fn apply_source_profile(&mut self, sp: &SourceProfile, channels: usize)
        requires
            device_wf(old(self)@),
        ensures
            final(self)@ == (DeviceView { sources: source_step(old(self)@.sources, sp@, channels), ..old(self)@ }),
            device_wf(final(self)@),
    {
        proof {
            crate::routing::lemma_source_from_found(old(self)@.sources, sp@.id, 0);
        }
        match self.source_index(sp.id.as_str()) {
            Some(i) => {
                let mut s = self.sources.remove(i);
                s.gain_bits = sp.gain_bits;
                s.muted = sp.muted;
                self.sources.insert(i, s);
                assert(self@.sources =~= source_step(old(self)@.sources, sp@, channels));
            },
            None => {
                self.sources.push(
                    SourceState { id: sp.id.clone(), channels, gain_bits: sp.gain_bits, muted: sp.muted },
                );
                assert(self@.sources =~= source_step(old(self)@.sources, sp@, channels));
            },
        }
    }

    fn apply_monitor_profile(&mut self, mp: &MonitorProfile, channels: usize)
        requires
            device_wf(old(self)@),
        ensures
            final(self)@ == (DeviceView { monitors: monitor_step(old(self)@.monitors, mp@, channels), ..old(self)@ }),
            device_wf(final(self)@),
    {
        proof {
            crate::routing::lemma_monitor_from_found(old(self)@.monitors, mp@.name, 0);
        }
        let buffer_ms = if mp.buffer_ms < MIN_MONITOR_BUFFER_MS {
            MIN_MONITOR_BUFFER_MS
        } else if mp.buffer_ms > MAX_MONITOR_BUFFER_MS {
            MAX_MONITOR_BUFFER_MS
        } else {
            mp.buffer_ms
        };
        let delay_ms = if mp.delay_ms > MAX_MONITOR_DELAY_MS {
            MAX_MONITOR_DELAY_MS
        } else {
            mp.delay_ms
        };
        match self.monitor_index(mp.name.as_str()) {
            Some(i) => {
                let mut m = self.monitors.remove(i);
                m.channel_map = fit_map(&mp.channel_map, m.channel_map.len());
                m.exclusive = mp.exclusive;
                m.buffer_ms = buffer_ms;
                m.delay_ms = delay_ms;
                m.eq = copy_bands(&mp.eq_bands);
                m.live = false;
                self.monitors.insert(i, m);
                assert(self@.monitors =~= monitor_step(old(self)@.monitors, mp@, channels));
            },
            None => {
                self.monitors.push(
                    MonitorState {
                        name: mp.name.clone(),
                        channel_map: fit_map(&mp.channel_map, channels),
                        exclusive: mp.exclusive,
                        buffer_ms,
                        delay_ms,
                        eq: copy_bands(&mp.eq_bands),
                        live: false,
                    },
                );
                assert(self@.monitors =~= monitor_step(old(self)@.monitors, mp@, channels));
            },
        }
    }

    /// Applies profile `dp` to this (stopped) device: its channel count,
    /// then its sources, connections and monitors in order. `source_channels[k]`
    /// is the channel count delivered by the capture started for the `k`-th
    /// saved source (unused when the device already has that source), and
    /// `monitor_channels[k]` that of the output of the `k`-th saved monitor.
    /// The device's name, enabled state and publication are left as they are.
    pub fn apply_device_profile(&mut self, dp: &DeviceProfile, source_channels: &[usize], monitor_channels: &[usize])
        requires
            device_wf(old(self)@),
            !old(self)@.enabled,
            source_channels@.len() == dp@.sources.len(),
            monitor_channels@.len() == dp@.monitors.len(),
        ensures
            final(self)@ == applied_device(old(self)@, dp@, source_channels@, monitor_channels@),
            device_wf(final(self)@),
    {
        self.set_output_channels(dp.output_channels);
        let ghost base = self@;
        let mut k: usize = 0;
        while k < dp.sources.len()
            invariant
                k <= dp@.sources.len(),
                source_channels@.len() == dp@.sources.len(),
                device_wf(self@),
                device_wf(base),
                self@ == (DeviceView {
                    sources: apply_sources(base.sources, dp@.sources, source_channels@, k as int),
                    ..base
                }),
            decreases dp@.sources.len() - k,
        {
            self.apply_source_profile(&dp.sources[k], source_channels[k]);
            k = k + 1;
        }
        let ghost base2 = self@;
        let mut c: usize = 0;
        while c < dp.connections.len()
            invariant
                c <= dp@.connections.len(),
                device_wf(self@),
                self@ == (DeviceView {
                    connections: apply_conns(base2.connections, dp@.connections, c as int),
                    ..base2
                }),
            decreases dp@.connections.len() - c,
        {
            self.set_connection(dp.connections[c].clone());
            c = c + 1;
        }
        let ghost base3 = self@;
        let mut m: usize = 0;
        while m < dp.monitors.len()
            invariant
                m <= dp@.monitors.len(),
                monitor_channels@.len() == dp@.monitors.len(),
                device_wf(self@),
                self@ == (DeviceView {
                    monitors: apply_monitors(base3.monitors, dp@.monitors, monitor_channels@, m as int),
                    ..base3
                }),
            decreases dp@.monitors.len() - m,
        {
            self.apply_monitor_profile(&dp.monitors[m], monitor_channels[m]);
            m = m + 1;
        }
    }
}

impl Router {
    /// Replaces every device by the devices of `profile`, created in its
    /// order (as `create_device` names them) and configured as it says;
    /// returns the devices that were there, for their live resources to be
    /// shut down. The devices are left stopped: those whose profile says
    /// they run are enabled next. `source_channels[i][k]` and
    /// `monitor_channels[i][k]` are the channel counts delivered by the
    /// capture and output started for the `k`-th source and monitor of the
    /// `i`-th device.
    pub fn apply_profile(
        &mut self,
        profile: &Profile,
        source_channels: &Vec<Vec<usize>>,
        monitor_channels: &Vec<Vec<usize>>,
    ) -> (removed: Vec<VirtualDevice>)
        requires
            router_wf(old(self)@),
            old(self).next_id + profile@.len() <= u32::MAX,
            source_channels@.len() == profile@.len(),
            monitor_channels@.len() == profile@.len(),
            forall|i: int|
                0 <= i < profile@.len() ==> (#[trigger] source_channels@[i])@.len() == profile@[i].sources.len()
                    && monitor_channels@[i]@.len() == profile@[i].monitors.len(),
        ensures
            router_wf(final(self)@),
            final(self).next_id == old(self).next_id + profile@.len(),
            final(self)@.endpoints == old(self)@.endpoints,
            removed@.len() == old(self)@.devices.len(),
            forall|i: int| 0 <= i < removed@.len() ==> (#[trigger] removed@[i])@ == old(self)@.devices[i],
            final(self)@.devices.len() == profile@.len(),
            forall|i: int|
                0 <= i < profile@.len() ==> #[trigger] final(self)@.devices[i] == applied_device(
                    new_device_view(device_id_for((old(self).next_id + i + 1) as nat), profile@[i].name),
                    profile@[i],
                    source_channels@[i]@,
                    monitor_channels@[i]@,
                ),
            (forall|i: int| 0 <= i < profile@.len() ==> canonical_profile(#[trigger] profile@[i])) && (forall|
                i: int,
                k: int,
            |
                0 <= i < profile@.len() && 0 <= k < profile@[i].monitors.len() ==> #[trigger] monitor_channels@[i]@[k]
                    == profile@[i].monitors[k].channel_map.len()) ==> forall|i: int|
                0 <= i < profile@.len() ==> device_profile_of(
                    DeviceView { enabled: profile@[i].enabled, ..#[trigger] final(self)@.devices[i] },
                ) == profile@[i],
    {
        let mut removed: Vec<VirtualDevice> = Vec::new();
        std::mem::swap(&mut removed, &mut self.devices);
        assert(self@.devices =~= Seq::<DeviceView>::empty());
        assert(self@.endpoints =~= old(self)@.endpoints);
        let ghost start = old(self).next_id;
        let mut i: usize = 0;
        while i < profile.devices.len()
            invariant
                i <= profile@.len(),
                router_wf(self@),
                self.next_id == start + i,
                start + profile@.len() <= u32::MAX,
                self@.endpoints == old(self)@.endpoints,
                removed@.len() == old(self)@.devices.len(),
                forall|j: int| 0 <= j < removed@.len() ==> (#[trigger] removed@[j])@ == old(self)@.devices[j],
                self@.devices.len() == i,
                source_channels@.len() == profile@.len(),
                monitor_channels@.len() == profile@.len(),
                forall|j: int|
                    0 <= j < profile@.len() ==> (#[trigger] source_channels@[j])@.len() == profile@[j].sources.len()
                        && monitor_channels@[j]@.len() == profile@[j].monitors.len(),
                forall|j: int|
                    0 <= j < i ==> #[trigger] self@.devices[j] == applied_device(
                        new_device_view(device_id_for((start + j + 1) as nat), profile@[j].name),
                        profile@[j],
                        source_channels@[j]@,
                        monitor_channels@[j]@,
                    ),
            decreases profile@.len() - i,
        {
            let dp = &profile.devices[i];
            let ghost before = self@;
            let id = self.create_device(dp.name.clone());
            let ghost created = self@;
            let mut d = self.devices.pop().unwrap();
            assert(d@ == created.devices.last());
            assert(source_channels@[i as int]@.len() == profile@[i as int].sources.len());
            d.apply_device_profile(dp, source_channels[i].as_slice(), monitor_channels[i].as_slice());
            self.devices.push(d);
            proof {
                let n = self@.devices.len() - 1;
                assert(self@.devices[n].id == created.devices[n].id);
                assert forall|a: int| 0 <= a < n implies #[trigger] self@.devices[a] == created.devices[a] by {}
                assert forall|a: int, b: int| 0 <= a < b < self@.devices.len() implies self@.devices[a].id
                    != self@.devices[b].id by {
                    assert(created.devices[a].id != created.devices[b].id);
                }
                assert forall|a: int| 0 <= a < self@.devices.len() implies issued_id(
                    #[trigger] self@.devices[a].id,
                    self.next_id as nat,
                ) && device_wf(self@.devices[a]) by {
                    assert(issued_id(created.devices[a].id, self.next_id as nat));
                }
                assert(self@.endpoints =~= created.endpoints);
                assert(dp@ == profile@[i as int]);
                assert forall|j: int| 0 <= j < i + 1 implies #[trigger] self@.devices[j] == applied_device(
                    new_device_view(device_id_for((start + j + 1) as nat), profile@[j].name),
                    profile@[j],
                    source_channels@[j]@,
                    monitor_channels@[j]@,
                ) by {
                    if j < i {
                        assert(self@.devices[j] == before.devices[j]);
                    }
                }
            }
            i = i + 1;
        }
        proof {
            if (forall|j: int| 0 <= j < profile@.len() ==> canonical_profile(#[trigger] profile@[j])) && (forall|
                j: int,
                k: int,
            |
                0 <= j < profile@.len() && 0 <= k < profile@[j].monitors.len() ==> #[trigger] monitor_channels@[j]@[k]
                    == profile@[j].monitors[k].channel_map.len()) {
                assert forall|j: int| 0 <= j < profile@.len() implies device_profile_of(
                    DeviceView { enabled: profile@[j].enabled, ..#[trigger] self@.devices[j] },
                ) == profile@[j] by {
                    let b = new_device_view(device_id_for((start + j + 1) as nat), profile@[j].name);
                    assert(blank_device(b));
                    assert forall|k: int| 0 <= k < monitor_channels@[j]@.len() implies #[trigger] monitor_channels@[j]@[k]
                        == profile@[j].monitors[k].channel_map.len() by {
                        assert(source_channels@[j]@.len() == profile@[j].sources.len());
                        assert(monitor_channels@[j]@.len() == profile@[j].monitors.len());
                    }
                    lemma_apply_profile_roundtrip(b, profile@[j], source_channels@[j]@, monitor_channels@[j]@);
                }
            }
        }
        removed
    }
}

// ---------------------------------------------------------------------
// Laws of saving and loading.
// ---------------------------------------------------------------------

/// A profile as a well-formed device produces it: sources, connections and
/// monitors each identified uniquely, and every setting within its range.
pub open spec fn canonical_profile(dp: DeviceProfileView) -> bool {
    &&& forall|i: int, j: int| 0 <= i < j < dp.sources.len() ==> dp.sources[i].id != dp.sources[j].id
    &&& distinct_conns(dp.connections)
    &&& forall|i: int, j: int| 0 <= i < j < dp.monitors.len() ==> dp.monitors[i].name != dp.monitors[j].name
    &&& MIN_OUTPUT_CHANNELS <= dp.output_channels <= MAX_OUTPUT_CHANNELS
    &&& forall|i: int|
        0 <= i < dp.monitors.len() ==> MIN_MONITOR_BUFFER_MS <= (#[trigger] dp.monitors[i]).buffer_ms
            <= MAX_MONITOR_BUFFER_MS && dp.monitors[i].delay_ms <= MAX_MONITOR_DELAY_MS
}

/// A device with no sources, connections or monitors.
pub open spec fn blank_device(d: DeviceView) -> bool {
    d.sources.len() == 0 && d.connections.len() == 0 && d.monitors.len() == 0
}

proof fn lemma_apply_sources_blank(sps: Seq<SourceProfileView>, chs: Seq<usize>, n: int)
    requires
        0 <= n <= sps.len(),
        chs.len() == sps.len(),
        forall|i: int, j: int| 0 <= i < j < sps.len() ==> sps[i].id != sps[j].id,
    ensures
        apply_sources(Seq::empty(), sps, chs, n) == Seq::new(
            n as nat,
            |i: int| SourceView { id: sps[i].id, channels: chs[i], gain_bits: sps[i].gain_bits, muted: sps[i].muted },
        ),
    decreases n,
{
    if n > 0 {
        lemma_apply_sources_blank(sps, chs, n - 1);
        let prev = apply_sources(Seq::empty(), sps, chs, n - 1);
        crate::routing::lemma_source_from_found(prev, sps[n - 1].id, 0);
        if source_pos(prev, sps[n - 1].id) is Some {
            let k = source_pos(prev, sps[n - 1].id)->0;
            assert(prev[k].id == sps[k].id);
        }
        assert(apply_sources(Seq::empty(), sps, chs, n) =~= Seq::new(
            n as nat,
            |i: int| SourceView { id: sps[i].id, channels: chs[i], gain_bits: sps[i].gain_bits, muted: sps[i].muted },
        ));
    } else {
        assert(apply_sources(Seq::empty(), sps, chs, n) =~= Seq::new(
            n as nat,
            |i: int| SourceView { id: sps[i].id, channels: chs[i], gain_bits: sps[i].gain_bits, muted: sps[i].muted },
        ));
    }
}

proof fn lemma_apply_conns_blank(cps: Seq<ConnView>, n: int)
    requires
        0 <= n <= cps.len(),
        distinct_conns(cps),
    ensures
        apply_conns(Seq::empty(), cps, n) == cps.subrange(0, n),
    decreases n,
{
    if n > 0 {
        lemma_apply_conns_blank(cps, n - 1);
        let prev = apply_conns(Seq::empty(), cps, n - 1);
        let c = cps[n - 1];
        crate::routing::lemma_conn_from_found(prev, c.source_id, c.source_channel, c.output_channel, 0);
        if conn_pos(prev, c.source_id, c.source_channel, c.output_channel) is Some {
            let k = conn_pos(prev, c.source_id, c.source_channel, c.output_channel)->0;
            assert(prev[k] == cps[k]);
            assert(conn_has_key(cps[n - 1], cps[k].source_id, cps[k].source_channel, cps[k].output_channel));
        }
        assert(apply_conns(Seq::empty(), cps, n) =~= cps.subrange(0, n));
    } else {
        assert(apply_conns(Seq::empty(), cps, n) =~= cps.subrange(0, n));
    }
}

proof fn lemma_apply_monitors_blank(mps: Seq<MonitorProfileView>, chs: Seq<usize>, n: int)
    requires
        0 <= n <= mps.len(),
        chs.len() == mps.len(),
        forall|i: int, j: int| 0 <= i < j < mps.len() ==> mps[i].name != mps[j].name,
    ensures
        apply_monitors(Seq::empty(), mps, chs, n) == Seq::new(
            n as nat,
            |i: int| MonitorView {
                channel_map: fitted_map(mps[i].channel_map, chs[i] as nat),
                exclusive: mps[i].exclusive,
                buffer_ms: clamp_u32(mps[i].buffer_ms, MIN_MONITOR_BUFFER_MS, MAX_MONITOR_BUFFER_MS),
                delay_ms: clamp_u32(mps[i].delay_ms, 0, MAX_MONITOR_DELAY_MS),
                eq: mps[i].eq_bands,
                ..new_monitor_view(mps[i].name, chs[i])
            },
        ),
    decreases n,
{
    let want = Seq::new(
        n as nat,
        |i: int| MonitorView {
            channel_map: fitted_map(mps[i].channel_map, chs[i] as nat),
            exclusive: mps[i].exclusive,
            buffer_ms: clamp_u32(mps[i].buffer_ms, MIN_MONITOR_BUFFER_MS, MAX_MONITOR_BUFFER_MS),
            delay_ms: clamp_u32(mps[i].delay_ms, 0, MAX_MONITOR_DELAY_MS),
            eq: mps[i].eq_bands,
            ..new_monitor_view(mps[i].name, chs[i])
        },
    );
    if n > 0 {
        lemma_apply_monitors_blank(mps, chs, n - 1);
        let prev = apply_monitors(Seq::empty(), mps, chs, n - 1);
        crate::routing::lemma_monitor_from_found(prev, mps[n - 1].name, 0);
        if monitor_pos(prev, mps[n - 1].name) is Some {
            let k = monitor_pos(prev, mps[n - 1].name)->0;
            assert(prev[k].name == mps[k].name);
        }
        assert(apply_monitors(Seq::empty(), mps, chs, n) =~= want);
    } else {
        assert(apply_monitors(Seq::empty(), mps, chs, n) =~= want);
    }
}

/// A well-formed device's profile is canonical.
pub proof fn lemma_device_profile_canonical(d: DeviceView)
    requires
        device_wf(d),
    ensures
        canonical_profile(device_profile_of(d)),
{
    let dp = device_profile_of(d);
    assert forall|i: int| 0 <= i < dp.monitors.len() implies MIN_MONITOR_BUFFER_MS <= (
    #[trigger] dp.monitors[i]).buffer_ms <= MAX_MONITOR_BUFFER_MS && dp.monitors[i].delay_ms
        <= MAX_MONITOR_DELAY_MS by {
        assert(dp.monitors[i].buffer_ms == d.monitors[i].buffer_ms);
    }
}

/// Building a device from a canonical profile gives back that profile:
/// a blank device named as in the profile, with the profile applied and
/// (if the profile says it runs) enabled, has exactly the profile `dp`,
/// whatever channel counts its captures deliver, as long as each monitor's
/// output has as many channels as its saved wiring.
pub proof fn lemma_apply_profile_roundtrip(d: DeviceView, dp: DeviceProfileView, sc: Seq<usize>, mc: Seq<usize>)
    requires
        canonical_profile(dp),
        blank_device(d),
        d.name == dp.name,
        sc.len() == dp.sources.len(),
        mc.len() == dp.monitors.len(),
        forall|i: int| 0 <= i < mc.len() ==> #[trigger] mc[i] == dp.monitors[i].channel_map.len(),
    ensures
        device_profile_of(DeviceView { enabled: dp.enabled, ..applied_device(d, dp, sc, mc) }) == dp,
{
    assert(d.sources =~= Seq::<SourceView>::empty());
    assert(d.connections =~= Seq::<ConnView>::empty());
    assert(d.monitors =~= Seq::<MonitorView>::empty());
    lemma_apply_sources_blank(dp.sources, sc, dp.sources.len() as int);
    lemma_apply_conns_blank(dp.connections, dp.connections.len() as int);
    lemma_apply_monitors_blank(dp.monitors, mc, dp.monitors.len() as int);
    let a = DeviceView { enabled: dp.enabled, ..applied_device(d, dp, sc, mc) };
    let p = device_profile_of(a);
    assert(p.sources =~= dp.sources);
    assert(dp.connections.subrange(0, dp.connections.len() as int) =~= dp.connections);
    assert(p.monitors =~= dp.monitors) by {
        assert forall|i: int| 0 <= i < dp.monitors.len() implies p.monitors[i] == dp.monitors[i] by {
            assert(MIN_MONITOR_BUFFER_MS <= dp.monitors[i].buffer_ms <= MAX_MONITOR_BUFFER_MS);
            assert(mc[i] == dp.monitors[i].channel_map.len());
            assert(fitted_map(dp.monitors[i].channel_map, mc[i] as nat) =~= dp.monitors[i].channel_map);
        }
    }
}

/// Saving a well-formed device and loading it back into a blank device of
/// the same name (with its captures and outputs started again, each output
/// with as many channels as its monitor had, and enabled again if it was
/// running) saves to the same profile: sources, connections and monitors
/// with their wiring, exclusive mode, buffer, delay and EQ all come back.
pub proof fn lemma_save_load_roundtrip(saved: DeviceView, blank: DeviceView, sc: Seq<usize>, mc: Seq<usize>)
    requires
        device_wf(saved),
        blank_device(blank),
        blank.name == saved.name,
        sc.len() == saved.sources.len(),
        mc.len() == saved.monitors.len(),
        forall|i: int| 0 <= i < mc.len() ==> #[trigger] mc[i] == saved.monitors[i].channel_map.len(),
    ensures
        device_profile_of(
            DeviceView {
                enabled: saved.enabled,
                ..applied_device(blank, device_profile_of(saved), sc, mc)
            },
        ) == device_profile_of(saved),
{
    lemma_device_profile_canonical(saved);
    let dp = device_profile_of(saved);
    assert forall|i: int| 0 <= i < mc.len() implies #[trigger] mc[i] == dp.monitors[i].channel_map.len() by {
        assert(dp.monitors[i] == monitor_profile_of(saved.monitors[i]));
    }
    lemma_apply_profile_roundtrip(blank, dp, sc, mc);
}

} // verus!
