//! The non-destructive edit list of a recording (clips placed on a shared
//! timeline), how it maps onto the recorded files when rendering, and the
//! bookkeeping of a take while it is being recorded.
use vstd::prelude::*;
use vstd::string::*;

use crate::recording::{RecordingManifest, TrackManifest};

verus! {

/// One placed region: `length_frames` frames of the source file starting at
/// `source_start_frame`, placed at `timeline_start_frame` on the timeline.
pub struct Clip {
    pub id: String,
    pub source_start_frame: u64,
    pub length_frames: u64,
    pub timeline_start_frame: u64,
}

impl Clone for Clip {
    fn clone(&self) -> (r: Self)
        ensures
            r == *self,
    {
        Clip {
            id: self.id.clone(),
            source_start_frame: self.source_start_frame,
            length_frames: self.length_frames,
            timeline_start_frame: self.timeline_start_frame,
        }
    }
}

/// The part of one track's edit state that decides what is rendered: its
/// source, its mute and solo switches and its clips. Gain, pan, EQ and
/// effect sends are sample arithmetic and are applied outside the library.
pub struct TrackLayout {
    pub source_id: String,
    pub muted: bool,
    pub solo: bool,
    pub clips: Vec<Clip>,
}

/// Where a clip ends on the timeline.
pub open spec fn clip_end(c: Clip) -> int {
    c.timeline_start_frame + c.length_frames
}

/// Every clip of every track, track by track.
pub open spec fn all_clips(tracks: Seq<TrackLayout>) -> Seq<Clip>
    decreases tracks.len(),
{
    if tracks.len() == 0 {
        Seq::empty()
    } else {
        all_clips(tracks.drop_last()) + tracks.last().clips@
    }
}

/// The latest clip end among `clips`, if there is any clip.
pub open spec fn max_clip_end(clips: Seq<Clip>) -> Option<int>
    decreases clips.len(),
{
    if clips.len() == 0 {
        None
    } else {
        let e = clip_end(clips.last());
        match max_clip_end(clips.drop_last()) {
            Some(m) => Some(if e > m { e } else { m }),
            None => Some(e),
        }
    }
}

/// Length of the arrangement: the latest point any clip reaches.
pub fn compute_timeline_frames(tracks: &[TrackLayout]) -> (r: Result<u64, String>)
    requires
        forall|i: int| 0 <= i < all_clips(tracks@).len() ==> clip_end(#[trigger] all_clips(tracks@)[i]) <= u64::MAX,
    ensures
        match max_clip_end(all_clips(tracks@)) {
            Some(m) => r matches Ok(f) && f == m,
            None => r matches Err(e) && e@ == "Project has no clips to render"@,
        },
{
    let mut best: Option<u64> = None;
    let mut t: usize = 0;
    while t < tracks.len()
        invariant
            t <= tracks@.len(),
            forall|i: int| 0 <= i < all_clips(tracks@).len() ==> clip_end(#[trigger] all_clips(tracks@)[i]) <= u64::MAX,
            match max_clip_end(all_clips(tracks@.subrange(0, t as int))) {
                Some(m) => best matches Some(b) && b == m,
                None => best is None,
            },
        decreases tracks@.len() - t,
    {
        let clips = &tracks[t].clips;
        let ghost before = all_clips(tracks@.subrange(0, t as int));
        proof {
            lemma_all_clips_prefix(tracks@, t as int);
        }
        let mut k: usize = 0;
        while k < clips.len()
            invariant
                t < tracks@.len(),
                k <= clips@.len(),
                clips@ == tracks@[t as int].clips@,
                before == all_clips(tracks@.subrange(0, t as int)),
                all_clips(tracks@.subrange(0, t + 1)) == before + clips@,
                forall|i: int| 0 <= i < all_clips(tracks@).len() ==> clip_end(#[trigger] all_clips(tracks@)[i]) <= u64::MAX,
                all_clips(tracks@.subrange(0, t + 1)).len() <= all_clips(tracks@).len(),
                forall|i: int| 0 <= i < all_clips(tracks@.subrange(0, t + 1)).len() ==> all_clips(tracks@.subrange(0, t + 1))[i] == all_clips(tracks@)[i],
                match max_clip_end(before + clips@.subrange(0, k as int)) {
                    Some(m) => best matches Some(b) && b == m,
                    None => best is None,
                },
            decreases clips@.len() - k,
        {
            let c = &clips[k];
            proof {
                let idx = before.len() + k;
                assert((before + clips@)[idx] == clips@[k as int]);
                assert(clip_end(all_clips(tracks@)[idx]) <= u64::MAX);
                assert((before + clips@.subrange(0, k + 1)).drop_last() =~= before
                    + clips@.subrange(0, k as int));
            }
            let e = c.timeline_start_frame + c.length_frames;
            best = match best {
                Some(b) => Some(if e > b { e } else { b }),
                None => Some(e),
            };
            k = k + 1;
        }
        assert(clips@.subrange(0, k as int) =~= clips@);
        t = t + 1;
    }
    assert(tracks@.subrange(0, t as int) =~= tracks@);
    match best {
        Some(b) => Ok(b),
        None => Err("Project has no clips to render".to_string()),
    }
}

proof fn lemma_all_clips_prefix(tracks: Seq<TrackLayout>, t: int)
    requires
        0 <= t < tracks.len(),
    ensures
        all_clips(tracks.subrange(0, t + 1)) == all_clips(tracks.subrange(0, t)) + tracks[t].clips@,
        all_clips(tracks.subrange(0, t + 1)).len() <= all_clips(tracks).len(),
        forall|i: int| 0 <= i < all_clips(tracks.subrange(0, t + 1)).len() ==> all_clips(tracks.subrange(0, t + 1))[i] == all_clips(tracks)[i],
    decreases tracks.len() - t,
{
    assert(tracks.subrange(0, t + 1).drop_last() =~= tracks.subrange(0, t));
    lemma_all_clips_prefix_of(tracks, t + 1);
}

proof fn lemma_all_clips_prefix_of(tracks: Seq<TrackLayout>, n: int)
    requires
        0 <= n <= tracks.len(),
    ensures
        all_clips(tracks.subrange(0, n)).len() <= all_clips(tracks).len(),
        forall|i: int| 0 <= i < all_clips(tracks.subrange(0, n)).len() ==> all_clips(tracks.subrange(0, n))[i] == all_clips(tracks)[i],
    decreases tracks.len() - n,
{
    if n == tracks.len() {
        assert(tracks.subrange(0, n) =~= tracks);
    } else {
        lemma_all_clips_prefix_of(tracks, n + 1);
        let a = all_clips(tracks.subrange(0, n));
        let b = all_clips(tracks.subrange(0, n + 1));
        assert(tracks.subrange(0, n + 1).drop_last() =~= tracks.subrange(0, n));
        assert(b == a + tracks[n].clips@);
        assert forall|i: int| 0 <= i < a.len() implies a[i] == all_clips(tracks)[i] by {
            assert(b[i] == a[i]);
        }
    }
}

/// The part of a clip that is actually copied when rendering: `frames`
/// frames from source frame `source_start` onto timeline frame `dest_start`.
pub struct ClipSpan {
    pub source_start: u64,
    pub dest_start: u64,
    pub frames: u64,
}

pub open spec fn min_u64(a: u64, b: u64) -> u64 {
    if a < b {
        a
    } else {
        b
    }
}

/// How much of `clip` lands on a `timeline_frames`-long timeline when its
/// source file holds `source_frames` frames: nothing at all (None) when the
/// clip starts past the end of the source; otherwise the clip's range
/// clipped both to the source's end and to the timeline's end.
pub fn clip_span(clip: &Clip, source_frames: u64, timeline_frames: u64) -> (r: Option<ClipSpan>)
    ensures
        clip.source_start_frame >= source_frames ==> r is None,
        clip.source_start_frame < source_frames ==> (r matches Some(s) && {
            let length = min_u64(clip.length_frames, (source_frames - clip.source_start_frame) as u64);
            &&& s.source_start == clip.source_start_frame
            &&& s.dest_start == clip.timeline_start_frame
            &&& s.frames == if clip.timeline_start_frame >= timeline_frames {
                0
            } else {
                min_u64(length, (timeline_frames - clip.timeline_start_frame) as u64)
            }
        }),
        r matches Some(s) ==> (s.frames == 0 || (s.source_start + s.frames <= source_frames
            && s.dest_start + s.frames <= timeline_frames)),
{
    let start = clip.source_start_frame;
    if start >= source_frames {
        return None;
    }
    let available = source_frames - start;
    let length = if clip.length_frames < available {
        clip.length_frames
    } else {
        available
    };
    let dest = clip.timeline_start_frame;
    let frames = if dest >= timeline_frames {
        0
    } else {
        let room = timeline_frames - dest;
        if length < room {
            length
        } else {
            room
        }
    };
    Some(ClipSpan { source_start: start, dest_start: dest, frames })
}

/// Channel count used to read a recorded file (at least one) and the number
/// of whole frames in `sample_count` interleaved samples.
pub fn source_frames(sample_count: usize, channels: usize) -> (r: (usize, usize))
    ensures
        r.0 == if channels == 0 {
            1
        } else {
            channels
        },
        r.1 == sample_count / r.0,
{
    let c = if channels == 0 {
        1
    } else {
        channels
    };
    (c, sample_count / c)
}

/// A track takes part in the mixdown unless it is muted, or some track is
/// soloed and it is not.
pub open spec fn track_rendered(t: TrackLayout, any_solo: bool) -> bool {
    !t.muted && (!any_solo || t.solo)
}

pub open spec fn any_solo_spec(tracks: Seq<TrackLayout>) -> bool {
    exists|i: int| 0 <= i < tracks.len() && tracks[i].solo
}

/// Index of the first manifest track recorded from `source_id`.
pub open spec fn manifest_track_from(tracks: Seq<TrackManifest>, source_id: Seq<char>, i: int) -> Option<
    int,
>
    decreases tracks.len() - i,
{
    if i < 0 || i >= tracks.len() {
        None
    } else if tracks[i].source_id@ == source_id {
        Some(i)
    } else {
        manifest_track_from(tracks, source_id, i + 1)
    }
}

/// Index of the first layout track for `source_id`.
pub open spec fn layout_track_from(tracks: Seq<TrackLayout>, source_id: Seq<char>, i: int) -> Option<int>
    decreases tracks.len() - i,
{
    if i < 0 || i >= tracks.len() {
        None
    } else if tracks[i].source_id@ == source_id {
        Some(i)
    } else {
        layout_track_from(tracks, source_id, i + 1)
    }
}

/// The (layout track, manifest track) pairs rendered into a mixdown from
/// the first `n` layout tracks, in track order: a rendered track whose
/// source has no recorded file is skipped.
pub open spec fn mixdown_plan_spec(
    tracks: Seq<TrackLayout>,
    files: Seq<TrackManifest>,
    any_solo: bool,
    n: int,
) -> Seq<(int, int)>
    decreases n,
{
    if n <= 0 {
        Seq::empty()
    } else {
        let rest = mixdown_plan_spec(tracks, files, any_solo, n - 1);
        let t = tracks[n - 1];
        if track_rendered(t, any_solo) {
            match manifest_track_from(files, t.source_id@, 0) {
                Some(m) => rest.push((n - 1, m)),
                None => rest,
            }
        } else {
            rest
        }
    }
}

fn find_manifest_track(files: &[TrackManifest], source_id: &String) -> (r: Option<usize>)
    ensures
        (match r {
            Some(i) => Some(i as int),
            None => None,
        }) == manifest_track_from(files@, source_id@, 0),
        r matches Some(i) ==> i < files@.len(),
{
    let mut i: usize = 0;
    while i < files.len()
        invariant
            i <= files@.len(),
            manifest_track_from(files@, source_id@, 0) == manifest_track_from(files@, source_id@, i as int),
        decreases files@.len() - i,
    {
        if files[i].source_id == *source_id {
            return Some(i);
        }
        i = i + 1;
    }
    None
}

fn find_layout_track(tracks: &[TrackLayout], source_id: &str) -> (r: Option<usize>)
    ensures
        (match r {
            Some(i) => Some(i as int),
            None => None,
        }) == layout_track_from(tracks@, source_id@, 0),
        r matches Some(i) ==> i < tracks@.len(),
{
    let mut i: usize = 0;
    while i < tracks.len()
        invariant
            i <= tracks@.len(),
            layout_track_from(tracks@, source_id@, 0) == layout_track_from(tracks@, source_id@, i as int),
        decreases tracks@.len() - i,
    {
        if crate::text::str_equal(tracks[i].source_id.as_str(), source_id) {
            return Some(i);
        }
        i = i + 1;
    }
    None
}

/// Decides which tracks a mixdown sums and which recorded file each reads:
/// muted tracks are left out, and once any track is soloed only soloed
/// tracks remain; a track whose source has no recorded file is skipped
/// rather than failing the render.
pub fn mixdown_plan(tracks: &[TrackLayout], files: &[TrackManifest]) -> (r: Vec<(usize, usize)>)
    ensures
        r@.len() == mixdown_plan_spec(tracks@, files@, any_solo_spec(tracks@), tracks@.len() as int).len(),
        forall|i: int| 0 <= i < r@.len() ==> (r@[i].0 as int, r@[i].1 as int) == #[trigger] mixdown_plan_spec(
            tracks@,
            files@,
            any_solo_spec(tracks@),
            tracks@.len() as int,
        )[i],
{
    let mut any_solo = false;
    let mut i: usize = 0;
    while i < tracks.len()
        invariant
            i <= tracks@.len(),
            any_solo == exists|j: int| 0 <= j < i && tracks@[j].solo,
        decreases tracks@.len() - i,
    {
        if tracks[i].solo {
            any_solo = true;
        }
        i = i + 1;
    }
    let ghost solo = any_solo_spec(tracks@);
    assert(any_solo == solo);
    let mut r: Vec<(usize, usize)> = Vec::new();
    let mut t: usize = 0;
    while t < tracks.len()
        invariant
            t <= tracks@.len(),
            any_solo == solo,
            r@.len() == mixdown_plan_spec(tracks@, files@, solo, t as int).len(),
            forall|i: int| 0 <= i < r@.len() ==> (r@[i].0 as int, r@[i].1 as int) == #[trigger] mixdown_plan_spec(
                tracks@,
                files@,
                solo,
                t as int,
            )[i],
        decreases tracks@.len() - t,
    {
        let track = &tracks[t];
        if !track.muted && (!any_solo || track.solo) {
            match find_manifest_track(files, &track.source_id) {
                Some(m) => {
                    r.push((t, m));
                },
                None => {},
            }
        }
        t = t + 1;
    }
    r
}

/// For a single-track export: the layout track and the recorded file for
/// `source_id`, each the first with that source id. Mute and solo are not
/// consulted.
pub fn locate_track(tracks: &[TrackLayout], files: &[TrackManifest], source_id: &str) -> (r: Result<
    (usize, usize),
    String,
>)
    ensures
        match layout_track_from(tracks@, source_id@, 0) {
            None => r matches Err(e) && e@ == "Unknown track: "@ + source_id@,
            Some(t) => match manifest_track_from(files@, source_id@, 0) {
                None => r matches Err(e) && e@ == "No recorded audio for track: "@ + source_id@,
                Some(m) => r matches Ok(p) && p.0 == t && p.1 == m,
            },
        },
{
    let t = match find_layout_track(tracks, source_id) {
        Some(t) => t,
        None => {
            let mut e = String::from_str("Unknown track: ");
            e.append(source_id);
            return Err(e);
        },
    };
    let id = String::from_str(source_id);
    match find_manifest_track(files, &id) {
        Some(m) => Ok((t, m)),
        None => {
            let mut e = String::from_str("No recorded audio for track: ");
            e.append(source_id);
            Err(e)
        },
    }
}

/// The edit state a session opens with before it was ever edited: one
/// track per recorded file, unmuted and not soloed, holding one clip that
/// covers the whole file from the start of the timeline.
pub fn default_track_layouts(manifest: &RecordingManifest) -> (r: Vec<TrackLayout>)
    ensures
        r@.len() == manifest.tracks@.len(),
        forall|i: int|
            0 <= i < r@.len() ==> {
                let t = #[trigger] r@[i];
                let f = manifest.tracks@[i];
                &&& t.source_id == f.source_id
                &&& !t.muted
                &&& !t.solo
                &&& t.clips@.len() == 1
                &&& t.clips@[0].id@ == f.source_id@ + "-clip-0"@
                &&& t.clips@[0].source_start_frame == 0
                &&& t.clips@[0].length_frames == f.duration_frames
                &&& t.clips@[0].timeline_start_frame == 0
            },
{
    let mut r: Vec<TrackLayout> = Vec::new();
    let mut i: usize = 0;
    while i < manifest.tracks.len()
        invariant
            i <= manifest.tracks@.len(),
            r@.len() == i,
            forall|j: int|
                0 <= j < i ==> {
                    let t = #[trigger] r@[j];
                    let f = manifest.tracks@[j];
                    &&& t.source_id == f.source_id
                    &&& !t.muted
                    &&& !t.solo
                    &&& t.clips@.len() == 1
                    &&& t.clips@[0].id@ == f.source_id@ + "-clip-0"@
                    &&& t.clips@[0].source_start_frame == 0
                    &&& t.clips@[0].length_frames == f.duration_frames
                    &&& t.clips@[0].timeline_start_frame == 0
                },
        decreases manifest.tracks@.len() - i,
    {
        let f = &manifest.tracks[i];
        let mut id = f.source_id.clone();
        id.append("-clip-0");
        let mut clips: Vec<Clip> = Vec::new();
        clips.push(
            Clip {
                id,
                source_start_frame: 0,
                length_frames: f.duration_frames,
                timeline_start_frame: 0,
            },
        );
        r.push(TrackLayout { source_id: f.source_id.clone(), muted: false, solo: false, clips });
        i = i + 1;
    }
    r
}

} // verus!

verus! {

/// A track still being written during a take.
#[derive(Debug)]
pub struct PendingTrack {
    pub source_id: String,
    pub file: String,
    pub channels: usize,
}

/// What the manifest records for a finished track.
pub open spec fn finished_entry(p: PendingTrack, frames: u64) -> TrackManifest {
    TrackManifest {
        source_id: p.source_id,
        file: p.file,
        channels: p.channels,
        sample_rate: 48_000,
        duration_frames: frames,
    }
}

/// Index of the first pending track recorded from `source_id`.
pub open spec fn pending_from(p: Seq<PendingTrack>, source_id: Seq<char>, i: int) -> Option<int>
    decreases p.len() - i,
{
    if i < 0 || i >= p.len() {
        None
    } else if p[i].source_id@ == source_id {
        Some(i)
    } else {
        pending_from(p, source_id, i + 1)
    }
}

/// Ledger `b` is ledger `a` after closing the track of `source_id` with
/// `frames` frames: that track moves from pending to the end of the
/// finished ones; a source with no pending track changes nothing.
pub open spec fn ledger_finalized(a: RecordingLedger, b: RecordingLedger, source_id: Seq<char>, frames: u64) -> bool {
    &&& b.session_id == a.session_id
    &&& b.name == a.name
    &&& b.device_id == a.device_id
    &&& b.device_name == a.device_name
    &&& b.created_at_ms == a.created_at_ms
    &&& match pending_from(a.pending@, source_id, 0) {
        Some(i) => b.pending@ == a.pending@.remove(i) && b.finished@ == a.finished@.push(
            finished_entry(a.pending@[i], frames),
        ),
        None => b.pending@ == a.pending@ && b.finished@ == a.finished@,
    }
}

/// The tracks a take's manifest lists when it ends with the pending tracks
/// closed at the lengths in `frames`: the finished ones, then the pending
/// ones in order.
pub open spec fn ledger_tracks(l: RecordingLedger, frames: Seq<u64>) -> Seq<TrackManifest> {
    l.finished@ + Seq::new(l.pending@.len(), |i: int| finished_entry(l.pending@[i], frames[i]))
}

/// What the search for `source_id`'s pending track from position `i`
/// finds is such a track at or after `i`.
pub proof fn lemma_pending_from_found(p: Seq<PendingTrack>, source_id: Seq<char>, i: int)
    requires
        0 <= i,
    ensures
        pending_from(p, source_id, i) matches Some(k) ==> i <= k < p.len() && p[k].source_id@ == source_id,
    decreases p.len() - i,
{
    if i < p.len() && p[i].source_id@ != source_id {
        lemma_pending_from_found(p, source_id, i + 1);
    }
}

/// Bookkeeping of a take in progress: the tracks still being written and
/// the ones already closed, in the order they were closed.
pub struct RecordingLedger {
    pub session_id: String,
    pub name: String,
    pub device_id: String,
    pub device_name: String,
    pub created_at_ms: u64,
    pub pending: Vec<PendingTrack>,
    pub finished: Vec<TrackManifest>,
}

impl RecordingLedger {
    /// A take that has just started: every track pending, none finished.
    pub fn new(
        session_id: String,
        name: String,
        device_id: String,
        device_name: String,
        created_at_ms: u64,
        tracks: Vec<PendingTrack>,
    ) -> (r: RecordingLedger)
        ensures
            r.session_id == session_id,
            r.name == name,
            r.device_id == device_id,
            r.device_name == device_name,
            r.created_at_ms == created_at_ms,
            r.pending@ == tracks@,
            r.finished@.len() == 0,
    {
        RecordingLedger {
            session_id,
            name,
            device_id,
            device_name,
            created_at_ms,
            pending: tracks,
            finished: Vec::new(),
        }
    }

    /// The sources whose tracks are still being written.
    pub fn source_ids(&self) -> (r: Vec<String>)
        ensures
            r@.len() == self.pending@.len(),
            forall|i: int| 0 <= i < r@.len() ==> #[trigger] r@[i] == self.pending@[i].source_id,
    {
        let mut r: Vec<String> = Vec::new();
        let mut i: usize = 0;
        while i < self.pending.len()
            invariant
                i <= self.pending@.len(),
                r@.len() == i,
                forall|j: int| 0 <= j < i ==> #[trigger] r@[j] == self.pending@[j].source_id,
            decreases self.pending@.len() - i,
        {
            r.push(self.pending[i].source_id.clone());
            i = i + 1;
        }
        r
    }

    /// Closes the track of `source_id`, recording `frames` as its length:
    /// it moves from pending to finished. A source with no pending track
    /// leaves the ledger unchanged. Returns whether a track was closed.
    pub fn finalize_track(&mut self, source_id: &str, frames: u64) -> (closed: bool)
        ensures
            ledger_finalized(*old(self), *final(self), source_id@, frames),
            final(self).session_id == old(self).session_id,
            final(self).name == old(self).name,
            final(self).device_id == old(self).device_id,
            final(self).device_name == old(self).device_name,
            final(self).created_at_ms == old(self).created_at_ms,
            match pending_from(old(self).pending@, source_id@, 0) {
                Some(i) => {
                    &&& closed
                    &&& final(self).pending@ == old(self).pending@.remove(i)
                    &&& final(self).finished@ == old(self).finished@.push(
                        finished_entry(old(self).pending@[i], frames),
                    )
                },
                None => {
                    &&& !closed
                    &&& final(self).pending@ == old(self).pending@
                    &&& final(self).finished@ == old(self).finished@
                },
            },
    {
        let mut i: usize = 0;
        while i < self.pending.len()
            invariant
                i <= self.pending@.len(),
                *self == *old(self),
                pending_from(self.pending@, source_id@, 0) == pending_from(self.pending@, source_id@, i as int),
            decreases self.pending@.len() - i,
        {
            if crate::text::str_equal(self.pending[i].source_id.as_str(), source_id) {
                let p = self.pending.remove(i);
                self.finished.push(
                    TrackManifest {
                        source_id: p.source_id,
                        file: p.file,
                        channels: p.channels,
                        sample_rate: 48_000,
                        duration_frames: frames,
                    },
                );
                return true;
            }
            i = i + 1;
        }
        false
    }

    /// Ends the take: the remaining pending tracks close with the lengths
    /// in `frames` (one per pending track, in order) and the manifest lists
    /// every finished track followed by those.
    pub fn finish(self, frames: &[u64]) -> (m: RecordingManifest)
        requires
            frames@.len() == self.pending@.len(),
        ensures
            m.session_id == self.session_id,
            m.device_id == self.device_id,
            m.device_name == self.device_name,
            m.name == self.name,
            m.created_at_ms == self.created_at_ms,
            m.tracks@.len() == self.finished@.len() + self.pending@.len(),
            forall|i: int| 0 <= i < self.finished@.len() ==> #[trigger] m.tracks@[i] == self.finished@[i],
            forall|i: int|
                0 <= i < self.pending@.len() ==> #[trigger] m.tracks@[self.finished@.len() + i]
                    == finished_entry(self.pending@[i], frames@[i]),
            m.tracks@ == ledger_tracks(self, frames@),
    {
        let RecordingLedger {
            session_id,
            name,
            device_id,
            device_name,
            created_at_ms,
            pending,
            finished,
        } = self;
        let ghost fin = finished@;
        let ghost pend = pending@;
        let mut tracks = finished;
        let mut pending = pending;
        let mut k: usize = 0;
        let n = pending.len();
        while k < n
            invariant
                n == pend.len(),
                frames@.len() == n,
                k <= n,
                pending@ == pend.subrange(k as int, n as int),
                tracks@.len() == fin.len() + k,
                forall|i: int| 0 <= i < fin.len() ==> #[trigger] tracks@[i] == fin[i],
                forall|i: int| 0 <= i < k ==> #[trigger] tracks@[fin.len() + i] == finished_entry(pend[i], frames@[i]),
            decreases n - k,
        {
            let p = pending.remove(0);
            assert(p == pend[k as int]);
            tracks.push(
                TrackManifest {
                    source_id: p.source_id,
                    file: p.file,
                    channels: p.channels,
                    sample_rate: 48_000,
                    duration_frames: frames[k],
                },
            );
            assert(pending@ =~= pend.subrange(k + 1, n as int));
            k = k + 1;
        }
        let m = RecordingManifest { session_id, device_id, device_name, name, created_at_ms, tracks };
        let ghost want = fin + Seq::new(pend.len(), |i: int| finished_entry(pend[i], frames@[i]));
        assert forall|i: int| 0 <= i < want.len() implies m.tracks@[i] == want[i] by {
            if i >= fin.len() {
                let j = i - fin.len();
                assert(m.tracks@[fin.len() + j] == finished_entry(pend[j], frames@[j]));
            }
        }
        assert(m.tracks@ =~= want);
        m
    }
}

} // verus!
