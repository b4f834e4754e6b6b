//! Recording sessions: the manifest written for each take, the summary
//! listed in the library, and the naming and path rules for session files.
use vstd::prelude::*;
use vstd::string::*;

use crate::devices::INTERNAL_SAMPLE_RATE;
use crate::text::{
    chars_of, contains_char, contains_chars, decimal, decimal_string, digit_value, digits_value,
    ends_with, ends_with_chars, has_char, has_substring, slice_chars, starts_with,
    starts_with_chars, trim_chars, trim_spec,
    string_from_chars,
};

verus! {

/// One captured track file of a take.
#[derive(Debug)]
pub struct TrackManifest {
    pub source_id: String,
    pub file: String,
    pub channels: usize,
    pub sample_rate: u32,
    pub duration_frames: u64,
}

impl Clone for TrackManifest {
    fn clone(&self) -> (r: Self)
        ensures
            r == *self,
    {
        TrackManifest {
            source_id: self.source_id.clone(),
            file: self.file.clone(),
            channels: self.channels,
            sample_rate: self.sample_rate,
            duration_frames: self.duration_frames,
        }
    }
}

/// The immutable record of one take.
#[derive(Debug)]
pub struct RecordingManifest {
    pub session_id: String,
    pub device_id: String,
    pub device_name: String,
    pub name: String,
    pub created_at_ms: u64,
    pub tracks: Vec<TrackManifest>,
}

/// The entry shown for one session in the recordings library.
#[derive(Debug)]
pub struct RecordingSummary {
    pub session_id: String,
    pub name: String,
    pub device_name: String,
    pub created_at_ms: u64,
    pub duration_ms: u64,
    pub track_count: usize,
}

impl Clone for RecordingSummary {
    fn clone(&self) -> (r: Self)
        ensures
            r == *self,
    {
        RecordingSummary {
            session_id: self.session_id.clone(),
            name: self.name.clone(),
            device_name: self.device_name.clone(),
            created_at_ms: self.created_at_ms,
            duration_ms: self.duration_ms,
            track_count: self.track_count,
        }
    }
}

/// Longest track duration among `tracks` (0 for no tracks).
pub open spec fn max_duration(tracks: Seq<TrackManifest>) -> u64
    decreases tracks.len(),
{
    if tracks.len() == 0 {
        0
    } else {
        let rest = max_duration(tracks.drop_last());
        if tracks.last().duration_frames > rest {
            tracks.last().duration_frames
        } else {
            rest
        }
    }
}

/// Duration in milliseconds of a take whose longest track has `frames`
/// frames at the internal rate.
pub open spec fn duration_ms_of(frames: u64) -> int {
    (frames as int * 1000) / 48_000
}

impl RecordingSummary {
    /// Summarises a manifest: its duration is that of its longest track.
    pub fn from_manifest(manifest: &RecordingManifest) -> (r: RecordingSummary)
        requires
            max_duration(manifest.tracks@) as int * 1000 <= u64::MAX,
        ensures
            r.session_id == manifest.session_id,
            r.name == manifest.name,
            r.device_name == manifest.device_name,
            r.created_at_ms == manifest.created_at_ms,
            r.duration_ms as int == duration_ms_of(max_duration(manifest.tracks@)),
            r.track_count == manifest.tracks@.len(),
    {
        let mut frames: u64 = 0;
        let mut i: usize = 0;
        while i < manifest.tracks.len()
            invariant
                i <= manifest.tracks@.len(),
                frames == max_duration(manifest.tracks@.subrange(0, i as int)),
            decreases manifest.tracks@.len() - i,
        {
            let d = manifest.tracks[i].duration_frames;
            assert(manifest.tracks@.subrange(0, i + 1).drop_last() =~= manifest.tracks@.subrange(
                0,
                i as int,
            ));
            if d > frames {
                frames = d;
            }
            i = i + 1;
        }
        assert(manifest.tracks@.subrange(0, i as int) =~= manifest.tracks@);
        RecordingSummary {
            session_id: manifest.session_id.clone(),
            name: manifest.name.clone(),
            device_name: manifest.device_name.clone(),
            created_at_ms: manifest.created_at_ms,
            duration_ms: (frames * 1000) / (INTERNAL_SAMPLE_RATE as u64),
            track_count: manifest.tracks.len(),
        }
    }
}

/// The character kept by `sanitize_component`: ASCII letters, digits,
/// `-` and `_` stay, everything else becomes `_`.
pub open spec fn component_char(c: char) -> char {
    if ('a' <= c && c <= 'z') || ('A' <= c && c <= 'Z') || ('0' <= c && c <= '9') || c == '-' || c
        == '_' {
        c
    } else {
        '_'
    }
}

pub open spec fn sanitize_component_spec(raw: Seq<char>) -> Seq<char> {
    Seq::new(raw.len(), |i: int| component_char(raw[i]))
}

/// Makes a source id safe to embed in a file name.
pub fn sanitize_component(raw: &str) -> (r: String)
    ensures
        r@ == sanitize_component_spec(raw@),
{
    let chars = chars_of(raw);
    let mut out: Vec<char> = Vec::new();
    let mut i: usize = 0;
    while i < chars.len()
        invariant
            i <= chars@.len(),
            chars@ == raw@,
            out@ == sanitize_component_spec(chars@.subrange(0, i as int)),
        decreases chars@.len() - i,
    {
        let c = chars[i];
        let k = if ('a' <= c && c <= 'z') || ('A' <= c && c <= 'Z') || ('0' <= c && c <= '9') || c
            == '-' || c == '_' {
            c
        } else {
            '_'
        };
        out.push(k);
        i = i + 1;
        assert(out@ =~= sanitize_component_spec(chars@.subrange(0, i as int)));
    }
    assert(chars@.subrange(0, i as int) =~= chars@);
    string_from_chars(out.as_slice())
}

/// A session id is acceptable when it is non-empty, is not `.` (the
/// recordings directory itself), and holds no path separator, no `..` and
/// no `:` (no drive prefix), so it always names one directory inside the
/// recordings directory.
pub open spec fn valid_session_id(id: Seq<char>) -> bool {
    &&& id.len() > 0
    &&& !(id.len() == 1 && id[0] == '.')
    &&& !has_char(id, '/')
    &&& !has_char(id, '\\')
    &&& !has_substring(id, ".."@)
    &&& !has_char(id, ':')
}

/// Rejects a session id that could escape the recordings directory.
pub fn validate_session_id(session_id: &str) -> (r: Result<(), String>)
    ensures
        r is Ok <==> valid_session_id(session_id@),
        r matches Err(e) ==> e@ == "Invalid recording session id"@,
{
    let chars = chars_of(session_id);
    let dots = chars_of("..");
    if chars.len() == 0 || (chars.len() == 1 && chars[0] == '.') || contains_char(chars.as_slice(), '/') || contains_char(
        chars.as_slice(),
        '\\',
    ) || contains_chars(chars.as_slice(), dots.as_slice()) || contains_char(chars.as_slice(), ':') {
        return Err("Invalid recording session id".to_string());
    }
    Ok(())
}

/// `"<device name> recording"`.
pub fn default_recording_name(device_name: &str) -> (r: String)
    ensures
        r@ == device_name@ + " recording"@,
{
    let mut s = String::from_str(device_name);
    s.append(" recording");
    s
}

/// `"rec_<millis>"`: the id of a session started at `millis` since the epoch.
pub fn new_session_id(millis: u64) -> (r: String)
    ensures
        r@ == "rec_"@ + decimal(millis as nat),
{
    let digits = decimal_string(millis);
    let mut s = String::from_str("rec_");
    s.append(digits.as_str());
    s
}

/// `"track_<sanitized source id>.wav"`: the WAV file one source records into.
pub fn track_file_name(source_id: &str) -> (r: String)
    ensures
        r@ == "track_"@ + sanitize_component_spec(source_id@) + ".wav"@,
{
    let clean = sanitize_component(source_id);
    let mut s = String::from_str("track_");
    s.append(clean.as_str());
    s.append(".wav");
    s
}

/// A file name relative to a session directory is acceptable when it is
/// non-empty, holds no `..`, does not start with a separator and holds no
/// `:` (no drive prefix).
pub open spec fn valid_relative_file(f: Seq<char>) -> bool {
    &&& f.len() > 0
    &&& !has_substring(f, ".."@)
    &&& !starts_with(f, "/"@)
    &&& !starts_with(f, "\\"@)
    &&& !has_char(f, ':')
}

/// True for `/` and `\\`, the characters a path separator can be.
pub open spec fn is_separator(c: char) -> bool {
    c == '/' || c == '\\'
}

/// A base path that does not begin with `\\`. Windows reads a leading
/// backslash as a root, a UNC share or a verbatim prefix (under which
/// joined names are normalized); none of those stand at the start of such
/// a base, so joining a relative name only appends it.
pub open spec fn plain_base(base: Seq<char>) -> bool {
    base.len() == 0 || base[0] != '\\'
}

/// A bare drive such as `C:`, after which Windows adds no separator.
pub open spec fn drive_only(base: Seq<char>) -> bool {
    base.len() == 2 && base[1] == ':' && (('a' <= base[0] <= 'z') || ('A' <= base[0] <= 'Z'))
}

/// What may stand between a path and a name appended to it: nothing or one
/// separator; nothing after an empty path or one ending in `/`, and one
/// separator after a path ending in neither separator that is not a bare
/// drive.
pub open spec fn join_gap(base: Seq<char>, gap: Seq<char>) -> bool {
    &&& gap.len() == 0 || (gap.len() == 1 && is_separator(gap[0]))
    &&& (base.len() == 0 || base.last() == '/') ==> gap.len() == 0
    &&& (base.len() > 0 && !is_separator(base.last()) && !drive_only(base)) ==> gap.len() == 1
}

/// `p` is the path `base` with the relative name `name` appended.
pub open spec fn path_joined(p: Seq<char>, base: Seq<char>, name: Seq<char>) -> bool {
    exists|gap: Seq<char>| join_gap(base, gap) && p == base + gap + name
}

/// `p` is `<base>/<session_id>/<file>`: `base`, the separator joining it to
/// the session id where one is needed, the session id, one separator and
/// the file name.
pub open spec fn in_session_dir(p: Seq<char>, base: Seq<char>, session_id: Seq<char>, file: Seq<char>) -> bool {
    exists|gap: Seq<char>, sep: char|
        join_gap(base, gap) && is_separator(sep) && p == base + gap + session_id + seq![sep] + file
}

/// Joins `name` to the path `base` with `Path::join` and converts the
/// result back to text with `Path::to_str`; a path joined from UTF-8 text
/// converts back. When `name` is a relative file name (no root, no drive
/// prefix, no `..`), `Path::join` (`PathBuf::push`) appends it after the
/// platform's separator where one is needed. Which separator the platform
/// inserts, and whether one follows a bare drive or a trailing backslash,
/// is left open; of a base that is not plain (see `plain_base`), or a name
/// that is not relative, nothing but success is stated.
#[verifier::external_body]
fn path_join(base: &str, name: &str) -> (r: Option<String>)
    ensures
        r is Some,
        r matches Some(p) ==> (plain_base(base@) && valid_relative_file(name@) ==> path_joined(p@, base@, name@)),
{
    std::path::Path::new(base).join(name).to_str().map(|s| s.to_string())
}

proof fn lemma_session_id_is_relative(id: Seq<char>)
    requires
        valid_session_id(id),
    ensures
        valid_relative_file(id),
{
    reveal_strlit("/");
    reveal_strlit("\\");
    if starts_with(id, "/"@) {
        assert(id.subrange(0, 1)[0] == id[0]);
        assert(id[0] == '/');
    }
    if starts_with(id, "\\"@) {
        assert(id.subrange(0, 1)[0] == id[0]);
        assert(id[0] == '\\');
    }
}

/// Resolves a file of a session (a track WAV or a mixdown export) to a path
/// under `base_dir`, rejecting any session id or file name that could
/// escape the session directory.
pub fn resolve_file_path(base_dir: &str, session_id: &str, relative_file: &str) -> (r: Result<
    String,
    String,
>)
    ensures
        !valid_session_id(session_id@) ==> (r matches Err(e) && e@
            == "Invalid recording session id"@),
        valid_session_id(session_id@) && !valid_relative_file(relative_file@) ==> (r matches Err(
            e,
        ) && e@ == "Invalid recording file name"@),
        valid_session_id(session_id@) && valid_relative_file(relative_file@) ==> (r matches Ok(p)
            && (plain_base(base_dir@) ==> in_session_dir(p@, base_dir@, session_id@, relative_file@))),
{
    match validate_session_id(session_id) {
        Err(e) => {
            return Err(e);
        },
        Ok(()) => {},
    }
    let f = chars_of(relative_file);
    let dots = chars_of("..");
    let slash = chars_of("/");
    let backslash = chars_of("\\");
    let starts_slash = starts_with_chars(f.as_slice(), slash.as_slice());
    let starts_backslash = starts_with_chars(f.as_slice(), backslash.as_slice());
    if f.len() == 0 || contains_chars(f.as_slice(), dots.as_slice()) || starts_slash
        || starts_backslash || contains_char(f.as_slice(), ':') {
        return Err("Invalid recording file name".to_string());
    }
    proof {
        lemma_session_id_is_relative(session_id@);
    }
    let dir = match path_join(base_dir, session_id) {
        Some(d) => d,
        None => {
            return Err("Recording path is not valid UTF-8".to_string());
        },
    };
    let path = match path_join(dir.as_str(), relative_file) {
        Some(p) => p,
        None => {
            return Err("Recording path is not valid UTF-8".to_string());
        },
    };
    proof {
        if plain_base(base_dir@) {
            let gap = choose|gap: Seq<char>| join_gap(base_dir@, gap) && dir@ == base_dir@ + gap + session_id@;
            let d = dir@;
            let sid = session_id@;
            assert(d.last() == sid.last());
            assert(!is_separator(sid.last())) by {
                assert(sid[sid.len() - 1] == sid.last());
            }
            if drive_only(d) {
                assert(d.len() == 2);
                if sid.len() == 1 {
                    assert(d[1] == sid[0]);
                } else {
                    assert(d[1] == sid[sid.len() - 1]);
                }
                assert(has_char(sid, ':'));
            }
            if base_dir@.len() > 0 {
                assert(d[0] == base_dir@[0]);
            } else {
                assert(d =~= sid);
                assert(d[0] == sid[0]);
            }
            assert(plain_base(d));
            let gap2 = choose|g: Seq<char>| join_gap(d, g) && path@ == d + g + relative_file@;
            assert(gap2.len() == 1);
            assert(path@ =~= base_dir@ + gap + sid + seq![gap2[0]] + relative_file@);
        }
    }
    Ok(path)
}

} // verus!

verus! {

/// The character kept by `sanitize_filename`: characters that are not
/// allowed in file names on common platforms become `_`.
pub open spec fn filename_char(c: char) -> char {
    if c == '/' || c == '\\' || c == ':' || c == '*' || c == '?' || c == '"' || c == '<' || c
        == '>' || c == '|' {
        '_'
    } else {
        c
    }
}

pub open spec fn sanitize_filename_spec(raw: Seq<char>) -> Seq<char> {
    Seq::new(raw.len(), |i: int| filename_char(raw[i]))
}

/// Replaces characters that cannot appear in a file name with `_`.
pub fn sanitize_filename(raw: &str) -> (r: Vec<char>)
    ensures
        r@ == sanitize_filename_spec(raw@),
{
    let chars = chars_of(raw);
    let mut out: Vec<char> = Vec::new();
    let mut i: usize = 0;
    while i < chars.len()
        invariant
            i <= chars@.len(),
            chars@ == raw@,
            out@ == sanitize_filename_spec(chars@.subrange(0, i as int)),
        decreases chars@.len() - i,
    {
        let c = chars[i];
        let k = if c == '/' || c == '\\' || c == ':' || c == '*' || c == '?' || c == '"' || c == '<'
            || c == '>' || c == '|' {
            '_'
        } else {
            c
        };
        out.push(k);
        i = i + 1;
        assert(out@ =~= sanitize_filename_spec(chars@.subrange(0, i as int)));
    }
    assert(chars@.subrange(0, i as int) =~= chars@);
    out
}

/// The file stem an export is named after: the sanitized request without
/// a trailing `.wav`, or `fallback` when the request sanitizes to nothing.
pub open spec fn output_base(sanitized: Seq<char>, fallback: Seq<char>) -> Seq<char> {
    if sanitized.len() == 0 {
        fallback
    } else if ends_with(sanitized, ".wav"@) {
        sanitized.subrange(0, sanitized.len() - ".wav"@.len())
    } else {
        sanitized
    }
}

/// The `k`-th name tried for an export: `<base>.wav`, then
/// `<base> (1).wav`, `<base> (2).wav`, ...
pub open spec fn output_candidate(base: Seq<char>, k: nat) -> Seq<char> {
    if k == 0 {
        base + ".wav"@
    } else {
        base + " ("@ + decimal(k) + ").wav"@
    }
}

proof fn lemma_digit_char_value(d: int)
    requires
        0 <= d < 10,
    ensures
        digit_value(crate::text::digit_char(d)) == d,
{
}

/// The decimal digits of `n` read back as a number give `n`.
pub proof fn lemma_decimal_value(n: nat)
    ensures
        digits_value(decimal(n)) == n,
        decimal(n).len() >= 1,
    decreases n,
{
    if n < 10 {
        lemma_digit_char_value(n as int);
        let s = decimal(n);
        assert(s == seq![crate::text::digit_char(n as int)]);
        assert(s.drop_last() =~= Seq::<char>::empty());
        assert(digits_value(s.drop_last()) == 0);
        assert(s.last() == crate::text::digit_char(n as int));
        assert(digits_value(s) == digits_value(s.drop_last()) * 10 + digit_value(s.last()));
    } else {
        lemma_decimal_value(n / 10);
        let s = decimal(n);
        let c = crate::text::digit_char((n % 10) as int);
        assert(s == decimal(n / 10).push(c));
        assert(s.drop_last() =~= decimal(n / 10));
        assert(s.last() == c);
        lemma_digit_char_value((n % 10) as int);
        assert(digits_value(s) == digits_value(s.drop_last()) * 10 + digit_value(s.last()));
        assert(n == (n / 10) * 10 + n % 10) by (nonlinear_arith);
    }
}

/// The highest suffix tried for an export name: `<base> (2147483647).wav`.
pub const MAX_OUTPUT_SUFFIX: u32 = 2_147_483_647;

/// The file stem an export of `requested` is named after: the request
/// trimmed of white space and sanitized, without a trailing `.wav`, or
/// `fallback_base` when nothing is left.
pub fn output_stem(requested: &str, fallback_base: &str) -> (r: String)
    ensures
        r@ == output_base(sanitize_filename_spec(trim_spec(requested@)), fallback_base@),
{
    let chars = chars_of(requested);
    let t = string_from_chars(trim_chars(chars.as_slice()).as_slice());
    let sanitized = sanitize_filename(t.as_str());
    let wav = chars_of(".wav");
    let base_chars: Vec<char> = if sanitized.len() == 0 {
        chars_of(fallback_base)
    } else if ends_with_chars(sanitized.as_slice(), wav.as_slice()) {
        slice_chars(sanitized.as_slice(), 0, sanitized.len() - wav.len())
    } else {
        sanitized
    };
    string_from_chars(base_chars.as_slice())
}

/// The `k`-th name tried for an export of stem `base`.
pub fn output_candidate_name(base: &str, k: u32) -> (r: String)
    ensures
        r@ == output_candidate(base@, k as nat),
{
    let mut candidate = String::from_str(base);
    if k == 0 {
        candidate.append(".wav");
    } else {
        let digits = decimal_string(k as u64);
        candidate.append(" (");
        candidate.append(digits.as_str());
        candidate.append(").wav");
    }
    candidate
}

/// Asks the file system whether something exists at `path`
/// (`Path::exists`). What is on disk is not known here, so nothing is
/// stated of the answer.
#[verifier::external_body]
fn path_exists(path: &str) -> (r: bool) {
    std::path::Path::new(path).exists()
}

/// Picks the file name an export of `requested` is written under in
/// directory `dir`: the first of `<stem>.wav`, `<stem> (1).wav`,
/// `<stem> (2).wav`, ... (see `output_stem`) that the file system reports
/// as free, so an existing export is never overwritten, whatever the file
/// system counts as the same name. Fails when every name up to suffix
/// `MAX_OUTPUT_SUFFIX` is taken.
pub fn unique_output_name(dir: &str, requested: &str, fallback_base: &str) -> (r: Result<String, String>)
    ensures
        r matches Ok(name) ==> exists|k: nat|
            k <= MAX_OUTPUT_SUFFIX && name@ == #[trigger] output_candidate(
                output_base(sanitize_filename_spec(trim_spec(requested@)), fallback_base@),
                k,
            ),
        r matches Err(e) ==> e@ == "No free file name for the export"@,
{
    let stem = output_stem(requested, fallback_base);
    let mut k: u32 = 0;
    loop
        invariant
            stem@ == output_base(sanitize_filename_spec(trim_spec(requested@)), fallback_base@),
            k <= MAX_OUTPUT_SUFFIX,
        decreases MAX_OUTPUT_SUFFIX - k,
    {
        let candidate = output_candidate_name(stem.as_str(), k);
        let taken = match path_join(dir, candidate.as_str()) {
            Some(p) => path_exists(p.as_str()),
            None => false,
        };
        if !taken {
            assert(candidate@ == output_candidate(stem@, k as nat));
            return Ok(candidate);
        }
        if k == MAX_OUTPUT_SUFFIX {
            return Err("No free file name for the export".to_string());
        }
        k = k + 1;
    }
}

} // verus!

verus! {

/// Where `x` goes when inserted into `s` (already newest first) so that the
/// result stays newest first and `x` lands after every entry at least as new.
pub open spec fn insert_pos(s: Seq<RecordingSummary>, x: RecordingSummary) -> int
    decreases s.len(),
{
    if s.len() == 0 {
        0
    } else if s.last().created_at_ms >= x.created_at_ms {
        s.len() as int
    } else {
        insert_pos(s.drop_last(), x)
    }
}

/// Inserts `x` into the newest-first sequence `s` after every entry that
/// is at least as new as `x`.
pub open spec fn insert_newest_first(s: Seq<RecordingSummary>, x: RecordingSummary) -> Seq<
    RecordingSummary,
>
    decreases s.len(),
{
    if s.len() == 0 {
        seq![x]
    } else if s.last().created_at_ms >= x.created_at_ms {
        s.push(x)
    } else {
        insert_newest_first(s.drop_last(), x).push(s.last())
    }
}

/// Stable sort by `created_at_ms`, newest first: sessions created at the
/// same time keep their original relative order.
pub open spec fn sort_newest_first_spec(s: Seq<RecordingSummary>) -> Seq<RecordingSummary>
    decreases s.len(),
{
    if s.len() == 0 {
        s
    } else {
        insert_newest_first(sort_newest_first_spec(s.drop_last()), s.last())
    }
}

pub open spec fn is_newest_first(s: Seq<RecordingSummary>) -> bool {
    forall|i: int, j: int| 0 <= i < j < s.len() ==> s[i].created_at_ms >= s[j].created_at_ms
}

proof fn lemma_insert_pos_split(s: Seq<RecordingSummary>, x: RecordingSummary)
    ensures
        0 <= insert_pos(s, x) <= s.len(),
        insert_newest_first(s, x) == s.subrange(0, insert_pos(s, x)).push(x) + s.subrange(
            insert_pos(s, x),
            s.len() as int,
        ),
    decreases s.len(),
{
    if s.len() == 0 {
        assert(insert_newest_first(s, x) =~= s.subrange(0, 0).push(x) + s.subrange(0, 0));
    } else if s.last().created_at_ms >= x.created_at_ms {
        assert(insert_newest_first(s, x) =~= s.subrange(0, s.len() as int).push(x) + s.subrange(
            s.len() as int,
            s.len() as int,
        ));
    } else {
        let t = s.drop_last();
        lemma_insert_pos_split(t, x);
        let p = insert_pos(t, x);
        assert(insert_newest_first(s, x) =~= s.subrange(0, p).push(x) + s.subrange(p, s.len() as int))
            by {
            assert(t.subrange(0, p) =~= s.subrange(0, p));
            assert(t.subrange(p, t.len() as int).push(s.last()) =~= s.subrange(p, s.len() as int));
        }
    }
}

proof fn lemma_insert_keeps_order(s: Seq<RecordingSummary>, x: RecordingSummary)
    requires
        is_newest_first(s),
    ensures
        is_newest_first(insert_newest_first(s, x)),
        insert_newest_first(s, x).to_multiset() == s.to_multiset().insert(x),
        insert_newest_first(s, x).len() == s.len() + 1,
    decreases s.len(),
{
    broadcast use vstd::seq_lib::group_to_multiset_ensures;

    if s.len() == 0 {
        assert(seq![x] =~= Seq::<RecordingSummary>::empty().push(x));
    } else if s.last().created_at_ms >= x.created_at_ms {
    } else {
        let t = s.drop_last();
        assert(is_newest_first(t));
        lemma_insert_keeps_order(t, x);
        let u = insert_newest_first(t, x);
        lemma_insert_pos_split(t, x);
        assert(s =~= t.push(s.last()));
        assert forall|i: int, j: int| 0 <= i < j < u.push(s.last()).len() implies u.push(
            s.last(),
        )[i].created_at_ms >= u.push(s.last())[j].created_at_ms by {
            if j == u.len() {
                let p = insert_pos(t, x);
                if i < p {
                    assert(u[i] == t[i]);
                } else if i == p {
                    assert(u[i] == x);
                } else {
                    assert(u[i] == t[i - 1]);
                }
            }
        }
        assert(u.push(s.last()).to_multiset() == u.to_multiset().insert(s.last()));
        assert(s.to_multiset() == t.to_multiset().insert(s.last()));
    }
}

/// Sorting newest first yields a newest-first permutation of its input.
pub proof fn lemma_sort_newest_first(s: Seq<RecordingSummary>)
    ensures
        is_newest_first(sort_newest_first_spec(s)),
        sort_newest_first_spec(s).to_multiset() == s.to_multiset(),
        sort_newest_first_spec(s).len() == s.len(),
    decreases s.len(),
{
    broadcast use vstd::seq_lib::group_to_multiset_ensures;

    if s.len() > 0 {
        lemma_sort_newest_first(s.drop_last());
        lemma_insert_keeps_order(sort_newest_first_spec(s.drop_last()), s.last());
        assert(s =~= s.drop_last().push(s.last()));
    }
}

/// Orders session summaries newest first (stable for equal creation times),
/// the order in which the library lists them.
pub fn sort_newest_first(summaries: Vec<RecordingSummary>) -> (r: Vec<RecordingSummary>)
    ensures
        r@ == sort_newest_first_spec(summaries@),
        is_newest_first(r@),
        r@.to_multiset() == summaries@.to_multiset(),
{
    let mut r: Vec<RecordingSummary> = Vec::new();
    let mut i: usize = 0;
    while i < summaries.len()
        invariant
            i <= summaries@.len(),
            r@ == sort_newest_first_spec(summaries@.subrange(0, i as int)),
        decreases summaries@.len() - i,
    {
        let x = summaries[i].clone();
        let mut j: usize = r.len();
        assert(r@.subrange(0, j as int) =~= r@);
        while j > 0 && r[j - 1].created_at_ms < x.created_at_ms
            invariant
                j <= r@.len(),
                insert_pos(r@, x) == insert_pos(r@.subrange(0, j as int), x),
            decreases j,
        {
            assert(r@.subrange(0, j as int).drop_last() =~= r@.subrange(0, j - 1));
            j = j - 1;
        }
        proof {
            lemma_insert_pos_split(r@, x);
            assert(insert_pos(r@.subrange(0, j as int), x) == j);
        }
        let ghost old_r = r@;
        r.insert(j, x);
        assert(r@ =~= old_r.subrange(0, j as int).push(x) + old_r.subrange(j as int, old_r.len() as int));
        assert(summaries@.subrange(0, i + 1).drop_last() =~= summaries@.subrange(0, i as int));
        i = i + 1;
    }
    assert(summaries@.subrange(0, i as int) =~= summaries@);
    proof {
        lemma_sort_newest_first(summaries@);
    }
    r
}

} // verus!
