//! Source identifiers: how a source id names what it captures.
use vstd::prelude::*;
use vstd::string::*;

use crate::devices::SYSTEM_AUDIO_SOURCE_NAME;
use crate::text::{
    chars_of, find_char, first_char_index, parse_u32, parse_u32_spec, slice_chars, starts_with,
    starts_with_chars, str_equal, string_from_chars,
};

verus! {

/// The pid encoded by an application source id of the shape
/// `app:<pid>:<process_name>`: the text between the `app:` prefix and the
/// next `:` must parse as a `u32` the way `u32::from_str` does.
pub open spec fn app_source_pid(id: Seq<char>) -> Option<u32> {
    if starts_with(id, "app:"@) {
        let rest = id.subrange(4, id.len() as int);
        match first_char_index(rest, ':') {
            Some(k) => parse_u32_spec(rest.subrange(0, k)),
            None => None,
        }
    } else {
        None
    }
}

/// Returns the target pid when `id` is an application source id.
pub fn parse_app_source_id(id: &str) -> (r: Option<u32>)
    ensures
        r == app_source_pid(id@),
{
    proof {
        reveal_strlit("app:");
    }
    let chars = chars_of(id);
    let prefix = chars_of("app:");
    if !starts_with_chars(chars.as_slice(), prefix.as_slice()) {
        return None;
    }
    let rest = slice_chars(chars.as_slice(), 4, chars.len());
    match find_char(rest.as_slice(), ':') {
        Some(k) => {
            let pid_text = slice_chars(rest.as_slice(), 0, k);
            parse_u32(pid_text.as_slice())
        },
        None => None,
    }
}

/// How a source's audio is captured.
#[derive(Debug, Clone, Copy, PartialEq, Eq, Structural)]
pub enum SourceKind {
    /// WASAPI loopback of the default output device.
    SystemLoopback,
    /// Per-process loopback of the application with this pid.
    Application(u32),
    /// A physical input device, found by its name.
    InputDevice,
}

pub open spec fn source_kind_of(id: Seq<char>) -> SourceKind {
    if id == SYSTEM_AUDIO_SOURCE_NAME@ {
        SourceKind::SystemLoopback
    } else {
        match app_source_pid(id) {
            Some(pid) => SourceKind::Application(pid),
            None => SourceKind::InputDevice,
        }
    }
}

/// Decides how a newly added source id is captured: the system-audio
/// pseudo-device first, then an application id, else an input device name.
pub fn classify_source(id: &str) -> (k: SourceKind)
    ensures
        k == source_kind_of(id@),
{
    if str_equal(id, SYSTEM_AUDIO_SOURCE_NAME) {
        SourceKind::SystemLoopback
    } else {
        match parse_app_source_id(id) {
            Some(pid) => SourceKind::Application(pid),
            None => SourceKind::InputDevice,
        }
    }
}

/// `net:<peer_id>:<remote_device_id>`.
pub open spec fn network_source_id_spec(peer_id: Seq<char>, remote_device_id: Seq<char>) -> Seq<char> {
    "net:"@ + peer_id + ":"@ + remote_device_id
}

/// The source id under which a peer's published device is added.
pub fn network_source_id(peer_id: &str, remote_device_id: &str) -> (r: String)
    ensures
        r@ == network_source_id_spec(peer_id@, remote_device_id@),
{
    let mut s = String::from_str("net:");
    s.append(peer_id);
    s.append(":");
    s.append(remote_device_id);
    s
}

/// True for the path separators `\` and `/`.
pub open spec fn is_path_separator(c: char) -> bool {
    c == '\\' || c == '/'
}

/// Position just after the last separator in `s[0..i)`, or 0 when there is none.
pub open spec fn after_last_separator(s: Seq<char>, i: int) -> int
    decreases i,
{
    if i <= 0 {
        0
    } else if is_path_separator(s[i - 1]) {
        i
    } else {
        after_last_separator(s, i - 1)
    }
}

/// The last component of a path: everything after its final `\` or `/`
/// (the whole path when it has none).
pub open spec fn path_file_name(s: Seq<char>) -> Seq<char> {
    s.subrange(after_last_separator(s, s.len() as int), s.len() as int)
}

/// The executable file name at the end of a full process image path.
pub fn path_file_name_of(path: &str) -> (r: String)
    ensures
        r@ == path_file_name(path@),
{
    let chars = chars_of(path);
    let n = chars.len();
    let mut i: usize = n;
    while i > 0 && !(chars[i - 1] == '\\' || chars[i - 1] == '/')
        invariant
            i <= n == chars@.len(),
            after_last_separator(chars@, n as int) == after_last_separator(chars@, i as int),
        decreases i,
    {
        i = i - 1;
    }
    let tail = slice_chars(chars.as_slice(), i, n);
    string_from_chars(tail.as_slice())
}

} // verus!
