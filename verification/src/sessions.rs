//! Which applications' audio sessions are offered as capturable sources,
//! and the names they are shown under.
use vstd::prelude::*;
use vstd::string::*;

use crate::text::{chars_of, decimal, decimal_string, lowercase, to_lowercase};

verus! {

/// What the platform reported about one audio session of the default
/// output device: its process id (None when it could not be read), whether
/// it has expired and whether it is the system-sounds session.
pub struct SessionCandidate {
    pub pid: Option<u32>,
    pub expired: bool,
    pub system_sounds: bool,
}

/// Whether session `c` is one an application source could capture: live,
/// not the system sounds, with a known pid that is neither 0 nor our own.
pub open spec fn capturable(c: SessionCandidate, current_pid: u32) -> bool {
    &&& !c.expired
    &&& !c.system_sounds
    &&& c.pid matches Some(p) && p != 0 && p != current_pid
}

/// The positions of the sessions kept from the first `n` candidates, in
/// order: each capturable session whose pid no earlier kept session has.
pub open spec fn kept_sessions(cs: Seq<SessionCandidate>, current_pid: u32, n: int) -> Seq<int>
    decreases n,
{
    if n <= 0 {
        Seq::empty()
    } else {
        let rest = kept_sessions(cs, current_pid, n - 1);
        let c = cs[n - 1];
        if capturable(c, current_pid) && !(exists|k: int|
            0 <= k < rest.len() && #[trigger] cs[rest[k]].pid == c.pid) {
            rest.push(n - 1)
        } else {
            rest
        }
    }
}

/// Chooses the sessions offered as sources: one per process, the first
/// session seen for it, in enumeration order.
pub fn select_sessions(candidates: &[SessionCandidate], current_pid: u32) -> (kept: Vec<usize>)
    ensures
        kept@.len() == kept_sessions(candidates@, current_pid, candidates@.len() as int).len(),
        forall|i: int|
            0 <= i < kept@.len() ==> kept@[i] as int == #[trigger] kept_sessions(
                candidates@,
                current_pid,
                candidates@.len() as int,
            )[i],
{
    let mut kept: Vec<usize> = Vec::new();
    let mut i: usize = 0;
    while i < candidates.len()
        invariant
            i <= candidates@.len(),
            kept@.len() == kept_sessions(candidates@, current_pid, i as int).len(),
            forall|j: int|
                0 <= j < kept@.len() ==> kept@[j] as int == #[trigger] kept_sessions(
                    candidates@,
                    current_pid,
                    i as int,
                )[j],
            forall|j: int| 0 <= j < kept@.len() ==> kept@[j] < i,
        decreases candidates@.len() - i,
    {
        let c = &candidates[i];
        let ghost rest = kept_sessions(candidates@, current_pid, i as int);
        let ok = !c.expired && !c.system_sounds && match c.pid {
            Some(p) => p != 0 && p != current_pid,
            None => false,
        };
        if ok {
            let mut seen = false;
            let mut k: usize = 0;
            while k < kept.len()
                invariant
                    k <= kept@.len(),
                    i < candidates@.len(),
                    c.pid == candidates@[i as int].pid,
                    kept@.len() == rest.len(),
                    forall|j: int| 0 <= j < kept@.len() ==> kept@[j] as int == #[trigger] rest[j],
                    forall|j: int| 0 <= j < kept@.len() ==> kept@[j] < i,
                    seen == exists|j: int| 0 <= j < k && #[trigger] candidates@[rest[j]].pid == candidates@[i as int].pid,
                decreases kept@.len() - k,
            {
                let idx = kept[k];
                let pk = candidates[idx].pid;
                let same = match pk {
                    Some(a) => match c.pid {
                        Some(b) => a == b,
                        None => false,
                    },
                    None => c.pid.is_none(),
                };
                proof {
                    assert(idx as int == rest[k as int]);
                    assert(pk == candidates@[rest[k as int]].pid);
                }
                if same {
                    assert(candidates@[rest[k as int]].pid == candidates@[i as int].pid);
                    seen = true;
                } else {
                    assert(candidates@[rest[k as int]].pid != candidates@[i as int].pid);
                }
                k = k + 1;
            }
            if !seen {
                kept.push(i);
            }
        }
        i = i + 1;
    }
    kept
}

/// `pid <n>`: the process name shown when the process could not be looked up.
pub open spec fn fallback_process_name(pid: u32) -> Seq<char> {
    "pid "@ + decimal(pid as nat)
}

/// The names a session is listed under: its process name (or `pid <n>`),
/// and its display name when it reports a non-empty one, else the process
/// name.
pub fn session_names(pid: u32, process_name: Option<String>, display_name: Option<String>) -> (r: (String, String))
    ensures
        r.0@ == match process_name {
            Some(n) => n@,
            None => fallback_process_name(pid),
        },
        r.1@ == match display_name {
            Some(d) => if d@.len() > 0 {
                d@
            } else {
                r.0@
            },
            None => r.0@,
        },
{
    let process = match process_name {
        Some(n) => n,
        None => {
            let mut s = String::from_str("pid ");
            let digits = decimal_string(pid as u64);
            s.append(digits.as_str());
            s
        },
    };
    let display = match display_name {
        Some(d) => if d.unicode_len() > 0 {
            d
        } else {
            process.clone()
        },
        None => process.clone(),
    };
    (process, display)
}

// ---------------------------------------------------------------------
// Ordering sessions by name.
// ---------------------------------------------------------------------

/// The order strings compare in: character by character (by code point),
/// a proper prefix first.
pub open spec fn lex_le(a: Seq<char>, b: Seq<char>) -> bool
    decreases a.len(),
{
    if a.len() == 0 {
        true
    } else if b.len() == 0 {
        false
    } else if a[0] != b[0] {
        a[0] < b[0]
    } else {
        lex_le(a.drop_first(), b.drop_first())
    }
}

/// Every name sorts no later than itself.
pub proof fn lemma_lex_le_reflexive(a: Seq<char>)
    ensures
        lex_le(a, a),
    decreases a.len(),
{
    if a.len() > 0 {
        lemma_lex_le_reflexive(a.drop_first());
    }
}

/// Any two names are ordered one way or the other.
pub proof fn lemma_lex_le_total(a: Seq<char>, b: Seq<char>)
    ensures
        lex_le(a, b) || lex_le(b, a),
    decreases a.len(),
{
    if a.len() > 0 && b.len() > 0 {
        if a[0] == b[0] {
            lemma_lex_le_total(a.drop_first(), b.drop_first());
        }
    }
}

/// The order of names is transitive.
pub proof fn lemma_lex_le_transitive(a: Seq<char>, b: Seq<char>, c: Seq<char>)
    requires
        lex_le(a, b),
        lex_le(b, c),
    ensures
        lex_le(a, c),
    decreases a.len(),
{
    if a.len() > 0 && b.len() > 0 && c.len() > 0 && a[0] == b[0] && b[0] == c[0] {
        lemma_lex_le_transitive(a.drop_first(), b.drop_first(), c.drop_first());
    }
}

fn lex_le_exec(a: &[char], b: &[char]) -> (r: bool)
    ensures
        r == lex_le(a@, b@),
{
    let mut i: usize = 0;
    assert(a@.subrange(0, a@.len() as int) =~= a@);
    assert(b@.subrange(0, b@.len() as int) =~= b@);
    while i < a.len() && i < b.len() && a[i] == b[i]
        invariant
            i <= a@.len(),
            i <= b@.len(),
            lex_le(a@, b@) == lex_le(a@.subrange(i as int, a@.len() as int), b@.subrange(i as int, b@.len() as int)),
        decreases a@.len() - i,
    {
        let ghost sa = a@.subrange(i as int, a@.len() as int);
        let ghost sb = b@.subrange(i as int, b@.len() as int);
        assert(sa.drop_first() =~= a@.subrange(i + 1, a@.len() as int));
        assert(sb.drop_first() =~= b@.subrange(i + 1, b@.len() as int));
        i = i + 1;
    }
    let ghost sa = a@.subrange(i as int, a@.len() as int);
    let ghost sb = b@.subrange(i as int, b@.len() as int);
    if i == a.len() {
        assert(sa.len() == 0);
        true
    } else if i == b.len() {
        assert(sb.len() == 0 && sa.len() > 0);
        false
    } else {
        assert(sa[0] == a@[i as int] && sb[0] == b@[i as int]);
        a[i] < b[i]
    }
}

/// The key sessions are ordered by: the lower-cased display name.
pub open spec fn name_key(names: Seq<String>, i: int) -> Seq<char> {
    lowercase(names[i]@)
}

/// `order` lists every position of `names` once, by key, and positions with
/// equal keys in their original order.
pub open spec fn sorted_by_name(names: Seq<String>, order: Seq<usize>) -> bool {
    &&& order.len() == names.len()
    &&& forall|i: int| 0 <= i < order.len() ==> #[trigger] order[i] < names.len()
    &&& forall|i: int, j: int| 0 <= i < j < order.len() ==> order[i] != order[j]
    &&& forall|i: int, j: int|
        0 <= i < j < order.len() ==> lex_le(
            name_key(names, order[i] as int),
            name_key(names, order[j] as int),
        )
    &&& forall|i: int, j: int|
        0 <= i < j < order.len() && name_key(names, order[i] as int) == name_key(names, order[j] as int)
            ==> order[i] < order[j]
}

/// The order in which sessions are listed: by lower-cased display name,
/// ties kept in enumeration order. Returns the positions in `names`.
pub fn order_by_name(names: &[String]) -> (order: Vec<usize>)
    ensures
        sorted_by_name(names@, order@),
{
    let mut keys: Vec<Vec<char>> = Vec::new();
    let mut k: usize = 0;
    while k < names.len()
        invariant
            k <= names@.len(),
            keys@.len() == k,
            forall|j: int| 0 <= j < k ==> (#[trigger] keys@[j])@ == name_key(names@, j),
        decreases names@.len() - k,
    {
        let low = to_lowercase(names[k].as_str());
        keys.push(chars_of(low.as_str()));
        k = k + 1;
    }
    let mut order: Vec<usize> = Vec::new();
    let mut i: usize = 0;
    while i < names.len()
        invariant
            i <= names@.len(),
            keys@.len() == names@.len(),
            forall|j: int| 0 <= j < names@.len() ==> (#[trigger] keys@[j])@ == name_key(names@, j),
            order@.len() == i,
            forall|a: int| 0 <= a < order@.len() ==> #[trigger] order@[a] < i,
            forall|a: int, b: int| 0 <= a < b < order@.len() ==> order@[a] != order@[b],
            forall|a: int, b: int|
                0 <= a < b < order@.len() ==> lex_le(
                    name_key(names@, order@[a] as int),
                    name_key(names@, order@[b] as int),
                ),
            forall|a: int, b: int|
                0 <= a < b < order@.len() && name_key(names@, order@[a] as int) == name_key(
                    names@,
                    order@[b] as int,
                ) ==> order@[a] < order@[b],
        decreases names@.len() - i,
    {
        let ghost ki = name_key(names@, i as int);
        let mut p: usize = order.len();
        while p > 0 && !lex_le_exec(keys[order[p - 1]].as_slice(), keys[i].as_slice())
            invariant
                p <= order@.len(),
                i < names@.len(),
                keys@.len() == names@.len(),
                forall|j: int| 0 <= j < names@.len() ==> (#[trigger] keys@[j])@ == name_key(names@, j),
                forall|a: int| 0 <= a < order@.len() ==> #[trigger] order@[a] < i,
                forall|a: int| p <= a < order@.len() ==> !lex_le(#[trigger] name_key(names@, order@[a] as int), ki),
                ki == name_key(names@, i as int),
            decreases p,
        {
            p = p - 1;
        }
        let ghost before = order@;
        proof {
            if p > 0 {
                assert(lex_le(name_key(names@, before[p - 1] as int), ki));
            }
            assert forall|a: int| 0 <= a < p implies lex_le(#[trigger] name_key(names@, before[a] as int), ki) by {
                if a < p - 1 {
                    lemma_lex_le_transitive(
                        name_key(names@, before[a] as int),
                        name_key(names@, before[p - 1] as int),
                        ki,
                    );
                }
            }
            assert forall|a: int| p <= a < before.len() implies lex_le(ki, #[trigger] name_key(names@, before[a] as int))
                && ki != name_key(names@, before[a] as int) by {
                lemma_lex_le_total(ki, name_key(names@, before[a] as int));
                if ki == name_key(names@, before[a] as int) {
                    lemma_lex_le_reflexive(ki);
                }
            }
        }
        order.insert(p, i);
        proof {
            let o = order@;
            assert(o =~= before.insert(p as int, i));
            assert forall|a: int, b: int| 0 <= a < b < o.len() implies lex_le(
                name_key(names@, o[a] as int),
                name_key(names@, o[b] as int),
            ) by {
                if b == p {
                    assert(o[a] == before[a]);
                } else if a == p {
                    assert(o[b] == before[b - 1]);
                } else {
                    let a0 = if a < p { a } else { a - 1 };
                    let b0 = if b < p { b } else { b - 1 };
                    assert(o[a] == before[a0]);
                    assert(o[b] == before[b0]);
                }
            }
            assert forall|a: int, b: int|
                0 <= a < b < o.len() && name_key(names@, o[a] as int) == name_key(names@, o[b] as int) implies o[a]
                < o[b] by {
                if b == p {
                    assert(o[a] == before[a]);
                } else if a == p {
                    assert(o[b] == before[b - 1]);
                } else {
                    let a0 = if a < p { a } else { a - 1 };
                    let b0 = if b < p { b } else { b - 1 };
                    assert(o[a] == before[a0]);
                    assert(o[b] == before[b0]);
                }
            }
            assert forall|a: int, b: int| 0 <= a < b < o.len() implies o[a] != o[b] by {
                if b == p {
                    assert(o[a] == before[a]);
                } else if a == p {
                    assert(o[b] == before[b - 1]);
                } else {
                    let a0 = if a < p { a } else { a - 1 };
                    let b0 = if b < p { b } else { b - 1 };
                    assert(o[a] == before[a0]);
                    assert(o[b] == before[b0]);
                }
            }
            assert forall|a: int| 0 <= a < o.len() implies #[trigger] o[a] < i + 1 by {
                if a < p {
                    assert(o[a] == before[a]);
                } else if a > p {
                    assert(o[a] == before[a - 1]);
                }
            }
        }
        i = i + 1;
    }
    order
}

} // verus!
