//! The tri-state run status of the dictation process and how it is derived
//! from the cookie file and the OS process-status text.

use vstd::prelude::*;

use crate::text::find_char_from;
use crate::text::find_char;
use crate::text::skip_space_from;
use crate::text::skip_space;
use crate::text::skip_token_from;
use crate::text::skip_token;
use crate::text::spec_parse_u32;
use crate::text::parse_u32;
use crate::text::trim_spec;
use crate::text::trim_str;

verus! {

/// Run state of the external dictation process, recomputed on every poll.
#[derive(Debug, Clone, Copy, PartialEq, Eq, Structural)]
pub enum DictationState {
    Stopped,
    Active,
    Suspended,
}

impl Default for DictationState {
    /// The state assumed at cold start, before anything has been observed.
    fn default() -> (r: Self)
        ensures
            r == DictationState::Stopped,
    {
        DictationState::Stopped
    }
}

impl DictationState {
    /// Returns a human-readable status string
    pub fn status_text(&self) -> (r: &'static str)
        ensures
            self is Stopped ==> r@ == "Stopped"@,
            self is Active ==> r@ == "Active"@,
            self is Suspended ==> r@ == "Suspended"@,
    {
        match self {
            DictationState::Stopped => "Stopped",
            DictationState::Active => "Active",
            DictationState::Suspended => "Suspended",
        }
    }
}

/// State meant by the first character of the second field of a `State:` line:
/// `T`/`t` are the stop and tracing-stop states, `R`/`S`/`D` are running,
/// sleeping and disk wait; anything else counts as not running.
pub open spec fn state_of_char(c: char) -> DictationState {
    if c == 'T' || c == 't' {
        DictationState::Suspended
    } else if c == 'R' || c == 'S' || c == 'D' {
        DictationState::Active
    } else {
        DictationState::Stopped
    }
}

pub fn state_from_char(c: char) -> (r: DictationState)
    ensures
        r == state_of_char(c),
{
    if c == 'T' || c == 't' {
        DictationState::Suspended
    } else if c == 'R' || c == 'S' || c == 'D' {
        DictationState::Active
    } else {
        DictationState::Stopped
    }
}

/// Whether the line `s[i..nl]` starts with the literal token `State:`.
pub open spec fn is_state_line(s: Seq<char>, i: int, nl: int) -> bool {
    &&& i + 6 <= nl
    &&& s[i] == 'S'
    &&& s[i + 1] == 't'
    &&& s[i + 2] == 'a'
    &&& s[i + 3] == 't'
    &&& s[i + 4] == 'e'
    &&& s[i + 5] == ':'
}

/// State read off a `State:` line `s[i..nl]`: the first character of its
/// second whitespace-separated field, mapped by `state_of_char`; `Stopped`
/// if the line has no second field.
pub open spec fn state_of_line(s: Seq<char>, i: int, nl: int) -> DictationState {
    let t0 = skip_space_from(s, i, nl);
    let e0 = skip_token_from(s, t0, nl);
    let t1 = skip_space_from(s, e0, nl);
    if t1 < nl {
        state_of_char(s[t1])
    } else {
        DictationState::Stopped
    }
}

/// Scan of the status text from index `i` on: the state read off the first
/// line starting with `State:`, or `Stopped` if no such line remains.
pub open spec fn spec_classify_from(s: Seq<char>, i: int) -> DictationState
    recommends
        0 <= i,
    decreases s.len() - i,
    via spec_classify_from_decreases
{
    if i >= s.len() {
        DictationState::Stopped
    } else {
        let nl = find_char_from(s, '\n', i);
        if is_state_line(s, i, nl) {
            state_of_line(s, i, nl)
        } else if nl < s.len() {
            spec_classify_from(s, nl + 1)
        } else {
            DictationState::Stopped
        }
    }
}

#[via_fn]
proof fn spec_classify_from_decreases(s: Seq<char>, i: int) {
    if i < s.len() {
        crate::text::lemma_find_char_from_bounds(s, '\n', i);
    }
}

/// State encoded in a whole process-status text.
pub open spec fn spec_classify(s: Seq<char>) -> DictationState {
    spec_classify_from(s, 0)
}

fn is_state_prefix(s: &str, i: usize, nl: usize) -> (r: bool)
    requires
        i <= nl <= s@.len(),
    ensures
        r == is_state_line(s@, i as int, nl as int),
{
    if nl - i < 6 {
        return false;
    }
    s.get_char(i) == 'S' && s.get_char(i + 1) == 't' && s.get_char(i + 2) == 'a' && s.get_char(
        i + 3,
    ) == 't' && s.get_char(i + 4) == 'e' && s.get_char(i + 5) == ':'
}

/// Classify a process-status text by its first `State:` line, as the status
/// pseudo-file of a process reports it.
pub fn classify_status(status: &str) -> (r: DictationState)
    ensures
        r == spec_classify(status@),
{
    let n = status.unicode_len();
    let mut i: usize = 0;
    loop
        invariant
            i <= n,
            n == status@.len(),
            spec_classify_from(status@, 0) == spec_classify_from(status@, i as int),
        decreases n - i,
    {
        if i >= n {
            return DictationState::Stopped;
        }
        let nl = find_char(status, '\n', i);
        if is_state_prefix(status, i, nl) {
            let t0 = skip_space(status, i, nl);
            let e0 = skip_token(status, t0, nl);
            let t1 = skip_space(status, e0, nl);
            if t1 < nl {
                return state_from_char(status.get_char(t1));
            } else {
                return DictationState::Stopped;
            }
        }
        if nl >= n {
            return DictationState::Stopped;
        }
        i = nl + 1;
    }
}

/// Whether index `i` begins a line of `s`: the very start of the text, or the
/// position right after a newline.
pub open spec fn line_start(s: Seq<char>, i: int) -> bool {
    i == 0 || s[i - 1] == '\n'
}

proof fn lemma_classify_skip(s: Seq<char>, k: int, i: int)
    requires
        0 <= k <= i <= s.len(),
        line_start(s, k),
        line_start(s, i),
        forall|j: int| k <= j < i && line_start(s, j) ==> !is_state_line(
            s,
            j,
            find_char_from(s, '\n', j),
        ),
    ensures
        spec_classify_from(s, k) == spec_classify_from(s, i),
    decreases i - k,
{
    if k < i {
        let nl = find_char_from(s, '\n', k);
        crate::text::lemma_find_char_from_bounds(s, '\n', k);
        assert(!is_state_line(s, k, nl));
        assert(s[i - 1] == '\n' && k <= i - 1);
        assert(nl <= i - 1);
        assert(line_start(s, nl + 1));
        lemma_classify_skip(s, nl + 1, i);
    }
}

/// Law: classification goes by the earliest `State:` line. Where `i` begins
/// the first line of the status text that starts with `State:`, the detected
/// state is that line's reading: `Suspended` on a second field starting
/// `T`/`t`, `Active` on `R`/`S`/`D`, `Stopped` on anything else or on a
/// missing second field.
pub proof fn lemma_classify_state_line(s: Seq<char>, i: int)
    requires
        0 <= i <= s.len(),
        line_start(s, i),
        is_state_line(s, i, find_char_from(s, '\n', i)),
        forall|j: int| 0 <= j < i && line_start(s, j) ==> !is_state_line(
            s,
            j,
            find_char_from(s, '\n', j),
        ),
    ensures
        spec_classify(s) == state_of_line(s, i, find_char_from(s, '\n', i)),
{
    crate::text::lemma_find_char_from_bounds(s, '\n', i);
    lemma_classify_skip(s, 0, i);
}

/// Law: a status text with no line starting with `State:` classifies as
/// `Stopped`.
pub proof fn lemma_classify_no_state_line(s: Seq<char>)
    requires
        forall|j: int| 0 <= j <= s.len() && line_start(s, j) ==> !is_state_line(
            s,
            j,
            find_char_from(s, '\n', j),
        ),
    ensures
        spec_classify(s) == DictationState::Stopped,
{
    lemma_classify_stopped_from(s, 0);
}

proof fn lemma_classify_stopped_from(s: Seq<char>, k: int)
    requires
        0 <= k <= s.len(),
        line_start(s, k),
        forall|j: int| k <= j <= s.len() && line_start(s, j) ==> !is_state_line(
            s,
            j,
            find_char_from(s, '\n', j),
        ),
    ensures
        spec_classify_from(s, k) == DictationState::Stopped,
    decreases s.len() - k,
{
    if k < s.len() {
        let nl = find_char_from(s, '\n', k);
        crate::text::lemma_find_char_from_bounds(s, '\n', k);
        assert(!is_state_line(s, k, nl));
        if nl < s.len() {
            assert(line_start(s, nl + 1));
            lemma_classify_stopped_from(s, nl + 1);
        }
    }
}

/// Process id recorded in a cookie file's contents: the contents with
/// surrounding whitespace removed, read as an unsigned decimal integer.
pub open spec fn spec_parse_pid(s: Seq<char>) -> Option<u32> {
    spec_parse_u32(trim_spec(s))
}

/// Parse the process id out of the cookie file's contents.
pub fn parse_pid(content: &str) -> (r: Option<u32>)
    ensures
        r == spec_parse_pid(content@),
{
    parse_u32(trim_str(content))
}

/// The full detection decision, over what the two filesystem reads produced:
/// the cookie file's contents (`None` when the file is absent or unreadable)
/// and the process-status text for the recorded pid (`None` when that read
/// failed, or never happened for want of a pid).
pub open spec fn spec_detect(cookie: Option<Seq<char>>, status: Option<Seq<char>>) -> DictationState {
    match cookie {
        None => DictationState::Stopped,
        Some(c) => match spec_parse_pid(c) {
            None => DictationState::Stopped,
            Some(_) => match status {
                None => DictationState::Stopped,
                Some(t) => spec_classify(t),
            },
        },
    }
}

/// Derive the dictation state from the contents of the cookie file and of the
/// process-status pseudo-file, each `None` where the read failed. Every
/// failure path degrades to `Stopped`; a readable status text decides.
pub fn detect_state_from(cookie: Option<&str>, status: Option<&str>) -> (r: DictationState)
    ensures
        r == spec_detect(
            match cookie {
                Some(c) => Some(c@),
                None => None,
            },
            match status {
                Some(t) => Some(t@),
                None => None,
            },
        ),
        cookie is None ==> r == DictationState::Stopped,
        (cookie matches Some(c) && spec_parse_pid(c@) is None) ==> r == DictationState::Stopped,
        status is None ==> r == DictationState::Stopped,
        match (cookie, status) {
            (Some(c), Some(t)) => spec_parse_pid(c@) is Some ==> r == spec_classify(t@),
            _ => true,
        },
{
    let c = match cookie {
        None => {
            return DictationState::Stopped;
        },
        Some(c) => c,
    };
    if parse_pid(c).is_none() {
        return DictationState::Stopped;
    }
    match status {
        None => DictationState::Stopped,
        Some(t) => classify_status(t),
    }
}

} // verus!
