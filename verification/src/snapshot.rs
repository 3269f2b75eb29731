use vstd::prelude::*;

verus! {

/// Mathematical model of a recorded capture: the two text fields as
/// character sequences.
pub ghost struct SnapModel {
    pub timestamp: Seq<char>,
    pub content: Seq<char>,
}

/// One recorded clipboard capture: a human-readable timestamp and the raw
/// clipboard text. Immutable once created; its identity is its position in
/// the history sequence.
pub struct Snapshot {
    pub timestamp: Vec<char>,
    pub content: Vec<char>,
}

impl View for Snapshot {
    type V = SnapModel;

    open spec fn view(&self) -> SnapModel {
        SnapModel { timestamp: self.timestamp@, content: self.content@ }
    }
}

/// Copies a character vector element by element.
pub fn copy_chars(v: &Vec<char>) -> (r: Vec<char>)
    ensures
        r@ == v@,
{
    let mut out: Vec<char> = Vec::new();
    let mut i: usize = 0;
    while i < v.len()
        invariant
            i <= v.len(),
            out@ == v@.take(i as int),
        decreases v.len() - i,
    {
        out.push(v[i]);
        i = i + 1;
        proof {
            assert(out@ =~= v@.take(i as int));
        }
    }
    proof {
        assert(v@.take(v@.len() as int) =~= v@);
    }
    out
}

/// Compares two character vectors for equality of their contents.
pub fn chars_eq(a: &Vec<char>, b: &Vec<char>) -> (r: bool)
    ensures
        r == (a@ == b@),
{
    if a.len() != b.len() {
        proof {
            assert(a@ != b@);
        }
        return false;
    }
    let mut i: usize = 0;
    while i < a.len()
        invariant
            i <= a.len(),
            a@.len() == b@.len(),
            forall|j: int| 0 <= j < i ==> a@[j] == b@[j],
        decreases a.len() - i,
    {
        if a[i] != b[i] {
            proof {
                assert(a@[i as int] != b@[i as int]);
            }
            return false;
        }
        i = i + 1;
    }
    proof {
        assert(a@ =~= b@);
    }
    true
}

impl Snapshot {
    /// A field-for-field copy of this capture.
    pub fn duplicate(&self) -> (r: Snapshot)
        ensures
            r@ == self@,
    {
        Snapshot { timestamp: copy_chars(&self.timestamp), content: copy_chars(&self.content) }
    }
}

/// Runtime settings: the retention bound and the clipboard polling cadence.
/// Both are positive; invalid or missing inputs fall back to the defaults.
pub struct Config {
    pub max_history: usize,
    pub poll_interval_ms: u64,
}

pub const DEFAULT_MAX_HISTORY: usize = 200;

pub const DEFAULT_POLL_INTERVAL_MS: u64 = 300;

impl Config {
    /// Both settings are positive integers.
    pub open spec fn wf(self) -> bool {
        self.max_history >= 1 && self.poll_interval_ms >= 1
    }

    /// The hardcoded fallback settings.
    pub fn fallback() -> (r: Config)
        ensures
            r.wf(),
            r.max_history == DEFAULT_MAX_HISTORY,
            r.poll_interval_ms == DEFAULT_POLL_INTERVAL_MS,
    {
        Config { max_history: DEFAULT_MAX_HISTORY, poll_interval_ms: DEFAULT_POLL_INTERVAL_MS }
    }

    /// Builds a configuration from parsed values, replacing a non-positive
    /// field by its default.
    pub fn from_parsed(max_history: usize, poll_interval_ms: u64) -> (r: Config)
        ensures
            r.wf(),
            r.max_history == if max_history >= 1 { max_history } else { DEFAULT_MAX_HISTORY },
            r.poll_interval_ms == if poll_interval_ms >= 1 {
                poll_interval_ms
            } else {
                DEFAULT_POLL_INTERVAL_MS
            },
    {
        Config {
            max_history: if max_history >= 1 { max_history } else { DEFAULT_MAX_HISTORY },
            poll_interval_ms: if poll_interval_ms >= 1 {
                poll_interval_ms
            } else {
                DEFAULT_POLL_INTERVAL_MS
            },
        }
    }
}

} // verus!
