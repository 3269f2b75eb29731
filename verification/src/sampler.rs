use vstd::prelude::*;
use crate::history::{record, History};
use crate::snapshot::{chars_eq, SnapModel, Snapshot};

verus! {

/// True when the text consists solely of newline or carriage-return
/// characters (an empty text counts). Such reads are transient
/// empty-clipboard states some clipboard backends report, and are never
/// recorded.
pub open spec fn is_blank(s: Seq<char>) -> bool {
    forall|i: int| 0 <= i < s.len() ==> s[i] == '\n' || s[i] == '\r'
}

/// Decision rule of one poll iteration: a clipboard read is recorded
/// exactly when it is not blank and differs (exact string equality, no
/// normalization) from the last text this sampler itself recorded.
pub open spec fn should_record(last: Option<Seq<char>>, text: Seq<char>) -> bool {
    !is_blank(text) && last != Some(text)
}

/// The background sampler's own memory: the last text it recorded, not
/// re-derived from the history on each tick.
pub struct Sampler {
    pub last_text: Option<Vec<char>>,
}

impl Sampler {
    /// The last recorded text as a character sequence.
    pub open spec fn last_model(self) -> Option<Seq<char>> {
        match self.last_text {
            None => None,
            Some(v) => Some(v@),
        }
    }

    /// A fresh sampler that has recorded nothing yet.
    pub fn new() -> (r: Sampler)
        ensures
            r.last_model() == None::<Seq<char>>,
    {
        Sampler { last_text: None }
    }

    /// One poll iteration on a clipboard read, with the timestamp already
    /// rendered: decides by the recording rule and, on acceptance, commits
    /// the capture and remembers the text.
    pub fn observe_with_timestamp(
        &mut self,
        history: &mut History,
        text: Vec<char>,
        timestamp: Vec<char>,
    ) -> (recorded: bool)
        requires
            old(history).wf(),
        ensures
            final(history).wf(),
            final(history).max_history == old(history).max_history,
            recorded == should_record(old(self).last_model(), text@),
            recorded ==> final(history)@ == record(
                old(history)@,
                (SnapModel { timestamp: timestamp@, content: text@ }),
                old(history).max_history as nat,
            ) && final(self).last_model() == Some(text@),
            !recorded ==> final(history)@ == old(history)@ && *final(self) == *old(self),
    {
        if is_blank_exec(&text) {
            return false;
        }
        let same = match &self.last_text {
            Some(prev) => chars_eq(prev, &text),
            None => false,
        };
        if same {
            return false;
        }
        let content = crate::snapshot::copy_chars(&text);
        history.insert(Snapshot { timestamp, content });
        self.last_text = Some(text);
        true
    }

    /// One poll iteration on a clipboard read: stamps an accepted capture
    /// with the current local time. The timestamp depends on the clock, so
    /// the contract only states that some timestamp was used.
    pub fn observe(&mut self, history: &mut History, text: Vec<char>) -> (recorded: bool)
        requires
            old(history).wf(),
        ensures
            final(history).wf(),
            final(history).max_history == old(history).max_history,
            recorded == should_record(old(self).last_model(), text@),
            recorded ==> exists|ts: Seq<char>|
                final(history)@ == record(
                    old(history)@,
                    (SnapModel { timestamp: ts, content: text@ }),
                    old(history).max_history as nat,
                ) && final(self).last_model() == Some(text@),
            !recorded ==> final(history)@ == old(history)@ && *final(self) == *old(self),
    {
        let timestamp = now_timestamp();
        let ghost ts = timestamp@;
        let recorded = self.observe_with_timestamp(history, text, timestamp);
        proof {
            if recorded {
                assert(history@ == record(
                    old(history)@,
                    (SnapModel { timestamp: ts, content: text@ }),
                    old(history).max_history as nat,
                ));
            }
        }
        recorded
    }
}

/// True exactly when every character of the text is a newline or a
/// carriage return.
pub fn is_blank_exec(text: &Vec<char>) -> (r: bool)
    ensures
        r == is_blank(text@),
{
    let mut i: usize = 0;
    while i < text.len()
        invariant
            i <= text.len(),
            forall|j: int| 0 <= j < i ==> text@[j] == '\n' || text@[j] == '\r',
        decreases text.len() - i,
    {
        let c = text[i];
        if c != '\n' && c != '\r' {
            return false;
        }
        i = i + 1;
    }
    true
}

/// Relies on chrono's `Local::now` and `DateTime::format`: the current
/// local wall-clock time rendered at second precision
/// (`%Y-%m-%d %H:%M:%S`). The result depends on the clock, so nothing is
/// promised of its value. Inherits chrono's panic on a system clock set
/// before the Unix epoch.
#[verifier::external_body]
fn now_timestamp() -> Vec<char> {
    chrono::Local::now().format("%Y-%m-%d %H:%M:%S").to_string().chars().collect()
}

/// Deduplication: a read identical to the last recorded text is never
/// recorded (so repeated identical reads never grow the history), while a
/// non-blank read of a different text is recorded and commits exactly one
/// new entry, which becomes the newest element.
pub proof fn lemma_deduplication(
    last: Seq<char>,
    text: Seq<char>,
    ts: Seq<char>,
    h: Seq<SnapModel>,
    max: nat,
)
    requires
        1 <= max,
        h.len() <= max,
    ensures
        !should_record(Some(last), last),
        text != last && !is_blank(text) ==> should_record(Some(last), text),
        h.len() < max ==> record(h, (SnapModel { timestamp: ts, content: text }), max) == h.push(
            (SnapModel { timestamp: ts, content: text }),
        ),
        h.len() == max ==> record(h, (SnapModel { timestamp: ts, content: text }), max) == h.push(
            (SnapModel { timestamp: ts, content: text }),
        ).skip(1),
        record(h, (SnapModel { timestamp: ts, content: text }), max).last() == (SnapModel {
            timestamp: ts,
            content: text,
        }),
{
    let s = SnapModel { timestamp: ts, content: text };
    let h2 = record(h, s, max);
    if h.len() == max {
        assert(h2 == h.push(s).skip(1));
        assert(h2.last() == s);
    }
}

/// Blank filtering: text consisting solely of newline or carriage-return
/// characters never produces a history entry, regardless of what was
/// recorded before, of repetition, or of the text's length.
pub proof fn lemma_blank_filtering(last: Option<Seq<char>>, text: Seq<char>)
    requires
        is_blank(text),
    ensures
        !should_record(last, text),
{
}

} // verus!
