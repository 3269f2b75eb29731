use vstd::prelude::*;
use crate::history::History;
use crate::snapshot::{SnapModel, Snapshot};

verus! {

/// Substring containment: `q` occurs contiguously in `t` (the empty query
/// occurs in every text). Case-sensitive, no normalization.
pub open spec fn contains_sub(t: Seq<char>, q: Seq<char>) -> bool {
    exists|i: int| 0 <= i && i + q.len() <= t.len() && #[trigger] t.subrange(i, i + q.len()) == q
}

/// Mathematical model of the browser's input mode.
pub ghost enum ModeModel {
    Normal,
    Searching(Seq<char>),
}

/// The browser's input mode: plain browsing, or entering a filter query.
#[derive(Debug, PartialEq, Eq, Clone)]
pub enum InputMode {
    Normal,
    Searching(Vec<char>),
}

impl View for InputMode {
    type V = ModeModel;

    open spec fn view(&self) -> ModeModel {
        match self {
            InputMode::Normal => ModeModel::Normal,
            InputMode::Searching(q) => ModeModel::Searching(q@),
        }
    }
}

/// Whether one capture is shown under the given mode: always in `Normal`,
/// and only when the query occurs in its content while `Searching`.
pub open spec fn visible(e: SnapModel, mode: ModeModel) -> bool {
    match mode {
        ModeModel::Normal => true,
        ModeModel::Searching(q) => contains_sub(e.content, q),
    }
}

/// The display list for one frame: the captures visible under the mode,
/// most recent first.
pub open spec fn display(h: Seq<SnapModel>, mode: ModeModel) -> Seq<SnapModel>
    decreases h.len(),
{
    if h.len() == 0 {
        Seq::empty()
    } else {
        let rest = display(h.drop_last(), mode);
        if visible(h.last(), mode) {
            seq![h.last()] + rest
        } else {
            rest
        }
    }
}

/// The display list of a concatenation lists the right part (the newer
/// captures) first.
pub proof fn lemma_display_concat(a: Seq<SnapModel>, b: Seq<SnapModel>, mode: ModeModel)
    ensures
        display(a + b, mode) == display(b, mode) + display(a, mode),
    decreases b.len(),
{
    if b.len() == 0 {
        assert(a + b =~= a);
        assert(display(b, mode) + display(a, mode) =~= display(a, mode));
    } else {
        assert((a + b).drop_last() =~= a + b.drop_last());
        assert((a + b).last() == b.last());
        lemma_display_concat(a, b.drop_last(), mode);
        if visible(b.last(), mode) {
            assert(seq![b.last()] + (display(b.drop_last(), mode) + display(a, mode)) =~= (seq![
                b.last(),
            ] + display(b.drop_last(), mode)) + display(a, mode));
        }
    }
}

/// In `Normal` mode the display list is exactly the history reversed.
pub proof fn lemma_display_normal(h: Seq<SnapModel>)
    ensures
        display(h, ModeModel::Normal) == h.reverse(),
    decreases h.len(),
{
    if h.len() == 0 {
        assert(h.reverse() =~= Seq::<SnapModel>::empty());
    } else {
        lemma_display_normal(h.drop_last());
        assert(display(h, ModeModel::Normal) == seq![h.last()] + display(
            h.drop_last(),
            ModeModel::Normal,
        ));
        assert(seq![h.last()] + h.drop_last().reverse() =~= h.reverse());
    }
}

/// Search filter correctness: while searching, the display list is exactly
/// the subsequence of the reversed (most-recent-first) history whose
/// content contains the query as a case-sensitive substring.
pub proof fn lemma_search_filter_correctness(h: Seq<SnapModel>, q: Seq<char>)
    ensures
        display(h, ModeModel::Searching(q)) == h.reverse().filter(
            |e: SnapModel| contains_sub(e.content, q),
        ),
    decreases h.len(),
{
    let p = |e: SnapModel| contains_sub(e.content, q);
    let mode = ModeModel::Searching(q);
    if h.len() == 0 {
        assert(h.reverse() =~= Seq::<SnapModel>::empty());
        assert(Seq::<SnapModel>::empty().filter(p) =~= Seq::<SnapModel>::empty()) by {
            reveal(Seq::filter);
        }
    } else {
        lemma_search_filter_correctness(h.drop_last(), q);
        assert(seq![h.last()] + h.drop_last().reverse() =~= h.reverse());
        h.drop_last().reverse().lemma_filter_prepend(h.last(), p);
        if visible(h.last(), mode) {
            assert(h.reverse().filter(p) == seq![h.last()] + h.drop_last().reverse().filter(p));
        } else {
            assert(h.reverse().filter(p) == Seq::<SnapModel>::empty() + h.drop_last().reverse()
                .filter(p));
            assert(Seq::<SnapModel>::empty() + h.drop_last().reverse().filter(p) =~= h.drop_last()
                .reverse()
                .filter(p));
        }
    }
}

/// Restore correctness: in `Normal` mode, display row `row` is the capture
/// at position `len - 1 - row` of the history (row 0 is the most recently
/// captured entry).
pub proof fn lemma_restore_correctness(h: Seq<SnapModel>, row: int)
    requires
        0 <= row < h.len(),
    ensures
        display(h, ModeModel::Normal)[row] == h[h.len() - 1 - row],
{
    lemma_display_normal(h);
}

/// True exactly when the query occurs at position `i` of the text.
fn matches_at(t: &Vec<char>, q: &Vec<char>, i: usize) -> (r: bool)
    requires
        i + q@.len() <= t@.len(),
    ensures
        r == (t@.subrange(i as int, i + q@.len()) == q@),
{
    let n = t.len();
    let mut j: usize = 0;
    while j < q.len()
        invariant
            n == t@.len(),
            i + q@.len() <= t@.len(),
            j <= q@.len(),
            forall|k: int| 0 <= k < j ==> t@[i + k] == q@[k],
        decreases q.len() - j,
    {
        if t[i + j] != q[j] {
            proof {
                assert(t@.subrange(i as int, i + q@.len())[j as int] == t@[i + j]);
            }
            return false;
        }
        j = j + 1;
    }
    proof {
        assert(t@.subrange(i as int, i + q@.len()) =~= q@);
    }
    true
}

/// True exactly when the query occurs somewhere in the text.
pub fn contains_query(t: &Vec<char>, q: &Vec<char>) -> (r: bool)
    ensures
        r == contains_sub(t@, q@),
{
    if q.len() > t.len() {
        return false;
    }
    if q.len() == 0 {
        proof {
            assert(contains_sub(t@, q@)) by {
                assert(t@.subrange(0, 0 + q@.len() as int) =~= q@);
            }
        }
        return true;
    }
    let mut i: usize = 0;
    let last_start = t.len() - q.len();
    while i <= last_start
        invariant
            1 <= q@.len() <= t@.len(),
            t@.len() <= usize::MAX,
            last_start == t@.len() - q@.len(),
            last_start < t@.len(),
            i <= last_start + 1,
            forall|k: int| 0 <= k < i ==> #[trigger] t@.subrange(k, k + q@.len()) != q@,
        decreases last_start - i + 1,
    {
        if matches_at(t, q, i) {
            return true;
        }
        i = i + 1;
    }
    false
}

/// Computes the display list for one frame from a consistent copy of the
/// history: the captures visible under the mode, most recent first.
pub fn display_list(entries: &Vec<Snapshot>, mode: &InputMode) -> (r: Vec<Snapshot>)
    ensures
        r@.map_values(|s: Snapshot| s@) == display(entries@.map_values(|s: Snapshot| s@), mode@),
{
    let ghost h = entries@.map_values(|s: Snapshot| s@);
    let n = entries.len();
    let mut out: Vec<Snapshot> = Vec::new();
    let mut k: usize = 0;
    proof {
        assert(h.skip(n as int) =~= Seq::<SnapModel>::empty());
    }
    while k < n
        invariant
            n == entries@.len(),
            h == entries@.map_values(|s: Snapshot| s@),
            k <= n,
            out@.map_values(|s: Snapshot| s@) == display(h.skip(n - k), mode@),
        decreases n - k,
    {
        let e = &entries[n - 1 - k];
        let keep = match mode {
            InputMode::Normal => true,
            InputMode::Searching(q) => contains_query(&e.content, q),
        };
        proof {
            let suffix = h.skip(n - k);
            let longer = h.skip(n - k - 1);
            assert(longer =~= seq![h[n - 1 - k]] + suffix);
            lemma_display_concat(seq![h[n - 1 - k]], suffix, mode@);
            assert(seq![h[n - 1 - k]].drop_last() =~= Seq::<SnapModel>::empty());
            assert(display(Seq::<SnapModel>::empty(), mode@) =~= Seq::<SnapModel>::empty());
            assert(seq![h[n - 1 - k]].last() == h[n - 1 - k]);
            if visible(h[n - 1 - k], mode@) {
                assert(seq![h[n - 1 - k]] + Seq::<SnapModel>::empty() =~= seq![h[n - 1 - k]]);
                assert(display(seq![h[n - 1 - k]], mode@) =~= seq![h[n - 1 - k]]);
                assert(display(longer, mode@) =~= display(suffix, mode@).push(h[n - 1 - k]));
            } else {
                assert(display(seq![h[n - 1 - k]], mode@) =~= Seq::<SnapModel>::empty());
                assert(display(longer, mode@) =~= display(suffix, mode@));
            }
            assert(keep == visible(h[n - 1 - k], mode@));
        }
        if keep {
            out.push(e.duplicate());
            proof {
                assert(out@.map_values(|s: Snapshot| s@) =~= display(h.skip(n - k), mode@).push(
                    h[n - 1 - k],
                ));
            }
        }
        k = k + 1;
    }
    proof {
        assert(h.skip(0) =~= h);
    }
    out
}

/// Resolves a display row in `Normal` mode to the raw text of the
/// corresponding capture (row 0 is the most recently captured entry);
/// `None` when the row is out of range.
pub fn restore_target(h: &History, row: usize) -> (r: Option<Vec<char>>)
    ensures
        match r {
            Some(c) => row < h@.len() && c@ == h@[h@.len() - 1 - row].content && c@ == display(
                h@,
                ModeModel::Normal,
            )[row as int].content,
            None => row >= h@.len(),
        },
{
    let n = h.len();
    if row < n {
        let r = h.content_at(n - 1 - row);
        proof {
            lemma_restore_correctness(h@, row as int);
        }
        r
    } else {
        None
    }
}


/// A keyboard event, as the browser's state machine understands it.
#[derive(Clone, Copy, Debug, PartialEq, Eq)]
pub enum Key {
    Char(char),
    Up,
    Down,
    Enter,
    Backspace,
    Esc,
    Other,
}

/// What one browser iteration asks its surroundings to do: nothing, leave
/// the loop, or write the capture at the given history position back to
/// the clipboard.
#[derive(Clone, Copy, Debug, PartialEq, Eq)]
pub enum BrowseAction {
    Idle,
    Quit,
    Restore(usize),
}

/// Mathematical model of the browser-local view state.
pub ghost struct ViewModel {
    pub mode: ModeModel,
    pub selected: int,
}

/// The browser-local view state: the input mode and the selection index
/// into the currently displayed (most-recent-first) list.
pub struct ViewState {
    pub mode: InputMode,
    pub selected: usize,
}

impl View for ViewState {
    type V = ViewModel;

    open spec fn view(&self) -> ViewModel {
        ViewModel { mode: self.mode@, selected: self.selected as int }
    }
}

/// The browser's transition table: given the view state, a key, and the
/// full (unfiltered) history length, the next view state and the action to
/// perform. Selection clamping follows the full history length, not the
/// filtered count.
pub open spec fn step(v: ViewModel, key: Key, len: int) -> (ViewModel, BrowseAction) {
    match v.mode {
        ModeModel::Normal => match key {
            Key::Char(c) => if c == 'q' {
                (v, BrowseAction::Quit)
            } else if c == '/' {
                (
                    (ViewModel { mode: ModeModel::Searching(Seq::empty()), selected: v.selected }),
                    BrowseAction::Idle,
                )
            } else {
                (v, BrowseAction::Idle)
            },
            Key::Down => (
                (
                    ViewModel {
                        mode: v.mode,
                        selected: if v.selected + 1 < len {
                            v.selected + 1
                        } else {
                            v.selected
                        },
                    }
                ),
                BrowseAction::Idle,
            ),
            Key::Up => (
                (
                    ViewModel {
                        mode: v.mode,
                        selected: if v.selected > 0 {
                            v.selected - 1
                        } else {
                            0
                        },
                    }
                ),
                BrowseAction::Idle,
            ),
            Key::Enter => if 0 <= v.selected < len {
                (v, BrowseAction::Restore((len - 1 - v.selected) as usize))
            } else {
                (v, BrowseAction::Idle)
            },
            _ => (v, BrowseAction::Idle),
        },
        ModeModel::Searching(q) => match key {
            Key::Esc => (
                (ViewModel { mode: ModeModel::Normal, selected: v.selected }),
                BrowseAction::Idle,
            ),
            Key::Enter => (
                (ViewModel { mode: ModeModel::Normal, selected: v.selected }),
                BrowseAction::Idle,
            ),
            Key::Char(c) => (
                (ViewModel { mode: ModeModel::Searching(q.push(c)), selected: v.selected }),
                BrowseAction::Idle,
            ),
            Key::Backspace => (
                (
                    ViewModel {
                        mode: ModeModel::Searching(
                            if q.len() > 0 {
                                q.drop_last()
                            } else {
                                q
                            },
                        ),
                        selected: v.selected,
                    }
                ),
                BrowseAction::Idle,
            ),
            _ => (v, BrowseAction::Idle),
        },
    }
}

impl ViewState {
    /// The initial view state: browsing, first row selected.
    pub fn init() -> (r: ViewState)
        ensures
            r@ == (ViewModel { mode: ModeModel::Normal, selected: 0 as int }),
    {
        ViewState { mode: InputMode::Normal, selected: 0 }
    }

    /// Applies the transition table to one keyboard event. `len` is the
    /// full history length of this frame.
    pub fn handle_key(self, key: Key, len: usize) -> (r: (ViewState, BrowseAction))
        ensures
            ({
                let (v2, a) = step(self@, key, len as int);
                r.0@ == v2 && r.1 == a
            }),
    {
        let ViewState { mode, selected } = self;
        match mode {
            InputMode::Normal => match key {
                Key::Char(c) => if c == 'q' {
                    (ViewState { mode: InputMode::Normal, selected }, BrowseAction::Quit)
                } else if c == '/' {
                    (
                        ViewState { mode: InputMode::Searching(Vec::new()), selected },
                        BrowseAction::Idle,
                    )
                } else {
                    (ViewState { mode: InputMode::Normal, selected }, BrowseAction::Idle)
                },
                Key::Down => {
                    let sel = if len > 0 && selected < len - 1 {
                        selected + 1
                    } else {
                        selected
                    };
                    (ViewState { mode: InputMode::Normal, selected: sel }, BrowseAction::Idle)
                },
                Key::Up => {
                    let sel = if selected > 0 {
                        selected - 1
                    } else {
                        0
                    };
                    (ViewState { mode: InputMode::Normal, selected: sel }, BrowseAction::Idle)
                },
                Key::Enter => if selected < len {
                    (
                        ViewState { mode: InputMode::Normal, selected },
                        BrowseAction::Restore(len - 1 - selected),
                    )
                } else {
                    (ViewState { mode: InputMode::Normal, selected }, BrowseAction::Idle)
                },
                _ => (ViewState { mode: InputMode::Normal, selected }, BrowseAction::Idle),
            },
            InputMode::Searching(q) => match key {
                Key::Esc => (
                    ViewState { mode: InputMode::Normal, selected },
                    BrowseAction::Idle,
                ),
                Key::Enter => (
                    ViewState { mode: InputMode::Normal, selected },
                    BrowseAction::Idle,
                ),
                Key::Char(c) => {
                    let mut q = q;
                    q.push(c);
                    (ViewState { mode: InputMode::Searching(q), selected }, BrowseAction::Idle)
                },
                Key::Backspace => {
                    let mut q = q;
                    if q.len() > 0 {
                        let ghost before = q@;
                        q.pop();
                        proof {
                            assert(q@ =~= before.drop_last());
                        }
                    }
                    (ViewState { mode: InputMode::Searching(q), selected }, BrowseAction::Idle)
                },
                _ => (
                    ViewState { mode: InputMode::Searching(q), selected },
                    BrowseAction::Idle,
                ),
            },
        }
    }
}


/// A Unicode whitespace character: the set `str::trim` removes, so an
/// entry whose text is made only of these would render as blank space.
pub open spec fn is_space_char(c: char) -> bool {
    c == ' ' || c == '\t' || c == '\n' || c == '\u{b}' || c == '\u{c}' || c == '\r' || c
        == '\u{85}' || c == '\u{a0}' || c == '\u{1680}' || c == '\u{2000}' || c == '\u{2001}' || c
        == '\u{2002}' || c == '\u{2003}' || c == '\u{2004}' || c == '\u{2005}' || c == '\u{2006}'
        || c == '\u{2007}' || c == '\u{2008}' || c == '\u{2009}' || c == '\u{200a}' || c
        == '\u{2028}' || c == '\u{2029}' || c == '\u{202f}' || c == '\u{205f}' || c == '\u{3000}'
}

/// True when every character of the text is whitespace (an empty text
/// counts).
pub open spec fn all_space(s: Seq<char>) -> bool {
    forall|i: int| 0 <= i < s.len() ==> is_space_char(s[i])
}

/// One whitespace character as debug escaping renders it: named escapes
/// for tab, newline and carriage return, the plain space kept as it is,
/// and every other whitespace character as a `\u{...}` escape.
pub open spec fn esc_space_char(c: char) -> Seq<char> {
    if c == '\t' {
        seq!['\\', 't']
    } else if c == '\n' {
        seq!['\\', 'n']
    } else if c == '\r' {
        seq!['\\', 'r']
    } else if c == '\u{b}' {
        seq!['\\', 'u', '{', 'b', '}']
    } else if c == '\u{c}' {
        seq!['\\', 'u', '{', 'c', '}']
    } else if c == '\u{85}' {
        seq!['\\', 'u', '{', '8', '5', '}']
    } else if c == '\u{a0}' {
        seq!['\\', 'u', '{', 'a', '0', '}']
    } else if c == '\u{1680}' {
        seq!['\\', 'u', '{', '1', '6', '8', '0', '}']
    } else if c == '\u{2000}' {
        seq!['\\', 'u', '{', '2', '0', '0', '0', '}']
    } else if c == '\u{2001}' {
        seq!['\\', 'u', '{', '2', '0', '0', '1', '}']
    } else if c == '\u{2002}' {
        seq!['\\', 'u', '{', '2', '0', '0', '2', '}']
    } else if c == '\u{2003}' {
        seq!['\\', 'u', '{', '2', '0', '0', '3', '}']
    } else if c == '\u{2004}' {
        seq!['\\', 'u', '{', '2', '0', '0', '4', '}']
    } else if c == '\u{2005}' {
        seq!['\\', 'u', '{', '2', '0', '0', '5', '}']
    } else if c == '\u{2006}' {
        seq!['\\', 'u', '{', '2', '0', '0', '6', '}']
    } else if c == '\u{2007}' {
        seq!['\\', 'u', '{', '2', '0', '0', '7', '}']
    } else if c == '\u{2008}' {
        seq!['\\', 'u', '{', '2', '0', '0', '8', '}']
    } else if c == '\u{2009}' {
        seq!['\\', 'u', '{', '2', '0', '0', '9', '}']
    } else if c == '\u{200a}' {
        seq!['\\', 'u', '{', '2', '0', '0', 'a', '}']
    } else if c == '\u{2028}' {
        seq!['\\', 'u', '{', '2', '0', '2', '8', '}']
    } else if c == '\u{2029}' {
        seq!['\\', 'u', '{', '2', '0', '2', '9', '}']
    } else if c == '\u{202f}' {
        seq!['\\', 'u', '{', '2', '0', '2', 'f', '}']
    } else if c == '\u{205f}' {
        seq!['\\', 'u', '{', '2', '0', '5', 'f', '}']
    } else if c == '\u{3000}' {
        seq!['\\', 'u', '{', '3', '0', '0', '0', '}']
    } else {
        seq![c]
    }
}

/// A whitespace-only text as debug escaping renders it.
pub open spec fn enc_space(s: Seq<char>) -> Seq<char>
    decreases s.len(),
{
    if s.len() == 0 {
        Seq::empty()
    } else {
        esc_space_char(s[0]) + enc_space(s.skip(1))
    }
}

/// Escaping one more character extends the rendered text at its end.
proof fn lemma_enc_space_snoc(s: Seq<char>, c: char)
    ensures
        enc_space(s.push(c)) == enc_space(s) + esc_space_char(c),
    decreases s.len(),
{
    if s.len() == 0 {
        assert(s.push(c).len() == 1);
        assert(s.push(c)[0] == c);
        assert(s.push(c).skip(1) =~= Seq::<char>::empty());
        assert(enc_space(Seq::<char>::empty()) == Seq::<char>::empty());
        assert(enc_space(s.push(c)) == esc_space_char(c) + Seq::<char>::empty());
        assert(esc_space_char(c) + Seq::<char>::empty() =~= Seq::<char>::empty()
            + esc_space_char(c));
    } else {
        assert(s.push(c).skip(1) =~= s.skip(1).push(c));
        lemma_enc_space_snoc(s.skip(1), c);
        assert(s.push(c)[0] == s[0]);
        assert(enc_space(s.push(c)) == esc_space_char(s[0]) + (enc_space(s.skip(1))
            + esc_space_char(c)));
        assert(esc_space_char(s[0]) + (enc_space(s.skip(1)) + esc_space_char(c)) =~= (
        esc_space_char(s[0]) + enc_space(s.skip(1))) + esc_space_char(c));
    }
}

/// The marker shown in place of whitespace-only content: the text between
/// quotes with its characters escaped, so the entry stays visible and
/// recognizable.
pub open spec fn space_marker(content: Seq<char>) -> Seq<char> {
    seq!['(', 'w', 'h', 'i', 't', 'e', 's', 'p', 'a', 'c', 'e', ':', ' ', '"'] + enc_space(content)
        + seq!['"', ')']
}

/// One rendered list row: the timestamp between brackets, then the raw
/// content, or its marker when the content is whitespace only.
pub open spec fn line_model(e: SnapModel) -> Seq<char> {
    seq!['['] + e.timestamp + (seq![']', ' ']) + (if all_space(e.content) {
        space_marker(e.content)
    } else {
        e.content
    })
}

/// Appends every character of `s` to the output.
fn append_chars(out: &mut Vec<char>, s: &Vec<char>)
    ensures
        final(out)@ == old(out)@ + s@,
{
    let ghost base = out@;
    let mut i: usize = 0;
    while i < s.len()
        invariant
            i <= s@.len(),
            out@ == base + s@.take(i as int),
        decreases s@.len() - i,
    {
        out.push(s[i]);
        i = i + 1;
        proof {
            assert(out@ =~= base + s@.take(i as int));
        }
    }
    proof {
        assert(s@.take(s@.len() as int) =~= s@);
    }
}

/// True exactly when the character is Unicode whitespace.
fn is_space_exec(c: char) -> (r: bool)
    ensures
        r == is_space_char(c),
{
    c == ' ' || c == '\t' || c == '\n' || c == '\u{b}' || c == '\u{c}' || c == '\r' || c
        == '\u{85}' || c == '\u{a0}' || c == '\u{1680}' || c == '\u{2000}' || c == '\u{2001}' || c
        == '\u{2002}' || c == '\u{2003}' || c == '\u{2004}' || c == '\u{2005}' || c == '\u{2006}'
        || c == '\u{2007}' || c == '\u{2008}' || c == '\u{2009}' || c == '\u{200a}' || c
        == '\u{2028}' || c == '\u{2029}' || c == '\u{202f}' || c == '\u{205f}' || c == '\u{3000}'
}

/// True exactly when every character of the text is whitespace.
fn all_space_exec(s: &Vec<char>) -> (r: bool)
    ensures
        r == all_space(s@),
{
    let mut i: usize = 0;
    while i < s.len()
        invariant
            i <= s@.len(),
            forall|j: int| 0 <= j < i ==> is_space_char(s@[j]),
        decreases s@.len() - i,
    {
        if !is_space_exec(s[i]) {
            return false;
        }
        i = i + 1;
    }
    true
}

/// Appends the rendered form of a whitespace-only text to the output.
#[verifier::rlimit(60)]
fn encode_space_into(out: &mut Vec<char>, s: &Vec<char>)
    ensures
        final(out)@ == old(out)@ + enc_space(s@),
{
    let ghost base = out@;
    let mut i: usize = 0;
    proof {
        assert(s@.take(0) =~= Seq::<char>::empty());
        assert(base + Seq::<char>::empty() =~= base);
        assert(enc_space(s@.take(0)) == Seq::<char>::empty());
    }
    while i < s.len()
        invariant
            i <= s@.len(),
            out@ == base + enc_space(s@.take(i as int)),
        decreases s@.len() - i,
    {
        let c = s[i];
        if c == '\t' {
            out.push('\\');
            out.push('t');
        } else if c == '\n' {
            out.push('\\');
            out.push('n');
        } else if c == '\r' {
            out.push('\\');
            out.push('r');
        } else if c == '\u{b}' {
            out.push('\\');
            out.push('u');
            out.push('{');
            out.push('b');
            out.push('}');
        } else if c == '\u{c}' {
            out.push('\\');
            out.push('u');
            out.push('{');
            out.push('c');
            out.push('}');
        } else if c == '\u{85}' {
            out.push('\\');
            out.push('u');
            out.push('{');
            out.push('8');
            out.push('5');
            out.push('}');
        } else if c == '\u{a0}' {
            out.push('\\');
            out.push('u');
            out.push('{');
            out.push('a');
            out.push('0');
            out.push('}');
        } else if c == '\u{1680}' {
            out.push('\\');
            out.push('u');
            out.push('{');
            out.push('1');
            out.push('6');
            out.push('8');
            out.push('0');
            out.push('}');
        } else if c == '\u{2000}' {
            out.push('\\');
            out.push('u');
            out.push('{');
            out.push('2');
            out.push('0');
            out.push('0');
            out.push('0');
            out.push('}');
        } else if c == '\u{2001}' {
            out.push('\\');
            out.push('u');
            out.push('{');
            out.push('2');
            out.push('0');
            out.push('0');
            out.push('1');
            out.push('}');
        } else if c == '\u{2002}' {
            out.push('\\');
            out.push('u');
            out.push('{');
            out.push('2');
            out.push('0');
            out.push('0');
            out.push('2');
            out.push('}');
        } else if c == '\u{2003}' {
            out.push('\\');
            out.push('u');
            out.push('{');
            out.push('2');
            out.push('0');
            out.push('0');
            out.push('3');
            out.push('}');
        } else if c == '\u{2004}' {
            out.push('\\');
            out.push('u');
            out.push('{');
            out.push('2');
            out.push('0');
            out.push('0');
            out.push('4');
            out.push('}');
        } else if c == '\u{2005}' {
            out.push('\\');
            out.push('u');
            out.push('{');
            out.push('2');
            out.push('0');
            out.push('0');
            out.push('5');
            out.push('}');
        } else if c == '\u{2006}' {
            out.push('\\');
            out.push('u');
            out.push('{');
            out.push('2');
            out.push('0');
            out.push('0');
            out.push('6');
            out.push('}');
        } else if c == '\u{2007}' {
            out.push('\\');
            out.push('u');
            out.push('{');
            out.push('2');
            out.push('0');
            out.push('0');
            out.push('7');
            out.push('}');
        } else if c == '\u{2008}' {
            out.push('\\');
            out.push('u');
            out.push('{');
            out.push('2');
            out.push('0');
            out.push('0');
            out.push('8');
            out.push('}');
        } else if c == '\u{2009}' {
            out.push('\\');
            out.push('u');
            out.push('{');
            out.push('2');
            out.push('0');
            out.push('0');
            out.push('9');
            out.push('}');
        } else if c == '\u{200a}' {
            out.push('\\');
            out.push('u');
            out.push('{');
            out.push('2');
            out.push('0');
            out.push('0');
            out.push('a');
            out.push('}');
        } else if c == '\u{2028}' {
            out.push('\\');
            out.push('u');
            out.push('{');
            out.push('2');
            out.push('0');
            out.push('2');
            out.push('8');
            out.push('}');
        } else if c == '\u{2029}' {
            out.push('\\');
            out.push('u');
            out.push('{');
            out.push('2');
            out.push('0');
            out.push('2');
            out.push('9');
            out.push('}');
        } else if c == '\u{202f}' {
            out.push('\\');
            out.push('u');
            out.push('{');
            out.push('2');
            out.push('0');
            out.push('2');
            out.push('f');
            out.push('}');
        } else if c == '\u{205f}' {
            out.push('\\');
            out.push('u');
            out.push('{');
            out.push('2');
            out.push('0');
            out.push('5');
            out.push('f');
            out.push('}');
        } else if c == '\u{3000}' {
            out.push('\\');
            out.push('u');
            out.push('{');
            out.push('3');
            out.push('0');
            out.push('0');
            out.push('0');
            out.push('}');
        } else {
            out.push(c);
        }
        proof {
            assert(out@ =~= base + enc_space(s@.take(i as int)) + esc_space_char(s@[i as int]));
            assert(s@.take(i + 1) =~= s@.take(i as int).push(s@[i as int]));
            lemma_enc_space_snoc(s@.take(i as int), s@[i as int]);
            assert(out@ =~= base + enc_space(s@.take(i + 1)));
        }
        i = i + 1;
    }
    proof {
        assert(s@.take(s@.len() as int) =~= s@);
    }
}

/// Renders one capture as the text of its list row.
pub fn display_line(e: &Snapshot) -> (r: Vec<char>)
    ensures
        r@ == line_model(e@),
{
    let mut out: Vec<char> = Vec::new();
    out.push('[');
    append_chars(&mut out, &e.timestamp);
    out.push(']');
    out.push(' ');
    let ghost head = seq!['['] + e@.timestamp + (seq![']', ' ']);
    proof {
        assert(out@ =~= head);
    }
    if all_space_exec(&e.content) {
        out.push('(');
        out.push('w');
        out.push('h');
        out.push('i');
        out.push('t');
        out.push('e');
        out.push('s');
        out.push('p');
        out.push('a');
        out.push('c');
        out.push('e');
        out.push(':');
        out.push(' ');
        out.push('"');
        encode_space_into(&mut out, &e.content);
        out.push('"');
        out.push(')');
        proof {
            assert(out@ =~= head + space_marker(e@.content));
        }
    } else {
        append_chars(&mut out, &e.content);
    }
    proof {
        assert(out@ =~= line_model(e@));
    }
    out
}

} // verus!
