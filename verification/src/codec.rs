use vstd::prelude::*;
use crate::history::History;
use crate::snapshot::{SnapModel, Snapshot};

verus! {

// The history file holds a JSON array of objects, one per capture, each
// with a "timestamp" and a "content" string field:
//
//     [
//     {"timestamp":"...","content":"..."},
//     {"timestamp":"...","content":"..."}
//     ]
//
// The writer and the reader below are each specified against spec-level
// grammar functions, and the reader is proved to accept exactly what the
// writer produced, returning the original sequence of captures. The
// format is this library's own: text in any other shape, including other
// JSON layouts or a file written by another serializer, is not
// well-formed for this reader, and a history loaded from it degrades to
// empty under the corrupt-file rule.

/// The escape sequence of one character inside a quoted string.
pub open spec fn esc_char(c: char) -> Seq<char> {
    if c == '"' {
        seq!['\\', '"']
    } else if c == '\\' {
        seq!['\\', '\\']
    } else if c == '\n' {
        seq!['\\', 'n']
    } else if c == '\r' {
        seq!['\\', 'r']
    } else if c == '\t' {
        seq!['\\', 't']
    } else {
        seq![c]
    }
}

/// The body of a quoted string: each character escaped.
pub open spec fn enc_str(s: Seq<char>) -> Seq<char>
    decreases s.len(),
{
    if s.len() == 0 {
        Seq::empty()
    } else {
        esc_char(s[0]) + enc_str(s.skip(1))
    }
}

/// The opening of an entry object, up to and including the quote that
/// starts the timestamp string.
pub open spec fn lit_open() -> Seq<char> {
    seq!['{', '"', 't', 'i', 'm', 'e', 's', 't', 'a', 'm', 'p', '"', ':', '"']
}

/// Between the timestamp's closing quote and the content's opening quote.
pub open spec fn lit_mid() -> Seq<char> {
    seq![',', '"', 'c', 'o', 'n', 't', 'e', 'n', 't', '"', ':', '"']
}

/// After the content's closing quote.
pub open spec fn lit_close() -> Seq<char> {
    seq!['}']
}

/// One serialized entry object.
pub open spec fn enc_entry(e: SnapModel) -> Seq<char> {
    lit_open() + (enc_str(e.timestamp) + seq!['"'] + (lit_mid() + (enc_str(e.content) + seq!['"']
        + (lit_close()))))
}

/// The serialized entries, separated by a comma and a line break.
pub open spec fn enc_entries(h: Seq<SnapModel>) -> Seq<char>
    decreases h.len(),
{
    if h.len() == 0 {
        Seq::empty()
    } else if h.len() == 1 {
        enc_entry(h[0])
    } else {
        enc_entry(h[0]) + (seq![',', '\n'] + enc_entries(h.skip(1)))
    }
}

/// The whole history file: an empty array, or the entries one per line
/// between the brackets.
pub open spec fn enc_history(h: Seq<SnapModel>) -> Seq<char> {
    if h.len() == 0 {
        seq!['[', ']']
    } else {
        seq!['[', '\n'] + (enc_entries(h) + seq!['\n', ']'])
    }
}

/// The character named by an escape sequence, if any.
pub open spec fn unesc(c: char) -> Option<char> {
    if c == '"' {
        Some('"')
    } else if c == '\\' {
        Some('\\')
    } else if c == 'n' {
        Some('\n')
    } else if c == 'r' {
        Some('\r')
    } else if c == 't' {
        Some('\t')
    } else {
        None
    }
}

/// Consumes the given literal from the front of the text.
pub open spec fn expect(t: Seq<char>, lit: Seq<char>) -> Option<Seq<char>> {
    if lit.len() <= t.len() && t.take(lit.len() as int) == lit {
        Some(t.skip(lit.len() as int))
    } else {
        None
    }
}

/// Reads a quoted string body up to and including its closing quote,
/// undoing the escapes; yields the string and the remaining text.
pub open spec fn parse_str(t: Seq<char>) -> Option<(Seq<char>, Seq<char>)>
    decreases t.len(),
{
    if t.len() == 0 {
        None
    } else if t[0] == '"' {
        Some((Seq::empty(), t.skip(1)))
    } else if t[0] == '\\' {
        if t.len() < 2 {
            None
        } else {
            match unesc(t[1]) {
                None => None,
                Some(c) => match parse_str(t.skip(2)) {
                    None => None,
                    Some(p) => Some((seq![c] + p.0, p.1)),
                },
            }
        }
    } else {
        match parse_str(t.skip(1)) {
            None => None,
            Some(p) => Some((seq![t[0]] + p.0, p.1)),
        }
    }
}

/// Reads one entry object; yields the capture and the remaining text.
pub open spec fn parse_entry(t: Seq<char>) -> Option<(SnapModel, Seq<char>)> {
    match expect(t, lit_open()) {
        None => None,
        Some(r1) => match parse_str(r1) {
            None => None,
            Some(p1) => match expect(p1.1, lit_mid()) {
                None => None,
                Some(r3) => match parse_str(r3) {
                    None => None,
                    Some(p2) => match expect(p2.1, lit_close()) {
                        None => None,
                        Some(r5) => Some(
                            ((SnapModel { timestamp: p1.0, content: p2.0 }), r5),
                        ),
                    },
                },
            },
        },
    }
}

/// A successful string read consumes at least its closing quote.
pub proof fn lemma_parse_str_shrinks(t: Seq<char>)
    ensures
        parse_str(t) matches Some(p) ==> p.1.len() < t.len(),
    decreases t.len(),
{
    if t.len() == 0 {
    } else if t[0] == '"' {
    } else if t[0] == '\\' {
        if t.len() >= 2 {
            lemma_parse_str_shrinks(t.skip(2));
        }
    } else {
        lemma_parse_str_shrinks(t.skip(1));
    }
}

/// A successful entry read consumes at least one character.
pub proof fn lemma_parse_entry_shrinks(t: Seq<char>)
    ensures
        parse_entry(t) matches Some(p) ==> p.1.len() < t.len(),
{
    if expect(t, lit_open()) is Some {
        let r1 = expect(t, lit_open())->Some_0;
        assert(r1.len() < t.len());
        lemma_parse_str_shrinks(r1);
        if parse_str(r1) is Some {
            let p1 = parse_str(r1)->Some_0;
            if expect(p1.1, lit_mid()) is Some {
                let r3 = expect(p1.1, lit_mid())->Some_0;
                lemma_parse_str_shrinks(r3);
                if parse_str(r3) is Some {
                    let p2 = parse_str(r3)->Some_0;
                    if expect(p2.1, lit_close()) is Some {
                        let r5 = expect(p2.1, lit_close())->Some_0;
                        assert(r5.len() < t.len());
                    }
                }
            }
        }
    }
}

/// Reads a non-empty run of entries separated by a comma and a line break;
/// yields the captures and the remaining text.
pub open spec fn parse_entries(t: Seq<char>) -> Option<(Seq<SnapModel>, Seq<char>)>
    decreases t.len(),
{
    match parse_entry(t) {
        None => None,
        Some(p) => if p.1.len() >= 2 && p.1[0] == ',' && p.1[1] == '\n' {
            proof {
                lemma_parse_entry_shrinks(t);
            }
            match parse_entries(p.1.skip(2)) {
                None => None,
                Some(q) => Some((seq![p.0] + q.0, q.1)),
            }
        } else {
            Some((seq![p.0], p.1))
        },
    }
}

/// Reads a whole history file; yields the sequence of captures, oldest
/// first, or nothing when the text is not well-formed.
pub open spec fn parse_history(t: Seq<char>) -> Option<Seq<SnapModel>> {
    if t == seq!['[', ']'] {
        Some(Seq::empty())
    } else {
        match expect(t, seq!['[', '\n']) {
            None => None,
            Some(r) => match parse_entries(r) {
                None => None,
                Some(p) => if p.1 == seq!['\n', ']'] {
                    Some(p.0)
                } else {
                    None
                },
            },
        }
    }
}

/// Consuming a literal that the text begins with yields exactly the rest.
proof fn lemma_expect_roundtrip(lit: Seq<char>, rest: Seq<char>)
    ensures
        expect(lit + rest, lit) == Some(rest),
{
    let t = lit + rest;
    assert(t.take(lit.len() as int) =~= lit);
    assert(t.skip(lit.len() as int) =~= rest);
}

/// Reading back an escaped string consumes it with its closing quote and
/// yields the original characters.
proof fn lemma_parse_str_roundtrip(s: Seq<char>, rest: Seq<char>)
    ensures
        parse_str(enc_str(s) + seq!['"'] + rest) == Some((s, rest)),
    decreases s.len(),
{
    let t = enc_str(s) + seq!['"'] + rest;
    if s.len() == 0 {
        assert(enc_str(s).len() == 0);
        assert(t =~= seq!['"'] + rest);
        assert(t[0] == '"');
        assert(t.skip(1) =~= rest);
        assert(s =~= Seq::<char>::empty());
    } else {
        let c = s[0];
        let s2 = s.skip(1);
        lemma_parse_str_roundtrip(s2, rest);
        let t2 = enc_str(s2) + seq!['"'] + rest;
        assert(enc_str(s) == esc_char(c) + enc_str(s2));
        assert(seq![c] + s2 =~= s);
        if c == '"' || c == '\\' || c == '\n' || c == '\r' || c == '\t' {
            let x = esc_char(c)[1];
            assert(esc_char(c).len() == 2 && esc_char(c)[0] == '\\');
            assert(t.len() >= 2);
            assert(t[0] == '\\');
            assert(t[1] == x);
            assert(unesc(x) == Some(c));
            assert(t.skip(2) =~= t2);
            assert(parse_str(t) == Some((seq![c] + s2, rest)));
        } else {
            assert(esc_char(c) == seq![c]);
            assert(t[0] == c);
            assert(c != '"' && c != '\\');
            assert(t.skip(1) =~= t2);
            assert(parse_str(t) == Some((seq![c] + s2, rest)));
        }
    }
}

/// Reading back a serialized entry consumes it whole and yields the
/// original capture.
proof fn lemma_parse_entry_roundtrip(e: SnapModel, rest: Seq<char>)
    ensures
        parse_entry(enc_entry(e) + rest) == Some((e, rest)),
{
    let t = enc_entry(e) + rest;
    let x4 = lit_close() + rest;
    let x3 = enc_str(e.content) + seq!['"'] + x4;
    let x2 = lit_mid() + x3;
    let x1 = enc_str(e.timestamp) + seq!['"'] + x2;
    assert(t =~= lit_open() + x1);
    lemma_expect_roundtrip(lit_open(), x1);
    assert(expect(t, lit_open()) == Some(x1));
    lemma_parse_str_roundtrip(e.timestamp, x2);
    assert(parse_str(x1) == Some((e.timestamp, x2)));
    lemma_expect_roundtrip(lit_mid(), x3);
    lemma_parse_str_roundtrip(e.content, x4);
    lemma_expect_roundtrip(lit_close(), rest);
    assert(parse_entry(t) == Some(((SnapModel { timestamp: e.timestamp, content: e.content }), rest)));
    assert((SnapModel { timestamp: e.timestamp, content: e.content }) == e);
}

/// Reading back serialized entries, followed by anything that does not
/// begin like another entry separator, yields the original captures.
proof fn lemma_parse_entries_roundtrip(h: Seq<SnapModel>, rest: Seq<char>)
    requires
        h.len() >= 1,
        !(rest.len() >= 2 && rest[0] == ',' && rest[1] == '\n'),
    ensures
        parse_entries(enc_entries(h) + rest) == Some((h, rest)),
    decreases h.len(),
{
    let t = enc_entries(h) + rest;
    if h.len() == 1 {
        assert(enc_entries(h) == enc_entry(h[0]));
        lemma_parse_entry_roundtrip(h[0], rest);
        assert(parse_entry(t) == Some((h[0], rest)));
        assert(seq![h[0]] =~= h);
    } else {
        let tail = enc_entries(h.skip(1)) + rest;
        let r = seq![',', '\n'] + tail;
        assert(enc_entries(h) == enc_entry(h[0]) + (seq![',', '\n'] + enc_entries(h.skip(1))));
        assert(t =~= enc_entry(h[0]) + r);
        lemma_parse_entry_roundtrip(h[0], r);
        assert(parse_entry(t) == Some((h[0], r)));
        assert(r.len() >= 2 && r[0] == ',' && r[1] == '\n');
        assert(r.skip(2) =~= tail);
        lemma_parse_entries_roundtrip(h.skip(1), rest);
        assert(parse_entries(r.skip(2)) == Some((h.skip(1), rest)));
        assert(seq![h[0]] + h.skip(1) =~= h);
    }
}

/// A serialized entry is never shorter than its fixed punctuation.
proof fn lemma_enc_entries_nonempty(h: Seq<SnapModel>)
    requires
        h.len() >= 1,
    ensures
        enc_entries(h).len() >= lit_open().len(),
{
    assert(enc_entry(h[0]).len() >= lit_open().len());
}

/// Round-trip persistence: reading back a written history file yields
/// exactly the sequence that was written, field for field.
pub proof fn lemma_round_trip(h: Seq<SnapModel>)
    ensures
        parse_history(enc_history(h)) == Some(h),
{
    let t = enc_history(h);
    if h.len() == 0 {
        assert(t == seq!['[', ']']);
        assert(parse_history(t) == Some(Seq::<SnapModel>::empty()));
        assert(Seq::<SnapModel>::empty() =~= h);
    } else {
        let rest = seq!['\n', ']'];
        let body = enc_entries(h) + rest;
        assert(t =~= seq!['[', '\n'] + body);
        lemma_enc_entries_nonempty(h);
        assert(t.len() > 2);
        assert(t != seq!['[', ']']);
        lemma_expect_roundtrip(seq!['[', '\n'], body);
        assert(expect(t, seq!['[', '\n']) == Some(body));
        assert(rest[0] == '\n');
        lemma_parse_entries_roundtrip(h, rest);
        assert(parse_entries(body) == Some((h, rest)));
    }
}


/// Escaping one more character extends the escaped body at its end.
proof fn lemma_enc_str_snoc(s: Seq<char>, c: char)
    ensures
        enc_str(s.push(c)) == enc_str(s) + esc_char(c),
    decreases s.len(),
{
    if s.len() == 0 {
        assert(s.push(c).len() == 1);
        assert(s.push(c)[0] == c);
        assert(s.push(c).skip(1) =~= Seq::<char>::empty());
        assert(enc_str(Seq::<char>::empty()) == Seq::<char>::empty());
        assert(enc_str(s.push(c)) == esc_char(c) + Seq::<char>::empty());
        assert(esc_char(c) + Seq::<char>::empty() =~= Seq::<char>::empty() + esc_char(c));
    } else {
        assert(s.push(c).skip(1) =~= s.skip(1).push(c));
        lemma_enc_str_snoc(s.skip(1), c);
        assert(s.push(c)[0] == s[0]);
        assert(enc_str(s.push(c)) == esc_char(s[0]) + (enc_str(s.skip(1)) + esc_char(c)));
        assert(esc_char(s[0]) + (enc_str(s.skip(1)) + esc_char(c)) =~= (esc_char(s[0]) + enc_str(
            s.skip(1),
        )) + esc_char(c));
    }
}

/// Appends the escaped body of one string to the output.
fn encode_str_into(out: &mut Vec<char>, s: &Vec<char>)
    ensures
        final(out)@ == old(out)@ + enc_str(s@),
{
    let ghost base = out@;
    let mut i: usize = 0;
    proof {
        assert(s@.take(0) =~= Seq::<char>::empty());
        assert(base + Seq::<char>::empty() =~= base);
        assert(enc_str(s@.take(0)) == Seq::<char>::empty());
    }
    while i < s.len()
        invariant
            i <= s@.len(),
            out@ == base + enc_str(s@.take(i as int)),
        decreases s@.len() - i,
    {
        let c = s[i];
        if c == '"' {
            out.push('\\');
            out.push('"');
        } else if c == '\\' {
            out.push('\\');
            out.push('\\');
        } else if c == '\n' {
            out.push('\\');
            out.push('n');
        } else if c == '\r' {
            out.push('\\');
            out.push('r');
        } else if c == '\t' {
            out.push('\\');
            out.push('t');
        } else {
            out.push(c);
        }
        proof {
            assert(out@ =~= base + enc_str(s@.take(i as int)) + esc_char(s@[i as int]));
            assert(s@.take(i + 1) =~= s@.take(i as int).push(s@[i as int]));
            lemma_enc_str_snoc(s@.take(i as int), s@[i as int]);
            assert(out@ =~= base + enc_str(s@.take(i + 1)));
        }
        i = i + 1;
    }
    proof {
        assert(s@.take(s@.len() as int) =~= s@);
    }
}

/// Appends the fixed opening of an entry object to the output.
fn push_open(out: &mut Vec<char>)
    ensures
        final(out)@ == old(out)@ + lit_open(),
{
    out.push('{');
    out.push('"');
    out.push('t');
    out.push('i');
    out.push('m');
    out.push('e');
    out.push('s');
    out.push('t');
    out.push('a');
    out.push('m');
    out.push('p');
    out.push('"');
    out.push(':');
    out.push('"');
    proof {
        assert(out@ =~= old(out)@ + lit_open());
    }
}

/// Appends the fixed middle punctuation of an entry object to the output.
fn push_mid(out: &mut Vec<char>)
    ensures
        final(out)@ == old(out)@ + lit_mid(),
{
    out.push(',');
    out.push('"');
    out.push('c');
    out.push('o');
    out.push('n');
    out.push('t');
    out.push('e');
    out.push('n');
    out.push('t');
    out.push('"');
    out.push(':');
    out.push('"');
    proof {
        assert(out@ =~= old(out)@ + lit_mid());
    }
}

/// Appends one serialized entry object to the output.
fn encode_entry_into(out: &mut Vec<char>, e: &Snapshot)
    ensures
        final(out)@ == old(out)@ + enc_entry(e@),
{
    let ghost base = out@;
    push_open(out);
    encode_str_into(out, &e.timestamp);
    out.push('"');
    push_mid(out);
    encode_str_into(out, &e.content);
    out.push('"');
    out.push('}');
    proof {
        assert(out@ =~= base + enc_entry(e@));
    }
}

/// Serializes a whole history to the text of its on-disk file.
pub fn encode_history(entries: &Vec<Snapshot>) -> (out: Vec<char>)
    ensures
        out@ == enc_history(entries@.map_values(|s: Snapshot| s@)),
{
    let ghost h = entries@.map_values(|s: Snapshot| s@);
    let n = entries.len();
    let mut out: Vec<char> = Vec::new();
    if n == 0 {
        out.push('[');
        out.push(']');
        proof {
            assert(out@ =~= seq!['[', ']']);
        }
        return out;
    }
    out.push('[');
    out.push('\n');
    proof {
        assert(out@ =~= seq!['[', '\n']);
    }
    let mut i: usize = 0;
    proof {
        assert(h.skip(0) =~= h);
    }
    while i < n
        invariant
            1 <= n == entries@.len(),
            h == entries@.map_values(|s: Snapshot| s@),
            i <= n,
            out@ + (enc_entries(h.skip(i as int)) + seq!['\n', ']']) == enc_history(h),
        decreases n - i,
    {
        let ghost before = out@;
        encode_entry_into(&mut out, &entries[i]);
        proof {
            assert(entries@[i as int]@ == h[i as int]);
            assert(h.skip(i as int)[0] == h[i as int]);
        }
        if i + 1 < n {
            out.push(',');
            out.push('\n');
            proof {
                assert(h.skip(i as int).len() >= 2);
                assert(h.skip(i as int).skip(1) =~= h.skip(i + 1));
                assert(enc_entries(h.skip(i as int)) == enc_entry(h[i as int]) + (seq![',', '\n']
                    + enc_entries(h.skip(i + 1))));
                assert(out@ =~= before + enc_entry(h[i as int]) + seq![',', '\n']);
                assert(out@ + (enc_entries(h.skip(i + 1)) + seq!['\n', ']']) =~= before + (
                enc_entries(h.skip(i as int)) + seq!['\n', ']']));
            }
        } else {
            proof {
                assert(h.skip(i as int).len() == 1);
                assert(enc_entries(h.skip(i as int)) == enc_entry(h[i as int]));
                assert(h.skip(i + 1) =~= Seq::<SnapModel>::empty());
                assert(enc_entries(h.skip(i + 1)) == Seq::<char>::empty());
                assert(out@ =~= before + enc_entry(h[i as int]));
                assert(out@ + (enc_entries(h.skip(i + 1)) + seq!['\n', ']']) =~= before + (
                enc_entries(h.skip(i as int)) + seq!['\n', ']']));
            }
        }
        i = i + 1;
    }
    out.push('\n');
    out.push(']');
    proof {
        assert(h.skip(n as int) =~= Seq::<SnapModel>::empty());
        assert(out@ =~= enc_history(h));
    }
    out
}


/// The entry-opening literal as a character vector.
fn lit_open_vec() -> (v: Vec<char>)
    ensures
        v@ == lit_open(),
{
    let mut v: Vec<char> = Vec::new();
    v.push('{');
    v.push('"');
    v.push('t');
    v.push('i');
    v.push('m');
    v.push('e');
    v.push('s');
    v.push('t');
    v.push('a');
    v.push('m');
    v.push('p');
    v.push('"');
    v.push(':');
    v.push('"');
    proof {
        assert(v@ =~= lit_open());
    }
    v
}

/// The entry-middle literal as a character vector.
fn lit_mid_vec() -> (v: Vec<char>)
    ensures
        v@ == lit_mid(),
{
    let mut v: Vec<char> = Vec::new();
    v.push(',');
    v.push('"');
    v.push('c');
    v.push('o');
    v.push('n');
    v.push('t');
    v.push('e');
    v.push('n');
    v.push('t');
    v.push('"');
    v.push(':');
    v.push('"');
    proof {
        assert(v@ =~= lit_mid());
    }
    v
}

/// Consumes the given literal at position `start`; yields the position
/// just past it.
fn expect_lit(text: &Vec<char>, start: usize, lit: &Vec<char>) -> (r: Option<usize>)
    requires
        start <= text@.len(),
    ensures
        match r {
            Some(j) => expect(text@.skip(start as int), lit@) == Some(text@.skip(j as int))
                && j == start + lit@.len() && j <= text@.len(),
            None => expect(text@.skip(start as int), lit@) is None,
        },
{
    let n = text.len();
    if lit.len() > n - start {
        proof {
            assert(text@.skip(start as int).len() == n - start);
        }
        return None;
    }
    let mut j: usize = 0;
    while j < lit.len()
        invariant
            start <= n == text@.len(),
            j <= lit@.len(),
            lit@.len() <= n - start,
            forall|k: int| 0 <= k < j ==> text@[start + k] == lit@[k],
        decreases lit@.len() - j,
    {
        if text[start + j] != lit[j] {
            proof {
                let tskip = text@.skip(start as int);
                assert(tskip.take(lit@.len() as int)[j as int] == text@[start + j]);
                assert(tskip.take(lit@.len() as int) != lit@);
            }
            return None;
        }
        j = j + 1;
    }
    proof {
        let tskip = text@.skip(start as int);
        assert(tskip.take(lit@.len() as int) =~= lit@);
        assert(tskip.skip(lit@.len() as int) =~= text@.skip(start + lit@.len()));
    }
    Some(start + lit.len())
}

/// Reads a quoted string body starting at `start`, undoing the escapes;
/// yields the characters and the position just past the closing quote.
fn parse_string_at(text: &Vec<char>, start: usize) -> (r: Option<(Vec<char>, usize)>)
    requires
        start <= text@.len(),
    ensures
        match r {
            Some(p) => parse_str(text@.skip(start as int)) == Some(
                (p.0@, text@.skip(p.1 as int)),
            ) && start < p.1 <= text@.len(),
            None => parse_str(text@.skip(start as int)) is None,
        },
{
    let n = text.len();
    let mut out: Vec<char> = Vec::new();
    let mut p = start;
    proof {
        if parse_str(text@.skip(start as int)) is Some {
            let q = parse_str(text@.skip(start as int))->Some_0;
            assert(Seq::<char>::empty() + q.0 =~= q.0);
        }
    }
    loop
        invariant
            start <= p <= n,
            n == text@.len(),
            ({
                let whole = parse_str(text@.skip(start as int));
                match parse_str(text@.skip(p as int)) {
                    Some((s2, r2)) => whole == Some((out@ + s2, r2)),
                    None => whole is None,
                }
            }),
        decreases n - p,
    {
        if p == n {
            proof {
                assert(text@.skip(p as int).len() == 0);
            }
            return None;
        }
        let c = text[p];
        if c == '"' {
            proof {
                assert(text@.skip(p as int)[0] == '"');
                assert(text@.skip(p as int).skip(1) =~= text@.skip(p + 1));
                assert(out@ + Seq::<char>::empty() =~= out@);
            }
            return Some((out, p + 1));
        } else if c == '\\' {
            if n - p == 1 {
                proof {
                    assert(text@.skip(p as int).len() == 1);
                    assert(text@.skip(p as int)[0] == '\\');
                }
                return None;
            }
            let d = text[p + 1];
            proof {
                assert(text@.skip(p as int).len() >= 2);
                assert(text@.skip(p as int)[0] == '\\');
                assert(text@.skip(p as int)[1] == d);
            }
            if d == '"' || d == '\\' || d == 'n' || d == 'r' || d == 't' {
                let u = if d == '"' {
                    '"'
                } else if d == '\\' {
                    '\\'
                } else if d == 'n' {
                    '\n'
                } else if d == 'r' {
                    '\r'
                } else {
                    '\t'
                };
                proof {
                    assert(unesc(d) == Some(u));
                    assert(text@.skip(p as int).skip(2) =~= text@.skip(p + 2));
                    if parse_str(text@.skip(p + 2)) is Some {
                        let q = parse_str(text@.skip(p + 2))->Some_0;
                        assert(parse_str(text@.skip(p as int)) == Some((seq![u] + q.0, q.1)));
                        assert(out@.push(u) + q.0 =~= out@ + (seq![u] + q.0));
                    }
                }
                out.push(u);
                p = p + 2;
            } else {
                proof {
                    assert(unesc(d) is None);
                }
                return None;
            }
        } else {
            proof {
                assert(text@.skip(p as int)[0] == c);
                assert(text@.skip(p as int).skip(1) =~= text@.skip(p + 1));
                if parse_str(text@.skip(p + 1)) is Some {
                    let q = parse_str(text@.skip(p + 1))->Some_0;
                    assert(parse_str(text@.skip(p as int)) == Some((seq![c] + q.0, q.1)));
                    assert(out@.push(c) + q.0 =~= out@ + (seq![c] + q.0));
                }
            }
            out.push(c);
            p = p + 1;
        }
    }
}

/// Reads one entry object starting at `start`; yields the capture and the
/// position just past its closing brace.
fn parse_entry_at(text: &Vec<char>, start: usize) -> (r: Option<(Snapshot, usize)>)
    requires
        start <= text@.len(),
    ensures
        match r {
            Some(p) => parse_entry(text@.skip(start as int)) == Some(
                (p.0@, text@.skip(p.1 as int)),
            ) && start < p.1 <= text@.len(),
            None => parse_entry(text@.skip(start as int)) is None,
        },
{
    let n = text.len();
    let open = lit_open_vec();
    let j1 = match expect_lit(text, start, &open) {
        Some(j) => j,
        None => {
            return None;
        },
    };
    let (ts, j2) = match parse_string_at(text, j1) {
        Some(p) => p,
        None => {
            return None;
        },
    };
    let mid = lit_mid_vec();
    let j3 = match expect_lit(text, j2, &mid) {
        Some(j) => j,
        None => {
            return None;
        },
    };
    let (ct, j4) = match parse_string_at(text, j3) {
        Some(p) => p,
        None => {
            return None;
        },
    };
    if j4 < n && text[j4] == '}' {
        proof {
            let t4 = text@.skip(j4 as int);
            assert(t4.len() >= 1);
            assert(t4.take(1)[0] == text@[j4 as int]);
            assert(t4.take(1) =~= lit_close());
            assert(t4.skip(1) =~= text@.skip(j4 + 1));
            assert(expect(t4, lit_close()) == Some(text@.skip(j4 + 1)));
        }
        Some((Snapshot { timestamp: ts, content: ct }, j4 + 1))
    } else {
        proof {
            let t4 = text@.skip(j4 as int);
            if j4 < n {
                assert(t4.take(1)[0] == text@[j4 as int]);
                assert(t4.take(1) != lit_close());
            } else {
                assert(t4.len() == 0);
            }
            assert(expect(t4, lit_close()) is None);
        }
        None
    }
}

/// Reads a non-empty separated run of entry objects starting at `start`;
/// yields the captures and the position just past the last one.
fn parse_entries_at(text: &Vec<char>, start: usize) -> (r: Option<(Vec<Snapshot>, usize)>)
    requires
        start <= text@.len(),
    ensures
        match r {
            Some(p) => parse_entries(text@.skip(start as int)) == Some(
                (p.0@.map_values(|s: Snapshot| s@), text@.skip(p.1 as int)),
            ) && p.1 <= text@.len(),
            None => parse_entries(text@.skip(start as int)) is None,
        },
{
    let n = text.len();
    let mut acc: Vec<Snapshot> = Vec::new();
    let mut p = start;
    proof {
        if parse_entries(text@.skip(start as int)) is Some {
            let q = parse_entries(text@.skip(start as int))->Some_0;
            assert(acc@.map_values(|s: Snapshot| s@) + q.0 =~= q.0);
        }
    }
    loop
        invariant
            start <= p <= n,
            n == text@.len(),
            ({
                let whole = parse_entries(text@.skip(start as int));
                match parse_entries(text@.skip(p as int)) {
                    Some((es, r2)) => whole == Some((acc@.map_values(|s: Snapshot| s@) + es, r2)),
                    None => whole is None,
                }
            }),
        decreases n - p,
    {
        match parse_entry_at(text, p) {
            None => {
                return None;
            },
            Some((e, j)) => {
                proof {
                    lemma_parse_entry_shrinks(text@.skip(p as int));
                }
                let sep = if n - j >= 2 {
                    text[j] == ',' && text[j + 1] == '\n'
                } else {
                    false
                };
                proof {
                    let rest = text@.skip(j as int);
                    assert(rest.len() == n - j);
                    if n - j >= 2 {
                        assert(rest[0] == text@[j as int]);
                        assert(rest[1] == text@[j + 1]);
                    }
                    assert(sep == (rest.len() >= 2 && rest[0] == ',' && rest[1] == '\n'));
                }
                let ghost before = acc@;
                acc.push(e);
                proof {
                    assert(acc@.map_values(|s: Snapshot| s@) =~= before.map_values(
                        |s: Snapshot| s@,
                    ).push(e@));
                }
                if sep {
                    proof {
                        let rest = text@.skip(j as int);
                        assert(rest.skip(2) =~= text@.skip(j + 2));
                        if parse_entries(text@.skip(j + 2)) is Some {
                            let q = parse_entries(text@.skip(j + 2))->Some_0;
                            assert(parse_entries(text@.skip(p as int)) == Some(
                                (seq![e@] + q.0, q.1),
                            ));
                            assert(acc@.map_values(|s: Snapshot| s@) + q.0 =~= before.map_values(
                                |s: Snapshot| s@,
                            ) + (seq![e@] + q.0));
                        }
                    }
                    p = j + 2;
                } else {
                    proof {
                        assert(parse_entries(text@.skip(p as int)) == Some(
                            (seq![e@], text@.skip(j as int)),
                        ));
                        assert(acc@.map_values(|s: Snapshot| s@) =~= before.map_values(
                            |s: Snapshot| s@,
                        ) + seq![e@]);
                    }
                    return Some((acc, j));
                }
            },
        }
    }
}

/// Deserializes the text of a history file; yields the captures, oldest
/// first, or nothing when the text is not well-formed.
pub fn decode_history(text: &Vec<char>) -> (r: Option<Vec<Snapshot>>)
    ensures
        match r {
            Some(v) => parse_history(text@) == Some(v@.map_values(|s: Snapshot| s@)),
            None => parse_history(text@) is None,
        },
{
    let n = text.len();
    if n == 2 && text[0] == '[' && text[1] == ']' {
        proof {
            assert(text@ =~= seq!['[', ']']);
        }
        let empty: Vec<Snapshot> = Vec::new();
        proof {
            assert(empty@.map_values(|s: Snapshot| s@) =~= Seq::<SnapModel>::empty());
        }
        return Some(empty);
    }
    proof {
        if n == 2 {
            assert(text@[0] != '[' || text@[1] != ']');
            assert(text@ != seq!['[', ']']);
        } else {
            assert(text@.len() != 2);
        }
        assert(text@.skip(0) =~= text@);
    }
    if n >= 2 && text[0] == '[' && text[1] == '\n' {
        proof {
            assert(text@.take(2)[0] == '[');
            assert(text@.take(2)[1] == '\n');
            assert(text@.take(2) =~= seq!['[', '\n']);
            assert(expect(text@, seq!['[', '\n']) == Some(text@.skip(2)));
        }
        match parse_entries_at(text, 2) {
            None => {
                return None;
            },
            Some((es, p)) => {
                if n - p == 2 && text[p] == '\n' && text[p + 1] == ']' {
                    proof {
                        let rest = text@.skip(p as int);
                        assert(rest.len() == 2);
                        assert(rest[0] == '\n' && rest[1] == ']');
                        assert(rest =~= seq!['\n', ']']);
                    }
                    return Some(es);
                } else {
                    proof {
                        let rest = text@.skip(p as int);
                        if n - p == 2 {
                            assert(rest[0] != '\n' || rest[1] != ']');
                            assert(rest != seq!['\n', ']']);
                        } else {
                            assert(rest.len() != 2);
                        }
                    }
                    return None;
                }
            },
        }
    } else {
        proof {
            if n >= 2 {
                assert(text@.take(2)[0] == text@[0]);
                assert(text@.take(2)[1] == text@[1]);
                assert(text@.take(2) != seq!['[', '\n']);
            } else {
                assert(text@.len() < 2);
            }
            assert(expect(text@, seq!['[', '\n']) is None);
        }
        return None;
    }
}

/// Serializes a history to the text of its on-disk file.
pub fn history_to_text(h: &History) -> (out: Vec<char>)
    ensures
        out@ == enc_history(h@),
{
    encode_history(&h.entries)
}

/// Rebuilds a history from the text of its on-disk file: a well-formed
/// file yields the captures it holds (trimmed to the retention bound, the
/// oldest evicted first); a missing or corrupt one degrades to an empty
/// history rather than an error.
pub fn history_from_text(text: &Vec<char>, max_history: usize) -> (r: History)
    requires
        max_history >= 1,
    ensures
        r.wf(),
        r.max_history == max_history,
        match parse_history(text@) {
            Some(es) => (es.len() <= max_history ==> r@ == es) && (es.len() > max_history
                ==> r@ == es.skip(es.len() - max_history)),
            None => r@ == Seq::<SnapModel>::empty(),
        },
{
    match decode_history(text) {
        Some(v) => History::from_entries(v, max_history),
        None => History::new(max_history),
    }
}

} // verus!
