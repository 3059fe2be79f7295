use vstd::prelude::*;

use crate::bytes::{append, lemma_join_no_empty_piece, NEWLINE};
use crate::control::{
    field_line, lemma_parse_field_line, lemma_stanza_round_trip, parse_stanza_spec, serialize,
    valid_field, DecodeError,
};
use crate::search::{first_occurrence, find, lemma_first_occurrence_unique, occurs_at};

verus! {

/// `s` without its leading newlines.
pub open spec fn skip_newlines(s: Seq<u8>) -> Seq<u8>
    decreases s.len(),
{
    if s.len() > 0 && s[0] == NEWLINE {
        skip_newlines(s.drop_first())
    } else {
        s
    }
}

/// The first control stanza that `s` holds whole, and what follows it: leading
/// blank lines are passed over, and the stanza ends at the first blank line.
pub open spec fn control_frame(s: Seq<u8>) -> Option<(Seq<u8>, Seq<u8>)> {
    let t = skip_newlines(s);
    if exists|p: int| first_occurrence(t, seq![NEWLINE, NEWLINE], p) {
        let p = choose|p: int| first_occurrence(t, seq![NEWLINE, NEWLINE], p);
        Some((t.subrange(0, p), t.subrange(p + 2, t.len() as int)))
    } else {
        None
    }
}

/// The last stanza of a stream that has ended: what is left, less the newline
/// that ends its last line.
pub open spec fn last_control_frame(s: Seq<u8>) -> Option<Seq<u8>> {
    let t = skip_newlines(s);
    if t.len() == 0 {
        None
    } else if t.last() == NEWLINE {
        Some(t.drop_last())
    } else {
        Some(t)
    }
}

/// The first line that `s` holds whole, without its newline, and what follows it.
pub open spec fn take_line(s: Seq<u8>) -> Option<(Seq<u8>, Seq<u8>)> {
    if exists|p: int| first_occurrence(s, seq![NEWLINE], p) {
        let p = choose|p: int| first_occurrence(s, seq![NEWLINE], p);
        Some((s.subrange(0, p), s.subrange(p + 1, s.len() as int)))
    } else {
        None
    }
}

/// The first diversion entry that `s` holds whole: three lines, the diverted
/// file, where it was diverted to, and the package that diverted it; and what
/// follows it.
pub open spec fn diversion_frame(s: Seq<u8>) -> Option<(DiversionView, Seq<u8>)> {
    match take_line(s) {
        None => None,
        Some((from, r1)) => match take_line(r1) {
            None => None,
            Some((to, r2)) => match take_line(r2) {
                None => None,
                Some((by, r3)) => Some((DiversionView { by, from, to }, r3)),
            },
        },
    }
}

pub struct DiversionView {
    pub by: Seq<u8>,
    pub from: Seq<u8>,
    pub to: Seq<u8>,
}

/// One entry of the diversion database: `from` is diverted to `to` by the
/// package `by`.
#[derive(Debug, Clone, PartialEq, Eq)]
pub struct DiversionRecord {
    pub by: Vec<u8>,
    pub from: Vec<u8>,
    pub to: Vec<u8>,
}

impl View for DiversionRecord {
    type V = DiversionView;

    open spec fn view(&self) -> DiversionView {
        DiversionView { by: self.by@, from: self.from@, to: self.to@ }
    }
}

/// A stanza written from valid fields and ended by a blank line comes out of
/// the stream whole, as its text, and that text reads back as the same fields
/// in the same order.
pub proof fn lemma_stanza_stream_round_trip(fs: Seq<(Seq<u8>, Seq<u8>)>)
    requires
        fs.len() >= 1,
        forall|k: int| 0 <= k < fs.len() ==> valid_field(#[trigger] fs[k]),
    ensures
        control_frame(serialize(fs) + seq![NEWLINE, NEWLINE]) == Some(
            (serialize(fs), Seq::<u8>::empty()),
        ),
        parse_stanza_spec(serialize(fs)) == Some(fs),
{
    lemma_stanza_round_trip(fs);
    let lines = fs.map_values(|f: (Seq<u8>, Seq<u8>)| field_line(f));
    assert forall|k: int| 0 <= k < lines.len() implies (#[trigger] lines[k]).len() > 0
        && !lines[k].contains(NEWLINE) by {
        assert(valid_field(fs[k]));
        lemma_parse_field_line(fs[k]);
    }
    lemma_join_no_empty_piece(lines, NEWLINE);
    let s = serialize(fs);
    let u = s + seq![NEWLINE, NEWLINE];
    assert(skip_newlines(u) == u);
    let pat = seq![NEWLINE, NEWLINE];
    assert(u.subrange(s.len() as int, s.len() as int + 2) =~= pat);
    assert forall|j: int| 0 <= j < s.len() implies !occurs_at(u, pat, j) by {
        if occurs_at(u, pat, j) {
            assert(u.subrange(j, j + 2)[0] == NEWLINE);
            assert(u.subrange(j, j + 2)[1] == NEWLINE);
            if j < s.len() - 1 {
                assert(s[j] == NEWLINE);
            } else {
                assert(s.last() == u[j]);
            }
        }
    }
    assert(first_occurrence(u, pat, s.len() as int));
    let p = choose|p: int| first_occurrence(u, pat, p);
    lemma_first_occurrence_unique(u, pat, p, s.len() as int);
    assert(u.subrange(0, s.len() as int) =~= s);
    assert(u.subrange(s.len() as int + 2, u.len() as int) =~= Seq::<u8>::empty());
}

fn copy_range(s: &[u8], start: usize, end: usize) -> (r: Vec<u8>)
    requires
        start <= end <= s@.len(),
    ensures
        r@ == s@.subrange(start as int, end as int),
{
    let mut r: Vec<u8> = Vec::new();
    append(&mut r, vstd::slice::slice_subrange(s, start, end));
    r
}

fn skip_newline_bytes(s: &[u8]) -> (r: Vec<u8>)
    ensures
        r@ == skip_newlines(s@),
{
    let n = s.len();
    let mut i: usize = 0;
    assert(s@.subrange(0, n as int) =~= s@);
    while i < n && s[i] == NEWLINE
        invariant
            i <= n,
            n == s@.len(),
            skip_newlines(s@) == skip_newlines(s@.subrange(i as int, n as int)),
        decreases n - i,
    {
        assert(s@.subrange(i as int, n as int).drop_first() =~= s@.subrange(i + 1, n as int));
        i = i + 1;
    }
    copy_range(s, i, n)
}

fn split_line(s: &[u8]) -> (r: Option<(Vec<u8>, Vec<u8>)>)
    ensures
        match take_line(s@) {
            Some((line, rest)) => r matches Some((l, t)) && l@ == line && t@ == rest,
            None => r is None,
        },
{
    let nl: [u8; 1] = [NEWLINE];
    let pattern: &[u8] = nl.as_slice();
    assert(pattern@ =~= seq![NEWLINE]);
    match find(s, pattern) {
        None => None,
        Some(p) => {
            proof {
                let q = choose|q: int| first_occurrence(s@, seq![NEWLINE], q);
                lemma_first_occurrence_unique(s@, seq![NEWLINE], p as int, q);
            }
            assert(occurs_at(s@, pattern@, p as int));
            let n = s.len();
            Some((copy_range(s, 0, p), copy_range(s, p + 1, n)))
        },
    }
}

/// Cuts a stream of bytes into control stanzas as the bytes come in.
pub struct ControlDecoder {
    pending: Vec<u8>,
}

impl View for ControlDecoder {
    type V = Seq<u8>;

    /// The bytes received and not yet handed out.
    closed spec fn view(&self) -> Seq<u8> {
        self.pending@
    }
}

impl ControlDecoder {
    pub fn new() -> (r: ControlDecoder)
        ensures
            r@ == Seq::<u8>::empty(),
    {
        ControlDecoder { pending: Vec::new() }
    }

    /// Takes in the next bytes of the stream.
    pub fn feed(&mut self, chunk: &[u8])
        ensures
            final(self)@ == old(self)@ + chunk@,
    {
        append(&mut self.pending, chunk);
    }

    /// The next stanza that the bytes so far hold whole, without the blank
    /// line that ends it.
    pub fn next_frame(&mut self) -> (r: Option<Vec<u8>>)
        ensures
            match control_frame(old(self)@) {
                Some((frame, rest)) => r matches Some(f) && f@ == frame && final(self)@ == rest,
                None => r is None && final(self)@ == skip_newlines(old(self)@),
            },
    {
        let t = skip_newline_bytes(self.pending.as_slice());
        let blank: [u8; 2] = [NEWLINE, NEWLINE];
        let pattern: &[u8] = blank.as_slice();
        assert(pattern@ =~= seq![NEWLINE, NEWLINE]);
        match find(t.as_slice(), pattern) {
            None => {
                self.pending = t;
                None
            },
            Some(p) => {
                proof {
                    let q = choose|q: int| first_occurrence(t@, seq![NEWLINE, NEWLINE], q);
                    lemma_first_occurrence_unique(t@, seq![NEWLINE, NEWLINE], p as int, q);
                }
                assert(occurs_at(t@, pattern@, p as int));
                let n = t.len();
                let frame = copy_range(t.as_slice(), 0, p);
                self.pending = copy_range(t.as_slice(), p + 2, n);
                Some(frame)
            },
        }
    }

    /// Once the stream has ended: the next stanza, where a blank line still
    /// ends one, else what is left as the last stanza.
    pub fn finish_frame(&mut self) -> (r: Option<Vec<u8>>)
        ensures
            match control_frame(old(self)@) {
                Some((frame, rest)) => r matches Some(f) && f@ == frame && final(self)@ == rest,
                None => match last_control_frame(old(self)@) {
                    Some(frame) => r matches Some(f) && f@ == frame && final(self)@
                        == Seq::<u8>::empty(),
                    None => r is None && final(self)@ == Seq::<u8>::empty(),
                },
            },
    {
        match self.next_frame() {
            Some(f) => Some(f),
            None => {
                let t = self.pending.as_slice();
                let n = t.len();
                if n == 0 {
                    None
                } else {
                    let end: usize = if t[n - 1] == NEWLINE { n - 1 } else { n };
                    let frame = copy_range(t, 0, end);
                    proof {
                        if t@.last() == NEWLINE {
                            assert(t@.drop_last() =~= t@.subrange(0, end as int));
                        } else {
                            assert(t@ =~= t@.subrange(0, end as int));
                        }
                    }
                    self.pending = Vec::new();
                    Some(frame)
                }
            },
        }
    }
}

/// Cuts a stream of bytes into diversion entries as the bytes come in.
pub struct DiversionDecoder {
    pending: Vec<u8>,
}

impl View for DiversionDecoder {
    type V = Seq<u8>;

    /// The bytes received and not yet handed out.
    closed spec fn view(&self) -> Seq<u8> {
        self.pending@
    }
}

impl DiversionDecoder {
    pub fn new() -> (r: DiversionDecoder)
        ensures
            r@ == Seq::<u8>::empty(),
    {
        DiversionDecoder { pending: Vec::new() }
    }

    /// Takes in the next bytes of the stream.
    pub fn feed(&mut self, chunk: &[u8])
        ensures
            final(self)@ == old(self)@ + chunk@,
    {
        append(&mut self.pending, chunk);
    }

    /// The next entry that the bytes so far hold whole.
    pub fn next_record(&mut self) -> (r: Option<DiversionRecord>)
        ensures
            match diversion_frame(old(self)@) {
                Some((d, rest)) => r matches Some(rec) && rec@ == d && final(self)@ == rest,
                None => r is None && final(self)@ == old(self)@,
            },
    {
        match split_line(self.pending.as_slice()) {
            None => None,
            Some((from, r1)) => match split_line(r1.as_slice()) {
                None => None,
                Some((to, r2)) => match split_line(r2.as_slice()) {
                    None => None,
                    Some((by, r3)) => {
                        self.pending = r3;
                        Some(DiversionRecord { by, from, to })
                    },
                },
            },
        }
    }

    /// Once the stream has ended: the next entry; `None` where nothing is left,
    /// and an error where the stream ended inside an entry.
    pub fn finish_record(&mut self) -> (r: Result<Option<DiversionRecord>, DecodeError>)
        ensures
            match diversion_frame(old(self)@) {
                Some((d, rest)) => r matches Ok(Some(rec)) && rec@ == d && final(self)@ == rest,
                None => if old(self)@.len() == 0 {
                    r matches Ok(None)
                } else {
                    r == Err::<Option<DiversionRecord>, DecodeError>(DecodeError::UnexpectedEnd)
                },
            },
    {
        match self.next_record() {
            Some(rec) => Ok(Some(rec)),
            None => {
                if self.pending.len() == 0 {
                    Ok(None)
                } else {
                    Err(DecodeError::UnexpectedEnd)
                }
            },
        }
    }
}

} // verus!
