use vstd::prelude::*;

use crate::bytes::{
    append, is_blank, join, lemma_split_join, split, split_bytes, strip_blanks,
    strip_leading_blanks, views, NEWLINE, SPACE, TAB,
};
use crate::search::{first_occurrence, find, lemma_first_occurrence_unique, occurs_at};

verus! {

pub const COLON: u8 = 58;

/// Why a record could not be read.
#[derive(Debug, Clone, Copy, PartialEq, Eq, Structural)]
pub enum DecodeError {
    /// A line of a control stanza is neither `Key: value` nor a continuation
    /// of the field before it.
    MalformedField,
    /// The stream ended inside a record.
    UnexpectedEnd,
}

/// One `Key: value` field of a control stanza.
#[derive(Debug, Clone, PartialEq, Eq)]
pub struct Field {
    pub key: Vec<u8>,
    pub value: Vec<u8>,
}

impl View for Field {
    type V = (Seq<u8>, Seq<u8>);

    open spec fn view(&self) -> (Seq<u8>, Seq<u8>) {
        (self.key@, self.value@)
    }
}

pub open spec fn fields_view(fs: Seq<Field>) -> Seq<(Seq<u8>, Seq<u8>)> {
    fs.map_values(|f: Field| f@)
}

/// A line that carries on the value of the field before it.
pub open spec fn is_continuation(line: Seq<u8>) -> bool {
    line.len() > 0 && is_blank(line[0])
}

/// A `Key: value` line: the key is what stands before the first colon and may
/// not be empty; the value is what follows it, less its leading blanks.
pub open spec fn parse_field(line: Seq<u8>) -> Option<(Seq<u8>, Seq<u8>)> {
    if exists|c: int| first_occurrence(line, seq![COLON], c) {
        let c = choose|c: int| first_occurrence(line, seq![COLON], c);
        if c == 0 {
            None
        } else {
            Some((line.subrange(0, c), strip_leading_blanks(line.subrange(c + 1, line.len() as int))))
        }
    } else {
        None
    }
}

/// The fields that a stanza's lines give, read from the first line on; `None`
/// where a line is malformed.
pub open spec fn parse_lines(lines: Seq<Seq<u8>>) -> Option<Seq<(Seq<u8>, Seq<u8>)>>
    decreases lines.len(),
{
    if lines.len() == 0 {
        Some(Seq::empty())
    } else {
        match parse_lines(lines.drop_last()) {
            None => None,
            Some(fs) => {
                let line = lines.last();
                if is_continuation(line) {
                    if fs.len() == 0 {
                        None
                    } else {
                        let f = fs.last();
                        Some(fs.update(fs.len() - 1, (f.0, f.1 + seq![NEWLINE] + line)))
                    }
                } else {
                    match parse_field(line) {
                        None => None,
                        Some(f) => Some(fs.push(f)),
                    }
                }
            },
        }
    }
}

/// The fields of a stanza, in order, from its text (without the blank line
/// that ends it).
pub open spec fn parse_stanza_spec(text: Seq<u8>) -> Option<Seq<(Seq<u8>, Seq<u8>)>> {
    parse_lines(split(text, NEWLINE))
}

/// The line that writes a field.
pub open spec fn field_line(f: (Seq<u8>, Seq<u8>)) -> Seq<u8> {
    f.0 + seq![COLON, SPACE] + f.1
}

/// A stanza's text: one line per field.
pub open spec fn serialize(fs: Seq<(Seq<u8>, Seq<u8>)>) -> Seq<u8> {
    join(fs.map_values(|f: (Seq<u8>, Seq<u8>)| field_line(f)), NEWLINE)
}

/// A field that one line holds and that reads back as itself.
pub open spec fn valid_field(f: (Seq<u8>, Seq<u8>)) -> bool {
    &&& f.0.len() > 0
    &&& !is_blank(f.0[0])
    &&& !f.0.contains(COLON)
    &&& !f.0.contains(NEWLINE)
    &&& !f.1.contains(NEWLINE)
    &&& (f.1.len() == 0 || !is_blank(f.1[0]))
}

pub(crate) proof fn lemma_parse_field_line(f: (Seq<u8>, Seq<u8>))
    requires
        valid_field(f),
    ensures
        parse_field(field_line(f)) == Some(f),
        !is_continuation(field_line(f)),
        !field_line(f).contains(NEWLINE),
{
    let line = field_line(f);
    let k = f.0.len() as int;
    assert(line.subrange(k, k + 1) =~= seq![COLON]);
    assert forall|j: int| 0 <= j < k implies !occurs_at(line, seq![COLON], j) by {
        if occurs_at(line, seq![COLON], j) {
            assert(line.subrange(j, j + 1)[0] == COLON);
            assert(f.0[j] == COLON);
        }
    }
    assert(first_occurrence(line, seq![COLON], k));
    let c = choose|c: int| first_occurrence(line, seq![COLON], c);
    lemma_first_occurrence_unique(line, seq![COLON], c, k);
    assert(line.subrange(0, k) =~= f.0);
    let rest = line.subrange(k + 1, line.len() as int);
    assert(rest =~= seq![SPACE] + f.1);
    assert(rest.drop_first() =~= f.1);
    assert(strip_leading_blanks(f.1) == f.1);
    assert(line[0] == f.0[0]);
    if line.contains(NEWLINE) {
        let j = choose|j: int| 0 <= j < line.len() && line[j] == NEWLINE;
        if j < k {
            assert(f.0[j] == NEWLINE);
        } else if j >= k + 2 {
            assert(f.1[j - k - 2] == NEWLINE);
        }
    }
}

pub(crate) proof fn lemma_parse_field_lines(fs: Seq<(Seq<u8>, Seq<u8>)>)
    requires
        forall|k: int| 0 <= k < fs.len() ==> valid_field(#[trigger] fs[k]),
    ensures
        parse_lines(fs.map_values(|f: (Seq<u8>, Seq<u8>)| field_line(f))) == Some(fs),
    decreases fs.len(),
{
    let lines = fs.map_values(|f: (Seq<u8>, Seq<u8>)| field_line(f));
    if fs.len() > 0 {
        let init = fs.drop_last();
        assert(forall|k: int| 0 <= k < init.len() ==> init[k] == fs[k]);
        lemma_parse_field_lines(init);
        assert(lines.drop_last() =~= init.map_values(|f: (Seq<u8>, Seq<u8>)| field_line(f)));
        assert(valid_field(fs[fs.len() - 1]));
        lemma_parse_field_line(fs.last());
        assert(init.push(fs.last()) =~= fs);
    }
}

/// A stanza whose fields are valid reads back, once written, as the same
/// fields in the same order.
pub proof fn lemma_stanza_round_trip(fs: Seq<(Seq<u8>, Seq<u8>)>)
    requires
        fs.len() >= 1,
        forall|k: int| 0 <= k < fs.len() ==> valid_field(#[trigger] fs[k]),
    ensures
        parse_stanza_spec(serialize(fs)) == Some(fs),
{
    let lines = fs.map_values(|f: (Seq<u8>, Seq<u8>)| field_line(f));
    assert forall|k: int| 0 <= k < lines.len() implies !(#[trigger] lines[k]).contains(NEWLINE) by {
        assert(valid_field(fs[k]));
        lemma_parse_field_line(fs[k]);
    }
    lemma_split_join(lines, NEWLINE);
    lemma_parse_field_lines(fs);
}

proof fn lemma_parse_none_extends(ls: Seq<Seq<u8>>, i: int)
    requires
        0 <= i <= ls.len(),
        parse_lines(ls.take(i)).is_none(),
    ensures
        parse_lines(ls).is_none(),
    decreases ls.len() - i,
{
    if i < ls.len() {
        assert(ls.take(i + 1).drop_last() =~= ls.take(i));
        lemma_parse_none_extends(ls, i + 1);
    } else {
        assert(ls.take(i) =~= ls);
    }
}

/// Reads one `Key: value` line.
pub fn parse_field_line(line: &[u8]) -> (r: Option<Field>)
    ensures
        match r {
            Some(f) => parse_field(line@) == Some(f@),
            None => parse_field(line@).is_none(),
        },
{
    let colon: [u8; 1] = [COLON];
    let pattern: &[u8] = colon.as_slice();
    assert(pattern@ =~= seq![COLON]);
    match find(line, pattern) {
        None => None,
        Some(c) => {
            proof {
                let d = choose|d: int| first_occurrence(line@, seq![COLON], d);
                lemma_first_occurrence_unique(line@, seq![COLON], c as int, d);
            }
            assert(occurs_at(line@, pattern@, c as int));
            assert(c < line@.len());
            if c == 0 {
                None
            } else {
                let mut key: Vec<u8> = Vec::new();
                append(&mut key, vstd::slice::slice_subrange(line, 0, c));
                let n = line.len();
                let value = strip_blanks(vstd::slice::slice_subrange(line, c + 1, n));
                Some(Field { key, value })
            }
        },
    }
}

/// The fields of a stanza, in order, from its text.
pub fn parse_stanza(text: &[u8]) -> (r: Result<Vec<Field>, DecodeError>)
    ensures
        match r {
            Ok(fs) => parse_stanza_spec(text@) == Some(fields_view(fs@)),
            Err(e) => parse_stanza_spec(text@).is_none() && e == DecodeError::MalformedField,
        },
{
    let lines = split_bytes(text, NEWLINE);
    let ghost ls = views(lines@);
    let mut fields: Vec<Field> = Vec::new();
    let mut i: usize = 0;
    assert(ls.take(0) =~= Seq::<Seq<u8>>::empty());
    assert(fields_view(fields@) =~= Seq::empty());
    while i < lines.len()
        invariant
            i <= lines@.len(),
            ls == views(lines@),
            ls == split(text@, NEWLINE),
            parse_lines(ls.take(i as int)) == Some(fields_view(fields@)),
        decreases lines@.len() - i,
    {
        let line: &[u8] = lines[i].as_slice();
        assert(ls.take(i + 1).drop_last() =~= ls.take(i as int));
        assert(ls.take(i + 1).last() == line@);
        if line.len() > 0 && (line[0] == SPACE || line[0] == TAB) {
            match fields.pop() {
                None => {
                    proof {
                        lemma_parse_none_extends(ls, i + 1);
                    }
                    return Err(DecodeError::MalformedField);
                },
                Some(f) => {
                    let ghost before = fields@.push(f);
                    let ghost popped = fields@;
                    let ghost fv = f@;
                    let mut value = f.value;
                    value.push(NEWLINE);
                    append(&mut value, line);
                    let nf = Field { key: f.key, value };
                    assert(nf@ == (fv.0, fv.1 + seq![NEWLINE] + line@));
                    fields.push(nf);
                    assert(fields@ == popped.push(nf));
                    assert(fields_view(before).last() == fv);
                    assert(fields_view(fields@) =~= fields_view(before).update(
                        fields_view(before).len() - 1,
                        (fv.0, fv.1 + seq![NEWLINE] + line@),
                    ));
                },
            }
        } else {
            match parse_field_line(line) {
                None => {
                    proof {
                        lemma_parse_none_extends(ls, i + 1);
                    }
                    return Err(DecodeError::MalformedField);
                },
                Some(f) => {
                    let ghost before = fields@;
                    fields.push(f);
                    assert(fields_view(fields@) =~= fields_view(before).push(f@));
                },
            }
        }
        i = i + 1;
    }
    assert(ls.take(ls.len() as int) =~= ls);
    Ok(fields)
}

/// The text of a stanza: one `Key: value` line per field, in order.
pub fn serialize_stanza(fields: &Vec<Field>) -> (r: Vec<u8>)
    ensures
        r@ == serialize(fields_view(fields@)),
{
    let ghost fs = fields_view(fields@);
    let ghost lines = fs.map_values(|f: (Seq<u8>, Seq<u8>)| field_line(f));
    let mut out: Vec<u8> = Vec::new();
    let mut i: usize = 0;
    assert(lines.take(0) =~= Seq::<Seq<u8>>::empty());
    while i < fields.len()
        invariant
            i <= fields@.len(),
            fs == fields_view(fields@),
            lines == fs.map_values(|f: (Seq<u8>, Seq<u8>)| field_line(f)),
            out@ == join(lines.take(i as int), NEWLINE),
        decreases fields@.len() - i,
    {
        let ghost before = out@;
        if i > 0 {
            out.push(NEWLINE);
        }
        append(&mut out, fields[i].key.as_slice());
        out.push(COLON);
        out.push(SPACE);
        append(&mut out, fields[i].value.as_slice());
        assert(lines.take(i + 1).drop_last() =~= lines.take(i as int));
        assert(lines[i as int] == field_line(fields@[i as int]@));
        if i > 0 {
            assert(out@ =~= before + seq![NEWLINE] + lines[i as int]);
        } else {
            assert(out@ =~= lines[i as int]);
        }
        i = i + 1;
    }
    assert(lines.take(lines.len() as int) =~= lines);
    out
}

} // verus!
