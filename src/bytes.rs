use vstd::prelude::*;

verus! {

pub const NEWLINE: u8 = 10;

pub const SPACE: u8 = 32;

pub const TAB: u8 = 9;

/// How a sequence of bytes stands after splitting on `sep`, read up to its end:
/// the pieces already closed by a separator, and the piece still open.
pub open spec fn split_state(s: Seq<u8>, sep: u8) -> (Seq<Seq<u8>>, Seq<u8>)
    decreases s.len(),
{
    if s.len() == 0 {
        (Seq::empty(), Seq::empty())
    } else {
        let (done, open) = split_state(s.drop_last(), sep);
        if s.last() == sep {
            (done.push(open), Seq::empty())
        } else {
            (done, open.push(s.last()))
        }
    }
}

/// The pieces of `s` between separators: `n` separators give `n + 1` pieces.
pub open spec fn split(s: Seq<u8>, sep: u8) -> Seq<Seq<u8>> {
    split_state(s, sep).0.push(split_state(s, sep).1)
}

/// The pieces joined back with `sep` between each two.
pub open spec fn join(pieces: Seq<Seq<u8>>, sep: u8) -> Seq<u8>
    decreases pieces.len(),
{
    if pieces.len() == 0 {
        Seq::empty()
    } else if pieces.len() == 1 {
        pieces[0]
    } else {
        join(pieces.drop_last(), sep) + seq![sep] + pieces.last()
    }
}

/// The views of a sequence of byte vectors.
pub open spec fn views(v: Seq<Vec<u8>>) -> Seq<Seq<u8>> {
    v.map_values(|x: Vec<u8>| x@)
}

pub open spec fn is_blank(b: u8) -> bool {
    b == SPACE || b == TAB
}

/// `s` without its leading spaces and tabs.
pub open spec fn strip_leading_blanks(s: Seq<u8>) -> Seq<u8>
    decreases s.len(),
{
    if s.len() > 0 && is_blank(s[0]) {
        strip_leading_blanks(s.drop_first())
    } else {
        s
    }
}

proof fn lemma_split_open_piece(a: Seq<u8>, t: Seq<u8>, sep: u8)
    requires
        !t.contains(sep),
    ensures
        split_state(a + t, sep) == (split_state(a, sep).0, split_state(a, sep).1 + t),
    decreases t.len(),
{
    if t.len() == 0 {
        assert(a + t =~= a);
        assert(split_state(a, sep).1 + t =~= split_state(a, sep).1);
    } else {
        let t0 = t.drop_last();
        assert(!t0.contains(sep)) by {
            if t0.contains(sep) {
                let k = choose|k: int| 0 <= k < t0.len() && t0[k] == sep;
                assert(t[k] == sep);
            }
        }
        lemma_split_open_piece(a, t0, sep);
        assert((a + t).drop_last() =~= a + t0);
        assert(t[t.len() - 1] != sep);
        assert((split_state(a, sep).1 + t0).push(t.last()) =~= split_state(a, sep).1 + t);
    }
}

/// `s` is not empty, neither starts nor ends with `sep`, and holds no two
/// `sep` in a row.
pub open spec fn no_empty_piece(s: Seq<u8>, sep: u8) -> bool {
    &&& s.len() > 0
    &&& s[0] != sep
    &&& s.last() != sep
    &&& forall|j: int| 0 <= j < s.len() - 1 && #[trigger] s[j] == sep ==> s[j + 1] != sep
}

/// Non-empty pieces that hold no separator, once joined, give no empty piece.
pub proof fn lemma_join_no_empty_piece(pieces: Seq<Seq<u8>>, sep: u8)
    requires
        pieces.len() >= 1,
        forall|k: int|
            0 <= k < pieces.len() ==> (#[trigger] pieces[k]).len() > 0 && !pieces[k].contains(sep),
    ensures
        no_empty_piece(join(pieces, sep), sep),
    decreases pieces.len(),
{
    let t = pieces.last();
    assert(t.len() > 0 && !t.contains(sep));
    assert(t[0] != sep);
    assert(t[t.len() - 1] != sep);
    if pieces.len() == 1 {
        assert forall|j: int| 0 <= j < t.len() - 1 && #[trigger] t[j] == sep implies t[j + 1] != sep by {
            assert(t.contains(sep));
        }
    } else {
        let init = pieces.drop_last();
        assert(forall|k: int| 0 <= k < init.len() ==> init[k] == pieces[k]);
        lemma_join_no_empty_piece(init, sep);
        let a = join(init, sep);
        let s = join(pieces, sep);
        assert(s == a + seq![sep] + t);
        assert(s[0] == a[0]);
        assert(s.last() == t.last());
        assert forall|j: int| 0 <= j < s.len() - 1 && #[trigger] s[j] == sep implies s[j + 1] != sep by {
            if j < a.len() - 1 {
                assert(s[j] == a[j]);
                assert(s[j + 1] == a[j + 1]);
            } else if j == a.len() - 1 {
                assert(s[j] == a.last());
            } else if j == a.len() {
                assert(s[j + 1] == t[0]);
            } else {
                assert(s[j] == t[j - a.len() - 1]);
                assert(t.contains(sep));
            }
        }
    }
}

/// Splitting pieces that hold no separator, once joined, gives them back.
pub proof fn lemma_split_join(pieces: Seq<Seq<u8>>, sep: u8)
    requires
        pieces.len() >= 1,
        forall|k: int| 0 <= k < pieces.len() ==> !(#[trigger] pieces[k]).contains(sep),
    ensures
        split(join(pieces, sep), sep) == pieces,
    decreases pieces.len(),
{
    if pieces.len() == 1 {
        let e = Seq::<u8>::empty();
        lemma_split_open_piece(e, pieces[0], sep);
        assert(e + pieces[0] =~= pieces[0]);
        assert(split_state(e, sep).1 + pieces[0] =~= pieces[0]);
        assert(split(join(pieces, sep), sep) =~= pieces);
    } else {
        let init = pieces.drop_last();
        assert(forall|k: int| 0 <= k < init.len() ==> init[k] == pieces[k]);
        lemma_split_join(init, sep);
        let a = join(init, sep) + seq![sep];
        assert(a.drop_last() =~= join(init, sep));
        assert(split_state(a, sep) == (split(join(init, sep), sep), Seq::<u8>::empty()));
        lemma_split_open_piece(a, pieces.last(), sep);
        assert(Seq::<u8>::empty() + pieces.last() =~= pieces.last());
        assert(split(join(pieces, sep), sep) =~= pieces);
    }
}

/// Appends the bytes of `src` to `dst`.
pub fn append(dst: &mut Vec<u8>, src: &[u8])
    ensures
        final(dst)@ == old(dst)@ + src@,
{
    let ghost start = dst@;
    let mut i: usize = 0;
    while i < src.len()
        invariant
            i <= src@.len(),
            dst@ == start + src@.subrange(0, i as int),
        decreases src@.len() - i,
    {
        dst.push(src[i]);
        i = i + 1;
        assert(dst@ =~= start + src@.subrange(0, i as int));
    }
    assert(src@.subrange(0, src@.len() as int) =~= src@);
}

/// The bytes of `s` split on `sep`, as `split` says.
pub fn split_bytes(s: &[u8], sep: u8) -> (r: Vec<Vec<u8>>)
    ensures
        views(r@) == split(s@, sep),
{
    let mut done: Vec<Vec<u8>> = Vec::new();
    let mut open: Vec<u8> = Vec::new();
    let mut i: usize = 0;
    while i < s.len()
        invariant
            i <= s@.len(),
            (views(done@), open@) == split_state(s@.subrange(0, i as int), sep),
        decreases s@.len() - i,
    {
        let b = s[i];
        assert(s@.subrange(0, i + 1).drop_last() =~= s@.subrange(0, i as int));
        if b == sep {
            let closed = open;
            open = Vec::new();
            done.push(closed);
            assert(views(done@) =~= split_state(s@.subrange(0, i as int), sep).0.push(closed@));
        } else {
            open.push(b);
        }
        i = i + 1;
    }
    assert(s@.subrange(0, s@.len() as int) =~= s@);
    let ghost before = done@;
    done.push(open);
    assert(views(done@) =~= views(before).push(open@));
    done
}

/// `s` without its leading spaces and tabs.
pub fn strip_blanks(s: &[u8]) -> (r: Vec<u8>)
    ensures
        r@ == strip_leading_blanks(s@),
{
    let mut i: usize = 0;
    assert(s@.subrange(0, s@.len() as int) =~= s@);
    while i < s.len() && (s[i] == SPACE || s[i] == TAB)
        invariant
            i <= s@.len(),
            strip_leading_blanks(s@) == strip_leading_blanks(s@.subrange(i as int, s@.len() as int)),
        decreases s@.len() - i,
    {
        assert(s@.subrange(i as int, s@.len() as int).drop_first() =~= s@.subrange(
            i + 1,
            s@.len() as int,
        ));
        i = i + 1;
    }
    let mut r: Vec<u8> = Vec::new();
    append(&mut r, vstd::slice::slice_subrange(s, i, s.len()));
    r
}

} // verus!
