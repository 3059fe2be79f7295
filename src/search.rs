use vstd::prelude::*;

verus! {

/// `pattern` stands in `text` starting at index `i`.
pub open spec fn occurs_at(text: Seq<u8>, pattern: Seq<u8>, i: int) -> bool {
    0 <= i && i + pattern.len() <= text.len() && text.subrange(i, i + pattern.len()) == pattern
}

/// `pattern` stands somewhere in `text`: a plain substring test, case-sensitive,
/// with no regard to word boundaries.
pub open spec fn contains(text: Seq<u8>, pattern: Seq<u8>) -> bool {
    exists|i: int| occurs_at(text, pattern, i)
}

/// `i` is the first index at which `pattern` stands in `text`.
pub open spec fn first_occurrence(text: Seq<u8>, pattern: Seq<u8>, i: int) -> bool {
    occurs_at(text, pattern, i) && forall|j: int| 0 <= j < i ==> !occurs_at(text, pattern, j)
}

/// A first occurrence is unique.
pub proof fn lemma_first_occurrence_unique(text: Seq<u8>, pattern: Seq<u8>, a: int, b: int)
    requires
        first_occurrence(text, pattern, a),
        first_occurrence(text, pattern, b),
    ensures
        a == b,
{
}

/// Relies on twoway::find_bytes: it returns the index of the first occurrence of
/// `pattern` in `text`, or `None` where there is none.
#[verifier::external_body]
fn find_bytes(text: &[u8], pattern: &[u8]) -> (r: Option<usize>)
    ensures
        match r {
            Some(i) => first_occurrence(text@, pattern@, i as int),
            None => !contains(text@, pattern@),
        },
{
    twoway::find_bytes(text, pattern)
}

/// The index of the first occurrence of `pattern` in `text`.
pub fn find(text: &[u8], pattern: &[u8]) -> (r: Option<usize>)
    ensures
        match r {
            Some(i) => first_occurrence(text@, pattern@, i as int),
            None => !contains(text@, pattern@),
        },
{
    find_bytes(text, pattern)
}

/// Whether `pattern` stands anywhere in `text`.
pub fn contains_bytes(text: &[u8], pattern: &[u8]) -> (r: bool)
    ensures
        r == contains(text@, pattern@),
{
    match find_bytes(text, pattern) {
        Some(i) => {
            assert(occurs_at(text@, pattern@, i as int));
            true
        },
        None => false,
    }
}

} // verus!
