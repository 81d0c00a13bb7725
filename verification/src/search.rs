use crate::syntax::Span;
use vstd::prelude::*;
use vstd::utf8::{encode_utf8, is_char_boundary};

verus! {

/// Whether `needle` stands in `hay` at index `k`.
pub open spec fn occurs_at(hay: Seq<u8>, needle: Seq<u8>, k: int) -> bool {
    0 <= k && k + needle.len() <= hay.len() && hay.subrange(k, k + needle.len()) == needle
}

/// Whether `needle` stands in `hay` at index `k` and nowhere before.
pub open spec fn first_at(hay: Seq<u8>, needle: Seq<u8>, k: int) -> bool {
    occurs_at(hay, needle, k) && forall|j: int| j < k ==> !occurs_at(hay, needle, j)
}

/// The index at which `needle` first stands in `hay`.
pub open spec fn found_in(hay: Seq<u8>, needle: Seq<u8>) -> Option<int> {
    if exists|k: int| first_at(hay, needle, k) {
        Some(choose|k: int| first_at(hay, needle, k))
    } else {
        None
    }
}

/// Whether a span can be cut out of a text: it does not end before it starts, and both its
/// ends lie between two characters of the text.
pub open spec fn can_cut(text: Seq<char>, span: Span) -> bool {
    &&& span.start <= span.end <= encode_utf8(text).len()
    &&& is_char_boundary(encode_utf8(text), span.start as int)
    &&& is_char_boundary(encode_utf8(text), span.end as int)
}

/// The bytes of a text that a span covers.
pub open spec fn cut(text: Seq<char>, span: Span) -> Seq<u8> {
    encode_utf8(text).subrange(span.start as int, span.end as int)
}

/// The span of the first `name` inside `outer`.
pub open spec fn name_inside(text: Seq<char>, outer: Span, name: Seq<char>) -> Option<Span> {
    match found_in(cut(text, outer), encode_utf8(name)) {
        Some(k) => Some(
            Span {
                start: (outer.start + k) as u32,
                end: (outer.start + k + encode_utf8(name).len()) as u32,
            },
        ),
        None => None,
    }
}

/// The span of the first `name` inside `outer`, where `outer` can be cut out of the text.
pub open spec fn defined_name(text: Seq<char>, outer: Span, name: Seq<char>) -> Option<Span> {
    if can_cut(text, outer) {
        name_inside(text, outer, name)
    } else {
        None
    }
}

proof fn lemma_first_is_unique(hay: Seq<u8>, needle: Seq<u8>, k: int)
    requires
        first_at(hay, needle, k),
    ensures
        found_in(hay, needle) == Some(k),
{
    let found = choose|k: int| first_at(hay, needle, k);
    assert(first_at(hay, needle, found));
    assert(!(found < k) && !(k < found));
}

/// The name of a definition reads, where it is found, as the name.
pub proof fn law_defined_name_reads_as_the_name(text: Seq<char>, outer: Span, name: Seq<char>)
    requires
        defined_name(text, outer, name) is Some,
    ensures
        ({
            let span = defined_name(text, outer, name)->0;
            &&& outer.start <= span.start <= span.end <= outer.end
            &&& cut(text, span) == encode_utf8(name)
        }),
{
    let k = found_in(cut(text, outer), encode_utf8(name))->0;
    assert(first_at(cut(text, outer), encode_utf8(name), k));
    let span = defined_name(text, outer, name)->0;
    assert(cut(text, outer).subrange(k, k + encode_utf8(name).len()) =~= cut(text, span));
}

/// Whether `needle` stands in `hay` at index `k`.
fn matches_at(hay: &[u8], needle: &[u8], k: usize) -> (matching: bool)
    requires
        k + needle@.len() <= hay@.len(),
    ensures
        matching == occurs_at(hay@, needle@, k as int),
{
    let size: usize = hay.len();
    let mut i: usize = 0;
    while i < needle.len()
        invariant
            size == hay@.len(),
            i <= needle@.len(),
            k + needle@.len() <= hay@.len(),
            forall|j: int| 0 <= j < i ==> hay@[k + j] == needle@[j],
        decreases needle.len() - i,
    {
        if hay[k + i] != needle[i] {
            proof {
                let part = hay@.subrange(k as int, k + needle@.len());
                assert(part[i as int] != needle@[i as int]);
            }
            return false;
        }
        i = i + 1;
    }
    assert(hay@.subrange(k as int, k + needle@.len()) =~= needle@);
    true
}

/// Finds the name of a definition inside the definition.
pub fn symbol_name_range(text: &str, outer_range: Span, name: &str) -> (found: Option<Span>)
    requires
        can_cut(text@, outer_range),
    ensures
        found == name_inside(text@, outer_range, name@),
{
    let bytes = text.as_bytes();
    let needle = name.as_bytes();
    let start: usize = outer_range.start as usize;
    let end: usize = outer_range.end as usize;
    let ghost hay = cut(text@, outer_range);
    let mut k: usize = start;
    while needle.len() <= end - k
        invariant
            k <= end,
            bytes@ == encode_utf8(text@),
            needle@ == encode_utf8(name@),
            start == outer_range.start,
            end == outer_range.end,
            start <= k,
            start <= end <= bytes@.len(),
            hay == cut(text@, outer_range),
            forall|j: int| j < k - start ==> !occurs_at(hay, needle@, j),
        decreases end - k,
    {
        assert(bytes@.subrange(k as int, k + needle@.len()) =~= hay.subrange(
            k - start,
            k - start + needle@.len(),
        ));
        if matches_at(bytes, needle, k) {
            assert(first_at(hay, needle@, k - start));
            proof {
                lemma_first_is_unique(hay, needle@, k - start);
            }
            return Some(Span { start: k as u32, end: (k + needle.len()) as u32 });
        }
        if k == end {
            assert forall|j: int| !first_at(hay, needle@, j) by {
                if first_at(hay, needle@, j) {
                    assert(occurs_at(hay, needle@, j));
                }
            }
            return None;
        }
        k = k + 1;
    }
    assert forall|j: int| !first_at(hay, needle@, j) by {
        if first_at(hay, needle@, j) {
            assert(!occurs_at(hay, needle@, j));
        }
    }
    None
}

/// Finds the name of a definition inside the definition, if the definition can be cut out of
/// the text.
pub fn find_defined_name(text: &str, outer_range: Span, name: &str) -> (found: Option<Span>)
    ensures
        found == defined_name(text@, outer_range, name@),
{
    let start: usize = outer_range.start as usize;
    let end: usize = outer_range.end as usize;
    if start <= end && end <= text.as_bytes().len() && text.is_char_boundary(start)
        && text.is_char_boundary(end) {
        symbol_name_range(text, outer_range, name)
    } else {
        None
    }
}

} // verus!
