//! What all rendering rests on: appending a character to a string, and
//! lists of texts with a separator between their items.

use vstd::prelude::*;

verus! {

/// Trusted: `String::push` of the standard library. It appends the given
/// character to the end of the string and leaves what was there untouched.
pub assume_specification[ String::push ](s: &mut String, c: char)
    ensures
        final(s)@ == old(s)@.push(c),
;

/// `parts` with `sep` between each two neighbours: nothing before the first
/// part and nothing after the last.
pub open spec fn join(parts: Seq<Seq<char>>, sep: Seq<char>) -> Seq<char>
    decreases parts.len(),
{
    if parts.len() == 0 {
        Seq::empty()
    } else if parts.len() == 1 {
        parts[0]
    } else {
        join(parts.drop_last(), sep) + sep + parts.last()
    }
}

/// A joined list begins with its first part and ends with its last part: no
/// separator stands before the first or after the last.
pub proof fn lemma_join_ends(parts: Seq<Seq<char>>, sep: Seq<char>)
    requires
        parts.len() >= 1,
    ensures
        parts[0].is_prefix_of(join(parts, sep)),
        parts.last().is_suffix_of(join(parts, sep)),
    decreases parts.len(),
{
    if parts.len() > 1 {
        lemma_join_ends(parts.drop_last(), sep);
    }
}

/// A joined list holds its parts and one separator less than it has parts.
pub proof fn lemma_join_len(parts: Seq<Seq<char>>, sep: Seq<char>)
    requires
        parts.len() >= 1,
    ensures
        join(parts, sep).len() == parts.flatten().len() + (parts.len() - 1) * sep.len(),
    decreases parts.len(),
{
    assert(parts =~= parts.drop_last().push(parts.last()));
    parts.drop_last().lemma_flatten_push(parts.last());
    if parts.len() == 1 {
        assert(parts.drop_last() =~= Seq::empty());
        assert(parts.drop_last().flatten() =~= Seq::empty());
    } else {
        lemma_join_len(parts.drop_last(), sep);
        assert((parts.len() - 1) * sep.len() == (parts.len() - 2) * sep.len() + sep.len())
            by (nonlinear_arith);
    }
}

/// What a text ends with, it still ends with after something is put before
/// it.
pub proof fn lemma_suffix_after(head: Seq<char>, whole: Seq<char>, suffix: Seq<char>)
    requires
        suffix.is_suffix_of(whole),
    ensures
        suffix.is_suffix_of(head + whole),
{
    let longer = head + whole;
    assert(suffix =~= longer.subrange(longer.len() - suffix.len(), longer.len() as int));
}

/// Where a text ends with a suffix, the text and a tail end with the suffix
/// and that tail.
pub proof fn lemma_suffix_before(whole: Seq<char>, suffix: Seq<char>, tail: Seq<char>)
    requires
        suffix.is_suffix_of(whole),
    ensures
        (suffix + tail).is_suffix_of(whole + tail),
{
    let longer = whole + tail;
    let ending = suffix + tail;
    assert(ending =~= longer.subrange(longer.len() - ending.len(), longer.len() as int));
}

} // verus!
