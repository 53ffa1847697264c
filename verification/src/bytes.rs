//! Substring search over byte sequences.

use vstd::prelude::*;

verus! {

/// `needle` stands in `hay` at offset `at`.
pub open spec fn occurs_at(hay: Seq<u8>, needle: Seq<u8>, at: int) -> bool {
    &&& 0 <= at
    &&& at + needle.len() <= hay.len()
    &&& hay.subrange(at, at + needle.len()) == needle
}

/// `needle` stands somewhere in `hay`.
pub open spec fn contains_seq(hay: Seq<u8>, needle: Seq<u8>) -> bool {
    exists|at: int| occurs_at(hay, needle, at)
}

/// `needle` stands in `hay` at some offset in `[from, to)`.
pub open spec fn occurs_within(hay: Seq<u8>, needle: Seq<u8>, from: int, to: int) -> bool {
    exists|at: int| from <= at < to && occurs_at(hay, needle, at)
}

/// `at` is the least offset at or after `from` at which `needle` stands in
/// `hay`.
pub open spec fn is_first_occurrence(hay: Seq<u8>, needle: Seq<u8>, from: int, at: int) -> bool {
    &&& from <= at
    &&& occurs_at(hay, needle, at)
    &&& !occurs_within(hay, needle, from, at)
}

/// The least offset at or after `from` at which `needle` stands in `hay`,
/// where there is one.
pub open spec fn first_occurrence(hay: Seq<u8>, needle: Seq<u8>, from: int) -> int {
    choose|at: int| is_first_occurrence(hay, needle, from, at)
}

/// How far the search moves on from the start of an occurrence: by the length
/// of the needle, and by one byte where the needle is empty.
pub open spec fn step(needle: Seq<u8>) -> int {
    if needle.len() == 0 {
        1
    } else {
        needle.len() as int
    }
}

/// The offsets of the occurrences of `needle` in `hay` that a search from
/// `cursor` meets, left to right, each search starting where the occurrence
/// before it ended.
pub open spec fn occurrences(hay: Seq<u8>, needle: Seq<u8>, cursor: int) -> Seq<int>
    decreases hay.len() + 1 - cursor,
{
    let at = first_occurrence(hay, needle, cursor);
    if 0 <= cursor && is_first_occurrence(hay, needle, cursor, at) {
        seq![at] + occurrences(hay, needle, at + step(needle))
    } else {
        Seq::empty()
    }
}

/// There is only one first occurrence.
pub proof fn lemma_first_occurrence_unique(hay: Seq<u8>, needle: Seq<u8>, from: int, at: int)
    requires
        is_first_occurrence(hay, needle, from, at),
    ensures
        first_occurrence(hay, needle, from) == at,
{
    let other = first_occurrence(hay, needle, from);
    assert(is_first_occurrence(hay, needle, from, other));
    if other < at {
        assert(from <= other < at && occurs_at(hay, needle, other));
    } else if at < other {
        assert(from <= at < other && occurs_at(hay, needle, at));
    }
}

/// Where a first occurrence is known, the occurrences are that one and those
/// that follow it.
pub proof fn lemma_occurrences_found(hay: Seq<u8>, needle: Seq<u8>, cursor: int, at: int)
    requires
        0 <= cursor,
        is_first_occurrence(hay, needle, cursor, at),
    ensures
        occurrences(hay, needle, cursor) == seq![at] + occurrences(
            hay,
            needle,
            at + step(needle),
        ),
{
    lemma_first_occurrence_unique(hay, needle, cursor, at);
}

/// Where the needle stands nowhere at or after the cursor, there are no
/// occurrences.
pub proof fn lemma_occurrences_none(hay: Seq<u8>, needle: Seq<u8>, cursor: int)
    requires
        forall|at: int| cursor <= at ==> !occurs_at(hay, needle, at),
    ensures
        occurrences(hay, needle, cursor) == Seq::<int>::empty(),
{
}

/// The occurrences that a search meets are occurrences, lie at or after the
/// cursor, and do not overlap: each starts at least one step after the start
/// of the one before it.
pub proof fn lemma_occurrences_apart(hay: Seq<u8>, needle: Seq<u8>, cursor: int)
    requires
        0 <= cursor,
    ensures
        forall|i: int|
            0 <= i < occurrences(hay, needle, cursor).len() ==> cursor <= #[trigger] occurrences(
                hay,
                needle,
                cursor,
            )[i] && occurs_at(hay, needle, occurrences(hay, needle, cursor)[i]),
        forall|i: int|
            0 <= i < occurrences(hay, needle, cursor).len() - 1 ==> #[trigger] occurrences(
                hay,
                needle,
                cursor,
            )[i] + step(needle) <= occurrences(hay, needle, cursor)[i + 1],
    decreases hay.len() + 1 - cursor,
{
    let occs = occurrences(hay, needle, cursor);
    let at = first_occurrence(hay, needle, cursor);
    if is_first_occurrence(hay, needle, cursor, at) {
        let rest = occurrences(hay, needle, at + step(needle));
        lemma_occurrences_apart(hay, needle, at + step(needle));
        assert forall|i: int| 0 <= i < occs.len() implies cursor <= #[trigger] occs[i]
            && occurs_at(hay, needle, occs[i]) by {
            if i > 0 {
                assert(occs[i] == rest[i - 1]);
            }
        }
        assert forall|i: int| 0 <= i < occs.len() - 1 implies #[trigger] occs[i] + step(needle)
            <= occs[i + 1] by {
            assert(occs[i + 1] == rest[i]);
            if i > 0 {
                assert(occs[i] == rest[i - 1]);
            }
        }
    }
}

/// A search meets at most as many occurrences as there are offsets left.
pub proof fn lemma_occurrences_bounded(hay: Seq<u8>, needle: Seq<u8>, cursor: int)
    requires
        0 <= cursor <= hay.len() + 1,
    ensures
        occurrences(hay, needle, cursor).len() <= hay.len() + 1 - cursor,
    decreases hay.len() + 1 - cursor,
{
    let at = first_occurrence(hay, needle, cursor);
    if is_first_occurrence(hay, needle, cursor, at) {
        lemma_occurrences_bounded(hay, needle, at + step(needle));
    }
}

/// The empty needle occurs at every offset of a text, its end included, and
/// a search for it meets each of them once.
pub proof fn lemma_occurrences_of_empty(hay: Seq<u8>, cursor: int)
    requires
        0 <= cursor <= hay.len() + 1,
    ensures
        occurrences(hay, Seq::<u8>::empty(), cursor) == Seq::new(
            (hay.len() + 1 - cursor) as nat,
            |i: int| cursor + i,
        ),
    decreases hay.len() + 1 - cursor,
{
    let needle = Seq::<u8>::empty();
    if cursor <= hay.len() {
        assert(hay.subrange(cursor, cursor + 0) =~= needle);
        assert(is_first_occurrence(hay, needle, cursor, cursor));
        lemma_occurrences_found(hay, needle, cursor, cursor);
        lemma_occurrences_of_empty(hay, cursor + 1);
        assert(occurrences(hay, needle, cursor) =~= Seq::new(
            (hay.len() + 1 - cursor) as nat,
            |i: int| cursor + i,
        ));
    } else {
        lemma_occurrences_none(hay, needle, cursor);
        assert(occurrences(hay, needle, cursor) =~= Seq::new(
            (hay.len() + 1 - cursor) as nat,
            |i: int| cursor + i,
        ));
    }
}

/// Whether `needle` stands in `hay` at offset `at`, byte by byte.
pub fn matches_at(hay: &[u8], needle: &[u8], at: usize) -> (r: bool)
    ensures
        r == occurs_at(hay@, needle@, at as int),
{
    let h: usize = hay.len();
    let n: usize = needle.len();
    if n > h || at > h - n {
        return false;
    }
    let mut k: usize = 0;
    while k < n
        invariant
            h == hay@.len(),
            n == needle@.len(),
            at + n <= h,
            k <= n,
            forall|j: int| 0 <= j < k ==> hay@[at + j] == needle@[j],
        decreases n - k,
    {
        if hay[at + k] != needle[k] {
            proof {
                assert(hay@.subrange(at as int, at + n)[k as int] == hay@[at + k]);
            }
            return false;
        }
        k += 1;
    }
    proof {
        assert(hay@.subrange(at as int, at + n) =~= needle@);
    }
    true
}

/// The least offset at or after `from` at which `needle` stands in `hay`.
pub fn find_from(hay: &[u8], needle: &[u8], from: usize) -> (r: Option<usize>)
    ensures
        match r {
            Some(at) => is_first_occurrence(hay@, needle@, from as int, at as int),
            None => forall|at: int| from <= at ==> !occurs_at(hay@, needle@, at),
        },
{
    let h: usize = hay.len();
    let n: usize = needle.len();
    if n > h || from > h - n {
        return None;
    }
    let last: usize = h - n;
    let mut at: usize = from;
    loop
        invariant
            h == hay@.len(),
            n == needle@.len(),
            last == h - n,
            from <= at <= last,
            forall|j: int| from <= j < at ==> !occurs_at(hay@, needle@, j),
        decreases last - at,
    {
        if matches_at(hay, needle, at) {
            return Some(at);
        }
        if at == last {
            return None;
        }
        at += 1;
    }
}

/// Whether `needle` stands anywhere in `hay`.
pub fn contains(hay: &[u8], needle: &[u8]) -> (r: bool)
    ensures
        r == contains_seq(hay@, needle@),
{
    find_from(hay, needle, 0).is_some()
}

} // verus!
