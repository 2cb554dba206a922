//! Comparing what was expected with what was found.

use vstd::prelude::*;

verus! {

/// The outcome of a comparison: how many bytes differ, modulo 2^16, and the
/// first of them. Where nothing differs, every field is 0.
#[derive(Clone, Copy, PartialEq, Eq, Structural, Debug)]
pub struct Diff {
    pub mismatches: u16,
    pub first_offset: u16,
    pub first_expected: u8,
    pub first_actual: u8,
}

/// The number of positions at which two sequences of equal length differ.
pub open spec fn count_diffs(expected: Seq<u8>, actual: Seq<u8>) -> int
    decreases expected.len(),
{
    if expected.len() == 0 {
        0
    } else {
        count_diffs(expected.drop_last(), actual.drop_last()) + if expected.last() != actual.last() {
            1int
        } else {
            0
        }
    }
}

/// The first position at which two sequences of equal length differ.
pub open spec fn first_diff(expected: Seq<u8>, actual: Seq<u8>) -> Option<int>
    decreases expected.len(),
{
    if expected.len() == 0 {
        None
    } else {
        match first_diff(expected.drop_last(), actual.drop_last()) {
            Some(i) => Some(i),
            None => if expected.last() != actual.last() {
                Some(expected.len() - 1)
            } else {
                None
            },
        }
    }
}

/// The outcome of comparing two sequences of equal length.
pub open spec fn diff_of(expected: Seq<u8>, actual: Seq<u8>) -> Diff {
    let mismatches = (count_diffs(expected, actual) % 0x1_0000) as u16;
    match first_diff(expected, actual) {
        Some(i) => Diff {
            mismatches,
            first_offset: (i % 0x1_0000) as u16,
            first_expected: expected[i],
            first_actual: actual[i],
        },
        None => Diff { mismatches, first_offset: 0, first_expected: 0, first_actual: 0 },
    }
}

/// Nothing differs exactly when the sequences are equal, and otherwise the first
/// difference is one, with none before it.
pub proof fn law_diff(expected: Seq<u8>, actual: Seq<u8>)
    requires
        expected.len() == actual.len(),
    ensures
        0 <= count_diffs(expected, actual) <= expected.len(),
        count_diffs(expected, actual) == 0 <==> expected == actual,
        first_diff(expected, actual) is None <==> expected == actual,
        first_diff(expected, actual) matches Some(i) ==> {
            &&& 0 <= i < expected.len()
            &&& expected[i] != actual[i]
            &&& expected.take(i) == actual.take(i)
        },
    decreases expected.len(),
{
    if expected.len() > 0 {
        let e = expected.drop_last();
        let a = actual.drop_last();
        law_diff(e, a);
        assert(expected =~= e.push(expected.last()));
        assert(actual =~= a.push(actual.last()));
        if let Some(i) = first_diff(expected, actual) {
            if first_diff(e, a) is Some {
                assert(expected.take(i) =~= e.take(i));
                assert(actual.take(i) =~= a.take(i));
                assert(e[i] != a[i]);
            } else {
                assert(expected.take(i) =~= e);
                assert(actual.take(i) =~= a);
            }
        }
        if expected == actual {
            assert(e == a);
        } else if e == a {
            assert(expected.last() != actual.last());
        } else {
            assert(expected != actual);
        }
    } else {
        assert(expected =~= actual);
    }
}

/// One more byte that differs counts one more, wherever it stands.
pub proof fn law_diff_counts(expected: Seq<u8>, actual: Seq<u8>, i: int, byte: u8)
    requires
        expected.len() == actual.len(),
        0 <= i < expected.len(),
        actual[i] == expected[i],
        byte != expected[i],
    ensures
        count_diffs(expected, actual.update(i, byte)) == count_diffs(expected, actual) + 1,
        diff_of(expected, actual.update(i, byte)).mismatches == (diff_of(expected, actual).mismatches
            + 1) % 0x1_0000,
    decreases expected.len(),
{
    let changed = actual.update(i, byte);
    let e = expected.drop_last();
    let a = actual.drop_last();
    if i < expected.len() - 1 {
        law_diff_counts(e, a, i, byte);
        assert(changed.drop_last() =~= a.update(i, byte));
    } else {
        assert(changed.drop_last() =~= a);
    }
}

/// A comparison finds nothing exactly when the sequences are equal. Otherwise it
/// names the first byte that differs: where it stands, what it should be, and
/// what it is.
pub proof fn law_diff_found(expected: Seq<u8>, actual: Seq<u8>)
    requires
        expected.len() == actual.len(),
        expected.len() <= 0xffff,
    ensures
        ({
            let diff = diff_of(expected, actual);
            let at = diff.first_offset as int;
            if expected == actual {
                diff.mismatches == 0 && at == 0 && diff.first_expected == 0 && diff.first_actual == 0
            } else {
                &&& 1 <= diff.mismatches <= expected.len()
                &&& 0 <= at < expected.len()
                &&& diff.first_expected == expected[at]
                &&& diff.first_actual == actual[at]
                &&& expected[at] != actual[at]
                &&& forall|j: int| 0 <= j < at ==> expected[j] == actual[j]
            }
        }),
{
    law_diff(expected, actual);
    if let Some(i) = first_diff(expected, actual) {
        assert(forall|j: int| 0 <= j < i ==> expected.take(i)[j] == expected[j]);
        assert(forall|j: int| 0 <= j < i ==> actual.take(i)[j] == actual[j]);
    }
}

/// The first byte that differs is named, with its position modulo 2^16.
pub proof fn law_first_difference(expected: Seq<u8>, actual: Seq<u8>, i: int)
    requires
        expected.len() == actual.len(),
        0 <= i < expected.len(),
        expected[i] != actual[i],
        forall|j: int| 0 <= j < i ==> expected[j] == actual[j],
    ensures
        diff_of(expected, actual).first_offset == i % 0x1_0000,
        diff_of(expected, actual).first_expected == expected[i],
        diff_of(expected, actual).first_actual == actual[i],
{
    law_diff(expected, actual);
    assert(first_diff(expected, actual) is Some);
    let f = first_diff(expected, actual)->Some_0;
    if i < f {
        assert(expected.take(f)[i] == actual.take(f)[i]);
    }
}

/// Compares two sequences of equal length.
pub fn compare(expected: &[u8], actual: &[u8]) -> (diff: Diff)
    requires
        expected@.len() == actual@.len(),
    ensures
        diff == diff_of(expected@, actual@),
{
    let n: usize = expected.len();
    let mut mismatches: u16 = 0;
    let mut first: Option<usize> = None;
    let mut i: usize = 0;
    assert(expected@.take(0) =~= Seq::<u8>::empty());
    while i < n
        invariant
            i <= n,
            n == expected@.len(),
            n == actual@.len(),
            mismatches == count_diffs(expected@.take(i as int), actual@.take(i as int)) % 0x1_0000,
            first is Some <==> first_diff(expected@.take(i as int), actual@.take(i as int)) is Some,
            first matches Some(f) ==> first_diff(expected@.take(i as int), actual@.take(i as int))
                == Some(f as int) && f < n,
        decreases n - i,
    {
        proof {
            let e = expected@.take(i + 1);
            let a = actual@.take(i + 1);
            assert(e.drop_last() =~= expected@.take(i as int));
            assert(a.drop_last() =~= actual@.take(i as int));
        }
        if expected[i] != actual[i] {
            mismatches = mismatches.wrapping_add(1);
            if first.is_none() {
                first = Some(i);
            }
        }
        i = i + 1;
    }
    assert(expected@.take(n as int) =~= expected@);
    assert(actual@.take(n as int) =~= actual@);
    match first {
        Some(f) => Diff {
            mismatches,
            first_offset: (f % 0x1_0000) as u16,
            first_expected: expected[f],
            first_actual: actual[f],
        },
        None => Diff { mismatches, first_offset: 0, first_expected: 0, first_actual: 0 },
    }
}

} // verus!
