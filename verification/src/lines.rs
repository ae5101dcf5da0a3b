//! The index of line starts.
//!
//! A line starts at the first byte and behind every line feed; a line feed belongs to the line that
//! it ends.
use vstd::prelude::*;

verus! {

/// `offsets` lists, in order, where the lines of `bytes` start.
pub open spec fn is_line_index(bytes: Seq<u8>, offsets: Seq<usize>) -> bool {
    &&& offsets.len() > 0
    &&& offsets[0] == 0
    &&& forall|i: int, j: int| 0 <= i < j < offsets.len() ==> offsets[i] < offsets[j]
    &&& forall|i: int|
        1 <= i < offsets.len() ==> 1 <= #[trigger] offsets[i] <= bytes.len() && bytes[offsets[i]
            - 1] == 0x0a
    &&& forall|p: int|
        0 <= p < bytes.len() && #[trigger] bytes[p] == 0x0a ==> exists|i: int|
            1 <= i < offsets.len() && #[trigger] offsets[i] == p + 1
}

/// Where line `i` ends: where the next line starts, or at the end of `bytes`.
pub open spec fn line_end(bytes: Seq<u8>, offsets: Seq<usize>, i: int) -> int {
    if i + 1 < offsets.len() {
        offsets[i + 1] as int
    } else {
        bytes.len() as int
    }
}

/// The bytes of line `i`, its line feed included.
pub open spec fn line_bytes(bytes: Seq<u8>, offsets: Seq<usize>, i: int) -> Seq<u8> {
    bytes.subrange(offsets[i] as int, line_end(bytes, offsets, i))
}

/// Line `i` is the line that holds `offset`: the last line that starts at it or before it.
pub open spec fn is_line_of(offsets: Seq<usize>, offset: usize, i: int) -> bool {
    &&& 0 <= i < offsets.len()
    &&& offsets[i] <= offset
    &&& i + 1 < offsets.len() ==> offset < offsets[i + 1]
}

/// The line that holds `offset`.
pub open spec fn line_of(offsets: Seq<usize>, offset: usize) -> int {
    choose|i: int| is_line_of(offsets, offset, i)
}

/// Every line lies inside `bytes`, and the lines follow one another.
pub proof fn lemma_line_bounds(bytes: Seq<u8>, offsets: Seq<usize>, i: int)
    requires
        is_line_index(bytes, offsets),
        0 <= i < offsets.len(),
    ensures
        0 <= offsets[i] <= line_end(bytes, offsets, i) <= bytes.len(),
        i + 1 < offsets.len() ==> offsets[i] < line_end(bytes, offsets, i),
{
}

/// A line feed stands at the end of every line but the last, and nowhere else in a line.
pub proof fn lemma_line_feeds(bytes: Seq<u8>, offsets: Seq<usize>, i: int, p: int)
    requires
        is_line_index(bytes, offsets),
        0 <= i < offsets.len(),
        offsets[i] <= p < line_end(bytes, offsets, i),
    ensures
        bytes[p] == 0x0a <==> i + 1 < offsets.len() && p + 1 == offsets[i + 1],
{
    if bytes[p] == 0x0a {
        let j = choose|j: int| 1 <= j < offsets.len() && #[trigger] offsets[j] == p + 1;
        if j <= i {
            assert(offsets[j] <= offsets[i]);
        } else if j > i + 1 {
            assert(offsets[i + 1] < offsets[j]);
        }
    }
}

/// Every line but an empty last one holds the bytes it says: the line that holds an offset inside
/// line `i` is line `i`.
pub proof fn law_line_of_inner_offset(
    bytes: Seq<u8>,
    offsets: Seq<usize>,
    i: int,
    offset: usize,
    j: int,
)
    requires
        is_line_index(bytes, offsets),
        0 <= i < offsets.len(),
        offsets[i] <= offset < line_end(bytes, offsets, i),
        is_line_of(offsets, offset, j),
    ensures
        j == i,
{
    if j < i {
        assert(offsets[j + 1] <= offsets[i]);
    } else if i < j {
        assert(offsets[i + 1] <= offsets[j]);
    }
}

/// An offset lies in one line only.
pub proof fn law_line_of_unique(bytes: Seq<u8>, offsets: Seq<usize>, offset: usize, i: int, j: int)
    requires
        is_line_index(bytes, offsets),
        is_line_of(offsets, offset, i),
        is_line_of(offsets, offset, j),
    ensures
        i == j,
{
    if i < j {
        assert(offsets[i + 1] <= offsets[j]);
    } else if j < i {
        assert(offsets[j + 1] <= offsets[i]);
    }
}

/// Where a line starts, that line starts: the start of line `i` lies in line `i`.
pub proof fn law_line_of_start(bytes: Seq<u8>, offsets: Seq<usize>, i: int)
    requires
        is_line_index(bytes, offsets),
        0 <= i < offsets.len(),
    ensures
        is_line_of(offsets, offsets[i], i),
{
}

/// There is one index of the lines of `bytes`, and no other.
pub proof fn law_line_index_unique(bytes: Seq<u8>, a: Seq<usize>, b: Seq<usize>)
    requires
        is_line_index(bytes, a),
        is_line_index(bytes, b),
    ensures
        a == b,
{
    lemma_index_prefix(bytes, a, b, a.len() as int);
    lemma_index_prefix(bytes, b, a, b.len() as int);
    assert(a =~= b);
}

proof fn lemma_index_prefix(bytes: Seq<u8>, a: Seq<usize>, b: Seq<usize>, n: int)
    requires
        is_line_index(bytes, a),
        is_line_index(bytes, b),
        0 <= n <= a.len(),
    ensures
        n <= b.len(),
        forall|i: int| 0 <= i < n ==> a[i] == b[i],
    decreases n,
{
    if n > 1 {
        lemma_index_prefix(bytes, a, b, n - 1);
        let p = a[n - 1] - 1;
        assert(bytes[p] == 0x0a);
        let j = choose|j: int| 1 <= j < b.len() && #[trigger] b[j] == p + 1;
        if j < n - 1 {
            assert(a[j] < a[n - 1]);
        }
        assert(j >= n - 1);
        if b[n - 1] != a[n - 1] {
            assert(b[n - 1] < b[j]);
            let q = b[n - 1] - 1;
            assert(bytes[q] == 0x0a);
            let k = choose|k: int| 1 <= k < a.len() && #[trigger] a[k] == q + 1;
            assert(k < n - 1) by {
                if k > n - 1 {
                    assert(a[n - 1] < a[k]);
                }
            }
            assert(b[k] < b[n - 1]);
        }
    }
}

/// The lines `0..n` one after the other.
pub open spec fn first_lines(bytes: Seq<u8>, offsets: Seq<usize>, n: int) -> Seq<u8>
    decreases n,
{
    if n <= 0 {
        Seq::empty()
    } else {
        first_lines(bytes, offsets, n - 1) + line_bytes(bytes, offsets, n - 1)
    }
}

proof fn lemma_first_lines(bytes: Seq<u8>, offsets: Seq<usize>, n: int)
    requires
        is_line_index(bytes, offsets),
        0 < n <= offsets.len(),
    ensures
        first_lines(bytes, offsets, n) == bytes.take(line_end(bytes, offsets, n - 1)),
    decreases n,
{
    lemma_line_bounds(bytes, offsets, n - 1);
    if n > 1 {
        lemma_first_lines(bytes, offsets, n - 1);
        lemma_line_bounds(bytes, offsets, n - 2);
    } else {
        assert(first_lines(bytes, offsets, 0) =~= Seq::<u8>::empty());
    }
    assert(first_lines(bytes, offsets, n) =~= bytes.take(line_end(bytes, offsets, n - 1)));
}

/// The lines one after the other are the whole of `bytes`: none of it is lost or shown twice.
pub proof fn law_lines_make_the_whole(bytes: Seq<u8>, offsets: Seq<usize>)
    requires
        is_line_index(bytes, offsets),
    ensures
        first_lines(bytes, offsets, offsets.len() as int) == bytes,
{
    lemma_first_lines(bytes, offsets, offsets.len() as int);
    assert(bytes.take(bytes.len() as int) =~= bytes);
}

/// Finds where the lines start.
pub fn index_lines(bytes: &[u8]) -> (r: Vec<usize>)
    ensures
        is_line_index(bytes@, r@),
{
    let mut offsets: Vec<usize> = Vec::with_capacity(bytes.len() / 40 + 1);
    offsets.push(0);
    let mut idx: usize = 0;
    while idx < bytes.len()
        invariant
            idx <= bytes@.len(),
            offsets@.len() > 0,
            offsets@[0] == 0,
            forall|i: int, j: int| 0 <= i < j < offsets@.len() ==> offsets@[i] < offsets@[j],
            forall|i: int|
                1 <= i < offsets@.len() ==> 1 <= #[trigger] offsets@[i] <= idx && bytes@[offsets@[i]
                    - 1] == 0x0a,
            forall|p: int|
                0 <= p < idx && #[trigger] bytes@[p] == 0x0a ==> exists|i: int|
                    1 <= i < offsets@.len() && #[trigger] offsets@[i] == p + 1,
        decreases bytes.len() - idx,
    {
        if bytes[idx] == 0x0a {
            let ghost before = offsets@;
            offsets.push(idx + 1);
            proof {
                assert forall|p: int|
                    0 <= p < idx + 1 && #[trigger] bytes@[p] == 0x0a implies exists|i: int|
                    1 <= i < offsets@.len() && #[trigger] offsets@[i] == p + 1 by {
                    if p < idx {
                        let i = choose|i: int| 1 <= i < before.len() && #[trigger] before[i] == p + 1;
                        assert(offsets@[i] == p + 1);
                    } else {
                        assert(offsets@[before.len() as int] == p + 1);
                    }
                }
            }
        }
        idx = idx + 1;
    }
    offsets
}

/// The line that holds `offset`, found by halving.
pub fn line_at(offsets: &Vec<usize>, offset: usize) -> (r: usize)
    requires
        offsets@.len() > 0,
        offsets@[0] == 0,
        forall|i: int, j: int| 0 <= i < j < offsets@.len() ==> offsets@[i] < offsets@[j],
    ensures
        is_line_of(offsets@, offset, r as int),
{
    let mut low: usize = 0;
    let mut high: usize = offsets.len();
    while high - low > 1
        invariant
            forall|i: int, j: int| 0 <= i < j < offsets@.len() ==> offsets@[i] < offsets@[j],
            low < high <= offsets@.len(),
            offsets@[low as int] <= offset,
            high < offsets@.len() ==> offset < offsets@[high as int],
        decreases high - low,
    {
        let middle: usize = low + (high - low) / 2;
        if offsets[middle] <= offset {
            low = middle;
        } else {
            high = middle;
        }
    }
    low
}

} // verus!
