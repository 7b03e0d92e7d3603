use core::ops::Range;
use vstd::prelude::*;
use vstd::string::StringSliceAdditionalSpecFns;

verus! {

/// Line starts of the first `n` bytes of `b`: offset 0, then the offset just
/// past each newline byte, in ascending order.
pub open spec fn starts_upto(b: Seq<u8>, n: nat) -> Seq<usize>
    decreases n,
{
    if n == 0 {
        seq![0usize]
    } else {
        let prev = starts_upto(b, (n - 1) as nat);
        if b[n - 1] == 10u8 {
            prev.push(n as usize)
        } else {
            prev
        }
    }
}

/// The line-start table of a whole text, given as its bytes.
pub open spec fn line_starts_of(b: Seq<u8>) -> Seq<usize> {
    starts_upto(b, b.len())
}

/// A line-start table as the text produces it: it begins with 0 and strictly
/// increases.
pub open spec fn starts_wf(s: Seq<usize>) -> bool {
    &&& s.len() >= 1
    &&& s[0] == 0
    &&& forall|i: int, j: int| 0 <= i < j < s.len() ==> s[i] < s[j]
}

/// Where line `line_index` starts; one past the last line, the end of the text.
pub open spec fn spec_line_start(s: Seq<usize>, length: usize, line_index: int) -> Option<usize> {
    if 0 <= line_index < s.len() {
        Some(s[line_index])
    } else if line_index == s.len() {
        Some(length)
    } else {
        None
    }
}

/// `i` is a line whose start is at most `byte_index` and after which no line
/// starts at or before `byte_index`.
pub open spec fn is_line_of(s: Seq<usize>, byte_index: usize, i: int) -> bool {
    &&& 0 <= i < s.len()
    &&& s[i] <= byte_index
    &&& (i + 1 < s.len() ==> byte_index < s[i + 1])
}

/// The line on which `byte_index` falls: the last one that starts at or
/// before it (past the end of the text, the last line).
pub open spec fn spec_line_index(s: Seq<usize>, byte_index: usize) -> int {
    choose|i: int| is_line_of(s, byte_index, i)
}

/// The byte range of line `line_index`: from its start to the next line's start.
pub open spec fn spec_line_range(s: Seq<usize>, length: usize, line_index: int) -> Option<Range<usize>> {
    match (spec_line_start(s, length, line_index), spec_line_start(s, length, line_index + 1)) {
        (Some(a), Some(b)) => Some(Range { start: a, end: b }),
        _ => None,
    }
}

proof fn lemma_starts_upto(b: Seq<u8>, n: nat)
    requires
        n <= b.len(),
        b.len() <= usize::MAX,
    ensures
        starts_wf(starts_upto(b, n)),
        forall|i: int| 0 <= i < starts_upto(b, n).len() ==> starts_upto(b, n)[i] <= n,
    decreases n,
{
    if n > 0 {
        lemma_starts_upto(b, (n - 1) as nat);
    }
}

/// The table computed from any text is well formed, and no line starts past
/// the end of the text.
pub proof fn lemma_line_starts_wf(b: Seq<u8>)
    requires
        b.len() <= usize::MAX,
    ensures
        starts_wf(line_starts_of(b)),
        forall|i: int| 0 <= i < line_starts_of(b).len() ==> line_starts_of(b)[i] <= b.len(),
{
    lemma_starts_upto(b, b.len());
}

proof fn lemma_line_of_unique(s: Seq<usize>, byte_index: usize, i: int, j: int)
    requires
        starts_wf(s),
        is_line_of(s, byte_index, i),
        is_line_of(s, byte_index, j),
    ensures
        i == j,
{
    if i < j {
        assert(s[i + 1] <= s[j]);
    } else if j < i {
        assert(s[j + 1] <= s[i]);
    }
}

/// In a well-formed table every byte index falls on exactly one line, the
/// one that `spec_line_index` names.
pub proof fn lemma_line_index_exact(s: Seq<usize>, byte_index: usize, i: int)
    requires
        starts_wf(s),
        is_line_of(s, byte_index, i),
    ensures
        spec_line_index(s, byte_index) == i,
{
    let j = spec_line_index(s, byte_index);
    lemma_line_of_unique(s, byte_index, i, j);
}

/// The start of every line maps back to that line.
pub proof fn lemma_round_trip(s: Seq<usize>, length: usize, line_index: int)
    requires
        starts_wf(s),
        0 <= line_index < s.len(),
    ensures
        spec_line_start(s, length, line_index) is Some,
        spec_line_index(s, spec_line_start(s, length, line_index)->0) == line_index,
{
    let b = s[line_index];
    assert(is_line_of(s, b, line_index));
    lemma_line_index_exact(s, b, line_index);
}

/// The range of the last line ends at the end of the text.
pub proof fn lemma_range_end_sentinel(s: Seq<usize>, length: usize)
    requires
        starts_wf(s),
    ensures
        spec_line_range(s, length, s.len() - 1) is Some,
        spec_line_range(s, length, s.len() - 1)->0.end == length,
{
}

/// One past the last line starts at the end of the text; beyond that no line
/// starts at all.
pub proof fn lemma_line_start_out_of_range(s: Seq<usize>, length: usize, line_index: int)
    requires
        line_index >= s.len(),
    ensures
        line_index == s.len() ==> spec_line_start(s, length, line_index) == Some(length),
        line_index > s.len() ==> spec_line_start(s, length, line_index) is None,
{
}

/// Computes the line-start table of `text`: offset 0, then the offset just
/// past each `'\n'` byte.
pub fn compute_line_starts(text: &str) -> (r: Vec<usize>)
    ensures
        r@ == line_starts_of(text.spec_bytes()),
        starts_wf(r@),
{
    let bytes = text.as_bytes();
    let mut r: Vec<usize> = Vec::new();
    r.push(0);
    let mut i: usize = 0;
    while i < bytes.len()
        invariant
            bytes@ == text.spec_bytes(),
            i <= bytes@.len(),
            r@ == starts_upto(bytes@, i as nat),
        decreases bytes@.len() - i,
    {
        if bytes[i] == 10u8 {
            r.push(i + 1);
        }
        i = i + 1;
    }
    proof {
        lemma_line_starts_wf(bytes@);
    }
    r
}

/// Where line `line_index` starts, given the table and the text's length.
pub fn line_start_in(starts: &Vec<usize>, length: usize, line_index: usize) -> (r: Option<usize>)
    ensures
        r == spec_line_start(starts@, length, line_index as int),
{
    if line_index < starts.len() {
        Some(starts[line_index])
    } else if line_index == starts.len() {
        Some(length)
    } else {
        None
    }
}

/// The line on which `byte_index` falls, by binary search; a byte index past
/// the end of the text falls on the last line.
pub fn line_index_in(starts: &Vec<usize>, byte_index: usize) -> (r: Option<usize>)
    requires
        starts_wf(starts@),
    ensures
        r == Some(spec_line_index(starts@, byte_index) as usize),
        is_line_of(starts@, byte_index, spec_line_index(starts@, byte_index)),
{
    let mut lo: usize = 0;
    let mut hi: usize = starts.len();
    while hi - lo > 1
        invariant
            0 <= lo < hi <= starts@.len(),
            starts@[lo as int] <= byte_index,
            hi < starts@.len() ==> byte_index < starts@[hi as int],
        decreases hi - lo,
    {
        let mid = lo + (hi - lo) / 2;
        if starts[mid] <= byte_index {
            lo = mid;
        } else {
            hi = mid;
        }
    }
    proof {
        lemma_line_index_exact(starts@, byte_index, lo as int);
    }
    Some(lo)
}

/// The byte range of line `line_index`, from its start to the start of the
/// next line (the end of the text for the last line).
pub fn line_range_in(starts: &Vec<usize>, length: usize, line_index: usize) -> (r: Option<Range<usize>>)
    ensures
        r == spec_line_range(starts@, length, line_index as int),
{
    if line_index < starts.len() {
        let start = starts[line_index];
        let end = if line_index + 1 < starts.len() {
            starts[line_index + 1]
        } else {
            length
        };
        Some(start..end)
    } else {
        None
    }
}

} // verus!
