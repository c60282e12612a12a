//! Page counting over raw PDF bytes: the number of `/Type /Page` object
//! markers followed by a line break or space, which excludes the `/Type
//! /Pages` tree nodes.

use vstd::prelude::*;

verus! {

/// The eleven bytes of `/Type /Page`.
pub open spec fn page_pattern() -> Seq<u8> {
    seq![47u8, 84u8, 121u8, 112u8, 101u8, 32u8, 47u8, 80u8, 97u8, 103u8, 101u8]
}

/// A page marker starts at `i`: the pattern, then a newline, carriage
/// return or space (ruling out `/Type /Pages`).
pub open spec fn page_marker_at(s: Seq<u8>, i: int) -> bool {
    &&& 0 <= i
    &&& i + 12 <= s.len()
    &&& s.subrange(i, i + 11) == page_pattern()
    &&& (s[i + 11] == 10 || s[i + 11] == 13 || s[i + 11] == 32)
}

/// How many page markers start before position `n`.
pub open spec fn count_page_markers_before(s: Seq<u8>, n: int) -> int
    decreases n,
{
    if n <= 0 {
        0
    } else {
        count_page_markers_before(s, n - 1) + if page_marker_at(s, n - 1) {
            1int
        } else {
            0int
        }
    }
}

/// Whether a page marker starts at position `i` of the data.
fn marker_at(data: &Vec<u8>, i: usize) -> (b: bool)
    requires
        i + 12 <= data@.len(),
    ensures
        b == page_marker_at(data@, i as int),
{
    let len: usize = data.len();
    let matches_pattern = data[i] == 47 && data[i + 1] == 84 && data[i + 2] == 121 && data[i + 3]
        == 112 && data[i + 4] == 101 && data[i + 5] == 32 && data[i + 6] == 47 && data[i + 7] == 80
        && data[i + 8] == 97 && data[i + 9] == 103 && data[i + 10] == 101;
    let tail = data[i + 11];
    proof {
        if matches_pattern {
            assert(data@.subrange(i as int, i + 11) =~= page_pattern());
        } else {
            if data@.subrange(i as int, i + 11) == page_pattern() {
                assert(forall|k: int|
                    0 <= k < 11 ==> data@.subrange(i as int, i + 11)[k] == page_pattern()[k]);
            }
        }
    }
    matches_pattern && (tail == 10 || tail == 13 || tail == 32)
}

/// Count the page objects of a PDF document given as raw bytes.
pub fn count_pdf_pages(data: &Vec<u8>) -> (n: usize)
    ensures
        n == count_page_markers_before(data@, data@.len() as int),
{
    let len: usize = data.len();
    let mut n: usize = 0;
    let mut i: usize = 0;
    while i < len
        invariant
            len == data@.len(),
            i <= len,
            n <= i,
            n == count_page_markers_before(data@, i as int),
        decreases len - i,
    {
        if len >= 12 && i <= len - 12 {
            if marker_at(data, i) {
                n += 1;
            }
        } else {
            proof {
                assert(!page_marker_at(data@, i as int));
            }
        }
        i += 1;
    }
    n
}

} // verus!
