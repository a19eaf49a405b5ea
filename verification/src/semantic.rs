//! The semantic index of a markdown document: byte offsets, into the
//! original text, of header lines, fenced code-block markers, and inline
//! link spans.
//!
//! The scan works on the UTF-8 bytes of the text.  A header line is a
//! line that starts with one to six `#` bytes, then one ASCII whitespace
//! byte, then at least one more byte of line content.  A line ends at
//! the next newline, and one carriage return directly before the line's
//! end belongs to the line ending, not to the content — the usual
//! treatment of `\r\n` endings.  Whitespace is the ASCII set only; the
//! scan is byte-based, so a multi-byte Unicode space after the `#` run
//! does not open a header.  A code-block marker is a triple-backtick
//! run, found by a left-to-right non-overlapping scan.  A link span is
//! `[text](url)` with a non-empty bracketed part (no `]` inside) and a
//! non-empty parenthesised part (no `)` inside), also found left to
//! right, resuming after each match.

use vstd::prelude::*;

verus! {

/// The byte offsets of each structural category, in scan order.
#[derive(Debug)]
pub struct SemanticIndex {
    pub headers: Vec<u32>,
    pub code_blocks: Vec<u32>,
    pub links: Vec<u32>,
}

/// The mathematical view of a semantic index.
#[verifier::ext_equal]
pub ghost struct SemanticIndexV {
    pub headers: Seq<u32>,
    pub code_blocks: Seq<u32>,
    pub links: Seq<u32>,
}

impl View for SemanticIndex {
    type V = SemanticIndexV;

    open spec fn view(&self) -> SemanticIndexV {
        SemanticIndexV {
            headers: self.headers@,
            code_blocks: self.code_blocks@,
            links: self.links@,
        }
    }
}

/// Every recorded offset lies within `[0, size)`.
pub open spec fn index_in_range(s: SemanticIndexV, size: int) -> bool {
    &&& forall|i: int| 0 <= i < s.headers.len() ==> 0 <= #[trigger] s.headers[i] < size
    &&& forall|i: int| 0 <= i < s.code_blocks.len() ==> 0 <= #[trigger] s.code_blocks[i] < size
    &&& forall|i: int| 0 <= i < s.links.len() ==> 0 <= #[trigger] s.links[i] < size
}

// ---------------------------------------------------------------------
// Header lines
// ---------------------------------------------------------------------

/// Whitespace bytes that may follow the `#` run of a header line: the
/// ASCII whitespace set (space, tab, carriage return, form feed,
/// vertical tab).  The scan is byte-based, so this is deliberately not
/// the full Unicode whitespace set.
pub open spec fn is_ws_byte(c: u8) -> bool {
    c == 32 || c == 9 || c == 13 || c == 12 || c == 11
}

/// Whether `i` starts a line: the text's start, or right after a newline.
pub open spec fn is_line_start(b: Seq<u8>, i: int) -> bool {
    i == 0 || (0 < i < b.len() && b[i - 1] == 10)
}

/// The number of consecutive `#` bytes at `i`.
pub open spec fn hash_run(b: Seq<u8>, i: int) -> nat
    decreases b.len() - i,
{
    if 0 <= i < b.len() && b[i] == 35 {
        1 + hash_run(b, i + 1)
    } else {
        0
    }
}

/// Whether a header line starts at `i`: a line start, one to six `#`
/// bytes, a whitespace byte, and at least one more byte of line
/// content.  The byte after the whitespace is content only if it is not
/// the newline and not a carriage return that sits directly before the
/// line's end (the next newline, or the end of the text).
pub open spec fn header_line_at(b: Seq<u8>, i: int) -> bool {
    let k = hash_run(b, i);
    &&& is_line_start(b, i)
    &&& 1 <= k <= 6
    &&& i + k + 1 < b.len()
    &&& is_ws_byte(b[i + k])
    &&& b[i + k + 1] != 10
    &&& !(b[i + k + 1] == 13 && (i + k + 2 >= b.len() || b[i + k + 2] == 10))
}

/// The offsets of all header lines at or after `i`, in order.
pub open spec fn header_positions(b: Seq<u8>, i: int) -> Seq<u32>
    decreases b.len() - i,
{
    if i < 0 || i >= b.len() {
        Seq::empty()
    } else if header_line_at(b, i) {
        seq![i as u32] + header_positions(b, i + 1)
    } else {
        header_positions(b, i + 1)
    }
}

proof fn lemma_header_positions_in_range(b: Seq<u8>, i: int)
    requires
        b.len() <= u32::MAX,
    ensures
        forall|j: int| 0 <= j < header_positions(b, i).len()
            ==> i <= #[trigger] header_positions(b, i)[j] < b.len(),
    decreases b.len() - i,
{
    if 0 <= i < b.len() {
        lemma_header_positions_in_range(b, i + 1);
        let ps = header_positions(b, i);
        let rest = header_positions(b, i + 1);
        if header_line_at(b, i) {
            assert forall|j: int| 0 <= j < ps.len() implies i <= #[trigger] ps[j] < b.len() by {
                if j == 0 {
                    assert(ps[0] == i as u32);
                } else {
                    assert(ps[j] == rest[j - 1]);
                }
            }
        }
    }
}

/// Whether a header line starts at `i` in the byte slice.
fn is_header_at(data: &[u8], i: usize) -> (r: bool)
    requires
        i < data@.len(),
    ensures
        r == header_line_at(data@, i as int),
{
    if !(i == 0 || data[i - 1] == 10) {
        return false;
    }
    let mut k: usize = 0;
    while k <= 6 && data.len() - i > k && data[i + k] == 35
        invariant
            i + k <= data@.len(),
            k <= 7,
            hash_run(data@, i as int) == k + hash_run(data@, i + k as int),
        decreases data@.len() - i - k,
    {
        k = k + 1;
    }
    if k == 0 || k > 6 {
        return false;
    }
    proof {
        assert(hash_run(data@, i + k as int) == 0);
    }
    if data.len() - i <= k + 1 {
        return false;
    }
    let w = data[i + k];
    if !(w == 32 || w == 9 || w == 13 || w == 12 || w == 11) {
        return false;
    }
    let nxt = data[i + k + 1];
    if nxt == 10 {
        return false;
    }
    if nxt == 13 && (data.len() - (i + k + 1) == 1 || data[i + k + 2] == 10) {
        return false;
    }
    true
}

/// Scans the text for header lines.
fn scan_headers(data: &[u8]) -> (v: Vec<u32>)
    requires
        data@.len() <= u32::MAX,
    ensures
        v@ == header_positions(data@, 0),
{
    let mut out: Vec<u32> = Vec::new();
    let mut cur: usize = 0;
    while cur < data.len()
        invariant
            cur <= data@.len(),
            data@.len() <= u32::MAX,
            header_positions(data@, 0) == out@ + header_positions(data@, cur as int),
        decreases data@.len() - cur,
    {
        if is_header_at(data, cur) {
            proof {
                assert(out@.push(cur as u32) + header_positions(data@, cur + 1int)
                    =~= out@ + (seq![cur as u32] + header_positions(data@, cur + 1int)));
            }
            out.push(cur as u32);
        } else {
            proof {
                assert(out@ + header_positions(data@, cur + 1int)
                    =~= out@ + header_positions(data@, cur as int));
            }
        }
        cur = cur + 1;
    }
    proof {
        assert(out@ + header_positions(data@, cur as int) =~= out@);
    }
    out
}

// ---------------------------------------------------------------------
// Fenced code-block markers
// ---------------------------------------------------------------------

/// Whether a triple backtick starts at `i`.
pub open spec fn fence_at(b: Seq<u8>, i: int) -> bool {
    0 <= i && i + 3 <= b.len() && b[i] == 96 && b[i + 1] == 96 && b[i + 2] == 96
}

/// The offsets of triple backticks at or after `i`, non-overlapping,
/// left to right.
pub open spec fn fence_positions(b: Seq<u8>, i: int) -> Seq<u32>
    decreases b.len() - i,
{
    if i < 0 || i + 3 > b.len() {
        Seq::empty()
    } else if fence_at(b, i) {
        seq![i as u32] + fence_positions(b, i + 3)
    } else {
        fence_positions(b, i + 1)
    }
}

proof fn lemma_fence_positions_in_range(b: Seq<u8>, i: int)
    requires
        b.len() <= u32::MAX,
    ensures
        forall|j: int| 0 <= j < fence_positions(b, i).len()
            ==> i <= #[trigger] fence_positions(b, i)[j] < b.len(),
    decreases b.len() - i,
{
    if 0 <= i && i + 3 <= b.len() {
        let ps = fence_positions(b, i);
        if fence_at(b, i) {
            lemma_fence_positions_in_range(b, i + 3);
            let rest = fence_positions(b, i + 3);
            assert forall|j: int| 0 <= j < ps.len() implies i <= #[trigger] ps[j] < b.len() by {
                if j == 0 {
                    assert(ps[0] == i as u32);
                } else {
                    assert(ps[j] == rest[j - 1]);
                }
            }
        } else {
            lemma_fence_positions_in_range(b, i + 1);
            let rest = fence_positions(b, i + 1);
            assert forall|j: int| 0 <= j < ps.len() implies i <= #[trigger] ps[j] < b.len() by {
                assert(ps[j] == rest[j]);
            }
        }
    }
}

/// Scans the text for triple-backtick markers.
fn scan_fences(data: &[u8]) -> (v: Vec<u32>)
    requires
        data@.len() <= u32::MAX,
    ensures
        v@ == fence_positions(data@, 0),
{
    let mut out: Vec<u32> = Vec::new();
    let mut cur: usize = 0;
    while cur <= data.len() && data.len() - cur >= 3
        invariant
            cur <= data@.len() + 3,
            data@.len() <= u32::MAX,
            fence_positions(data@, 0) == out@ + fence_positions(data@, cur as int),
        decreases data@.len() + 3 - cur,
    {
        if data[cur] == 96 && data[cur + 1] == 96 && data[cur + 2] == 96 {
            proof {
                assert(out@.push(cur as u32) + fence_positions(data@, cur + 3int)
                    =~= out@ + (seq![cur as u32] + fence_positions(data@, cur + 3int)));
            }
            out.push(cur as u32);
            cur = cur + 3;
        } else {
            proof {
                assert(out@ + fence_positions(data@, cur + 1int)
                    =~= out@ + fence_positions(data@, cur as int));
            }
            cur = cur + 1;
        }
    }
    proof {
        assert(out@ + fence_positions(data@, cur as int) =~= out@);
    }
    out
}

// ---------------------------------------------------------------------
// Inline link spans
// ---------------------------------------------------------------------

/// The index of the first `c` byte at or after `i`, or the length when
/// there is none.
pub open spec fn find_byte(b: Seq<u8>, i: int, c: u8) -> int
    decreases b.len() - i,
{
    if 0 <= i < b.len() {
        if b[i] == c {
            i
        } else {
            find_byte(b, i + 1, c)
        }
    } else {
        b.len() as int
    }
}

proof fn lemma_find_byte_bounds(b: Seq<u8>, i: int, c: u8)
    requires
        0 <= i <= b.len(),
    ensures
        i <= find_byte(b, i, c) <= b.len(),
        find_byte(b, i, c) < b.len() ==> b[find_byte(b, i, c)] == c,
    decreases b.len() - i,
{
    if i < b.len() && b[i] != c {
        lemma_find_byte_bounds(b, i + 1, c);
    }
}

/// Whether a link span `[text](url)` starts at `i`: a `[`, a non-empty
/// run without `]`, a `]` immediately followed by `(`, then a non-empty
/// run without `)`, then a `)`.
pub open spec fn link_at(b: Seq<u8>, i: int) -> bool {
    let j = find_byte(b, i + 1, 93);
    let k = find_byte(b, j + 2, 41);
    &&& 0 <= i < b.len()
    &&& b[i] == 91
    &&& i + 1 < j < b.len()
    &&& j + 1 < b.len()
    &&& b[j + 1] == 40
    &&& j + 2 < k < b.len()
}

/// One past the closing `)` of the link span at `i`.
pub open spec fn link_end(b: Seq<u8>, i: int) -> int {
    find_byte(b, find_byte(b, i + 1, 93) + 2, 41) + 1
}

/// The offsets of link spans at or after `i`, left to right, resuming
/// after each match.
pub open spec fn link_positions(b: Seq<u8>, i: int) -> Seq<u32>
    decreases b.len() - i,
{
    if i < 0 || i >= b.len() {
        Seq::empty()
    } else if link_at(b, i) {
        let e = link_end(b, i);
        let nxt = if i < e <= b.len() { e } else { i + 1 };
        seq![i as u32] + link_positions(b, nxt)
    } else {
        link_positions(b, i + 1)
    }
}

proof fn lemma_link_positions_in_range(b: Seq<u8>, i: int)
    requires
        b.len() <= u32::MAX,
    ensures
        forall|j: int| 0 <= j < link_positions(b, i).len()
            ==> i <= #[trigger] link_positions(b, i)[j] < b.len(),
    decreases b.len() - i,
{
    if 0 <= i < b.len() {
        let ps = link_positions(b, i);
        if link_at(b, i) {
            let e = link_end(b, i);
            let nxt = if i < e <= b.len() { e } else { i + 1 };
            lemma_link_positions_in_range(b, nxt);
            let rest = link_positions(b, nxt);
            assert forall|j: int| 0 <= j < ps.len() implies i <= #[trigger] ps[j] < b.len() by {
                if j == 0 {
                    assert(ps[0] == i as u32);
                } else {
                    assert(ps[j] == rest[j - 1]);
                }
            }
        } else {
            lemma_link_positions_in_range(b, i + 1);
            let rest = link_positions(b, i + 1);
            assert forall|j: int| 0 <= j < ps.len() implies i <= #[trigger] ps[j] < b.len() by {
                assert(ps[j] == rest[j]);
            }
        }
    }
}

/// The index of the first `c` byte at or after `i` in the slice, or the
/// slice's length when there is none.
fn find_byte_from(data: &[u8], i: usize, c: u8) -> (j: usize)
    requires
        i <= data@.len(),
    ensures
        j as int == find_byte(data@, i as int, c),
{
    let mut cur: usize = i;
    while cur < data.len()
        invariant
            i <= cur <= data@.len(),
            find_byte(data@, i as int, c) == find_byte(data@, cur as int, c),
        decreases data@.len() - cur,
    {
        if data[cur] == c {
            return cur;
        }
        cur = cur + 1;
    }
    cur
}

/// Scans the text for link spans.
fn scan_links(data: &[u8]) -> (v: Vec<u32>)
    requires
        data@.len() <= u32::MAX,
    ensures
        v@ == link_positions(data@, 0),
{
    let mut out: Vec<u32> = Vec::new();
    let mut cur: usize = 0;
    while cur < data.len()
        invariant
            cur <= data@.len(),
            data@.len() <= u32::MAX,
            link_positions(data@, 0) == out@ + link_positions(data@, cur as int),
        decreases data@.len() - cur,
    {
        let mut matched = false;
        let mut nxt: usize = cur + 1;
        if data[cur] == 91 {
            let j = find_byte_from(data, cur + 1, 93);
            if j < data.len() && j > cur + 1 && data.len() - j > 1 && data[j + 1] == 40 {
                let k = find_byte_from(data, j + 2, 41);
                if k < data.len() && k > j + 2 {
                    matched = true;
                    nxt = k + 1;
                    proof {
                        assert(link_at(data@, cur as int));
                        assert(link_end(data@, cur as int) == k + 1int);
                    }
                }
            }
        }
        if matched {
            proof {
                assert(out@.push(cur as u32) + link_positions(data@, nxt as int)
                    =~= out@ + (seq![cur as u32] + link_positions(data@, nxt as int)));
            }
            out.push(cur as u32);
        } else {
            proof {
                assert(!link_at(data@, cur as int));
                assert(out@ + link_positions(data@, cur + 1int)
                    =~= out@ + link_positions(data@, cur as int));
            }
        }
        cur = nxt;
    }
    proof {
        assert(out@ + link_positions(data@, cur as int) =~= out@);
    }
    out
}

// ---------------------------------------------------------------------
// The whole index
// ---------------------------------------------------------------------

/// The semantic index of a text: all header-line offsets; all fence
/// offsets when there are at least two of them (a single unpaired fence
/// is not recorded); all link offsets.
pub open spec fn semantic_of(b: Seq<u8>) -> SemanticIndexV {
    SemanticIndexV {
        headers: header_positions(b, 0),
        code_blocks: if fence_positions(b, 0).len() >= 2 {
            fence_positions(b, 0)
        } else {
            Seq::empty()
        },
        links: link_positions(b, 0),
    }
}

/// Every offset the scan records lies within the text.
pub proof fn lemma_semantic_in_range(b: Seq<u8>)
    requires
        b.len() <= u32::MAX,
    ensures
        index_in_range(semantic_of(b), b.len() as int),
{
    lemma_header_positions_in_range(b, 0);
    lemma_fence_positions_in_range(b, 0);
    lemma_link_positions_in_range(b, 0);
}

/// Builds the semantic index of a text.
pub fn scan_semantic(data: &[u8]) -> (s: SemanticIndex)
    requires
        data@.len() <= u32::MAX,
    ensures
        s@ == semantic_of(data@),
{
    let headers = scan_headers(data);
    let fences = scan_fences(data);
    let links = scan_links(data);
    let code_blocks = if fences.len() >= 2 {
        fences
    } else {
        Vec::new()
    };
    let s = SemanticIndex { headers, code_blocks, links };
    proof {
        assert(s@ =~= semantic_of(data@));
    }
    s
}

} // verus!
