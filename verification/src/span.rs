//! Source locations: file identifiers, byte spans and line/column lookup.

use vstd::prelude::*;

verus! {

/// Identifies a source file within the compilation.
#[derive(Debug, Clone, Copy, PartialEq, Eq, Structural, Hash)]
pub struct FileId(pub u32);

/// A byte-offset range within a source file.
///
/// Offsets are `u32`, so files up to about 4 GiB are supported.
#[derive(Debug, Clone, Copy, PartialEq, Eq, Structural)]
pub struct Span {
    pub file_id: FileId,
    pub start: u32,
    pub end: u32,
}

impl Span {
    /// Creates a new span; `start` must not exceed `end`.
    pub fn new(file_id: FileId, start: u32, end: u32) -> (s: Span)
        requires
            start <= end,
        ensures
            s == (Span { file_id, start, end }),
    {
        Span { file_id, start, end }
    }

    /// Creates a dummy span for tests or synthesized nodes.
    pub fn dummy() -> (s: Span)
        ensures
            s == (Span { file_id: FileId(0), start: 0, end: 0 }),
    {
        Span { file_id: FileId(0), start: 0, end: 0 }
    }

    /// Returns the byte length of this span.
    pub fn len(self) -> (n: u32)
        requires
            self.start <= self.end,
        ensures
            n == self.end - self.start,
    {
        self.end - self.start
    }

    /// Returns `true` if this span is empty (zero length).
    pub fn is_empty(self) -> (b: bool)
        ensures
            b == (self.start == self.end),
    {
        self.start == self.end
    }

    /// Returns `true` if the given byte offset falls within this span.
    pub fn contains(self, offset: u32) -> (b: bool)
        ensures
            b == (self.start <= offset && offset < self.end),
    {
        self.start <= offset && offset < self.end
    }
}

/// A 1-based line and column position; the column counts bytes from the
/// start of the line.
#[derive(Debug, Clone, Copy, PartialEq, Eq, Structural)]
pub struct LineCol {
    /// 1-based line number.
    pub line: u32,
    /// 1-based column number (byte offset from line start).
    pub column: u32,
}

/// The offsets at which lines begin among the first `n` bytes: `0`, then
/// one past every newline byte.
pub open spec fn line_starts_of(bytes: Seq<u8>, n: nat) -> Seq<u32>
    decreases n,
{
    if n == 0 {
        seq![0u32]
    } else {
        let prev = line_starts_of(bytes, (n - 1) as nat);
        if bytes[n - 1] == 10u8 {
            prev.push(n as u32)
        } else {
            prev
        }
    }
}

/// Pre-computed byte offsets of line starts, for byte to line/column conversion.
pub struct LineIndex {
    /// Byte offsets of each line start; the first is always 0.
    line_starts: Vec<u32>,
    /// Total length of the source in bytes.
    source_len: u32,
}

/// Line starts begin at 0, strictly increase, and never pass the end of the source.
pub open spec fn line_starts_wf(starts: Seq<u32>, len: u32) -> bool {
    &&& starts.len() >= 1
    &&& starts[0] == 0
    &&& starts.len() <= len + 1
    &&& forall|i: int, j: int| 0 <= i < j < starts.len() ==> starts[i] < starts[j]
    &&& forall|i: int| 0 <= i < starts.len() ==> starts[i] <= len
}

/// A strictly increasing run of line starts from 0 has its `j`-th entry at least `j`.
proof fn lemma_starts_at_least_index(starts: Seq<u32>, len: u32, j: int)
    requires
        line_starts_wf(starts, len),
        0 <= j < starts.len(),
    ensures
        starts[j] >= j,
    decreases j,
{
    if j > 0 {
        lemma_starts_at_least_index(starts, len, j - 1);
    }
}

proof fn lemma_line_starts_wf(bytes: Seq<u8>, n: nat)
    requires
        n <= bytes.len(),
        bytes.len() <= u32::MAX,
    ensures
        line_starts_wf(line_starts_of(bytes, n), n as u32),
    decreases n,
{
    if n > 0 {
        lemma_line_starts_wf(bytes, (n - 1) as nat);
    }
}

impl LineIndex {
    #[verifier::type_invariant]
    spec fn inv(self) -> bool {
        &&& line_starts_wf(self.line_starts@, self.source_len)
    }

    /// The line starts, in byte offsets.
    pub closed spec fn starts(self) -> Seq<u32> {
        self.line_starts@
    }

    /// The source length in bytes.
    pub closed spec fn length(self) -> u32 {
        self.source_len
    }

    /// Builds a line index from source text of at most `u32::MAX` bytes.
    pub fn new(source: &str) -> (idx: LineIndex)
        requires
            vstd::utf8::encode_utf8(source@).len() <= u32::MAX,
        ensures
            idx.starts() == line_starts_of(vstd::utf8::encode_utf8(source@), vstd::utf8::encode_utf8(source@).len()),
            idx.length() == vstd::utf8::encode_utf8(source@).len(),
    {
        let bytes = source.as_bytes();
        let n = bytes.len();
        let mut line_starts: Vec<u32> = Vec::new();
        line_starts.push(0);
        let mut i: usize = 0;
        while i < n
            invariant
                n == bytes@.len(),
                bytes@ == vstd::utf8::encode_utf8(source@),
                n <= u32::MAX,
                0 <= i <= n,
                line_starts@ == line_starts_of(bytes@, i as nat),
            decreases n - i,
        {
            if bytes[i] == 10u8 {
                line_starts.push((i + 1) as u32);
            }
            i += 1;
        }
        proof {
            lemma_line_starts_wf(bytes@, n as nat);
        }
        LineIndex { line_starts, source_len: n as u32 }
    }

    /// Converts a byte offset to a 1-based line and column; `None` when the
    /// offset is beyond the end of the source. The only offset left out is
    /// the end of a source of `u32::MAX` bytes whose line or column number
    /// would not fit in `u32`.
    pub fn line_col(&self, offset: u32) -> (r: Option<LineCol>)
        requires
            offset == u32::MAX && offset <= self.length() ==> 1 < self.starts().len() <= u32::MAX,
        ensures
            r is None <==> offset > self.length(),
            r matches Some(lc) ==> {
                &&& 1 <= lc.line <= self.starts().len()
                &&& self.starts()[lc.line - 1] <= offset
                &&& (lc.line == self.starts().len() || offset < self.starts()[lc.line as int])
                &&& lc.column == offset - self.starts()[lc.line - 1] + 1
            },
    {
        proof {
            use_type_invariant(self);
        }
        if offset > self.source_len {
            return None;
        }
        // Find the number of line starts not after `offset`.
        let starts = &self.line_starts;
        let mut lo: usize = 0;
        let mut hi: usize = starts.len();
        while lo < hi
            invariant
                0 <= lo <= hi <= starts@.len(),
                line_starts_wf(starts@, self.source_len),
                forall|j: int| 0 <= j < lo ==> starts@[j] <= offset,
                forall|j: int| hi <= j < starts@.len() ==> starts@[j] > offset,
            decreases hi - lo,
        {
            let mid = lo + (hi - lo) / 2;
            if starts[mid] <= offset {
                lo = mid + 1;
            } else {
                hi = mid;
            }
        }
        let line_idx = lo - 1;
        let line_start = starts[line_idx];
        proof {
            lemma_starts_at_least_index(starts@, self.source_len, line_idx as int);
            if offset == u32::MAX {
                assert(starts@[1] <= offset);
                assert(starts@[0] < starts@[1]);
            }
        }
        Some(LineCol { line: (line_idx + 1) as u32, column: (offset - line_start) + 1 })
    }
}

} // verus!
