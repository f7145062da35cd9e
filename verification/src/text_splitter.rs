//! Text chunking: splits a text into bounded, overlapping segments whose
//! boundaries snap to whitespace, with a hard guarantee of termination.

use vstd::prelude::*;

use crate::strtools::views_of;
use crate::RagError;

verus! {

/// The whitespace set the splitter snaps to and trims (ASCII whitespace).
pub open spec fn is_wsp(c: char) -> bool {
    c == ' ' || c == '\t' || c == '\n' || c == '\r' || c == '\x0C'
}

/// Largest index `i` in `[start, end)` holding whitespace, or `-1` if none.
pub open spec fn last_wsp(text: Seq<char>, start: int, end: int) -> int
    decreases end - start,
{
    if end <= start {
        -1
    } else if is_wsp(text[end - 1]) {
        end - 1
    } else {
        last_wsp(text, start, end - 1)
    }
}

/// Largest index `j` in `[0, i]` with a whitespace character, or `-1` if none.
pub open spec fn scan_wsp_left(text: Seq<char>, i: int) -> int
    decreases i + 1,
{
    if i < 0 {
        -1
    } else if is_wsp(text[i]) {
        i
    } else {
        scan_wsp_left(text, i - 1)
    }
}

/// Where a cursor landing mid-word at `index` is moved: just after the nearest
/// whitespace to the left, or left where it was if no whitespace precedes it.
pub open spec fn spec_snap_left(text: Seq<char>, index: int) -> int {
    if index == 0 {
        0
    } else {
        let j = scan_wsp_left(text, index);
        if j >= 0 {
            j + 1
        } else {
            index
        }
    }
}

/// Smallest index `j` in `[i, end)` holding a non-whitespace character, or `end`.
pub open spec fn first_non_wsp(text: Seq<char>, i: int, end: int) -> int
    decreases end - i,
{
    if i >= end {
        end
    } else if !is_wsp(text[i]) {
        i
    } else {
        first_non_wsp(text, i + 1, end)
    }
}

/// Largest index `j` in `[start, end)` holding a non-whitespace character, or `start - 1`.
pub open spec fn last_non_wsp(text: Seq<char>, start: int, end: int) -> int
    decreases end - start,
{
    if end <= start {
        start - 1
    } else if !is_wsp(text[end - 1]) {
        end - 1
    } else {
        last_non_wsp(text, start, end - 1)
    }
}

/// The slice `[start, end)` of `text` with surrounding whitespace removed.
pub open spec fn spec_trimmed(text: Seq<char>, start: int, end: int) -> Seq<char> {
    let a = first_non_wsp(text, start, end);
    if a == end {
        Seq::<char>::empty()
    } else {
        text.subrange(a, last_non_wsp(text, start, end) + 1)
    }
}

/// Where the chunk that begins at `start` ends: `chunk_size` characters on,
/// capped at the text's end, and, when that lands mid-text, backed off to the
/// last whitespace of the window provided it lies strictly after `start`.
pub open spec fn spec_chunk_end(text: Seq<char>, size: int, start: int) -> int {
    let n = text.len() as int;
    let e0 = if start + size < n {
        start + size
    } else {
        n
    };
    if e0 < n {
        let ls = last_wsp(text, start, e0);
        if ls > start {
            ls
        } else {
            e0
        }
    } else {
        e0
    }
}

/// The cursor position of the next chunk: back `overlap` characters from the
/// current chunk's end, snapped left off a word, and forced to the chunk's end
/// whenever that would not move the cursor strictly forward.
pub open spec fn spec_next_start(text: Seq<char>, size: int, overlap: int, start: int) -> int {
    let n = text.len() as int;
    let end = spec_chunk_end(text, size, start);
    let ns = if end - overlap >= 0 {
        end - overlap
    } else {
        0
    };
    let adj = if ns < n && !is_wsp(text[ns]) {
        spec_snap_left(text, ns)
    } else {
        ns
    };
    if adj <= start {
        end
    } else {
        adj
    }
}

/// The raw `[start, end)` intervals of the chunks emitted from cursor `start`
/// on; intervals whose trimmed content is empty are skipped, as the splitter
/// skips the chunk.
pub open spec fn spec_intervals_from(
    text: Seq<char>,
    size: int,
    overlap: int,
    start: int,
) -> Seq<(int, int)>
    decreases text.len() - start,
        when 0 <= start && 1 <= size && 0 <= overlap
{
    let n = text.len() as int;
    if start >= n {
        Seq::<(int, int)>::empty()
    } else {
        let end = spec_chunk_end(text, size, start);
        let rest = if end >= n {
            Seq::<(int, int)>::empty()
        } else {
            let nx = spec_next_start(text, size, overlap, start);
            if nx >= n {
                Seq::<(int, int)>::empty()
            } else {
                spec_intervals_from(text, size, overlap, nx)
            }
        };
        if spec_trimmed(text, start, end).len() == 0 {
            rest
        } else {
            seq![(start, end)] + rest
        }
    }
}

/// The chunks emitted from cursor `start` on: each interval's trimmed content.
pub open spec fn spec_split_from(
    text: Seq<char>,
    size: int,
    overlap: int,
    start: int,
) -> Seq<Seq<char>> {
    spec_intervals_from(text, size, overlap, start).map_values(
        |iv: (int, int)| spec_trimmed(text, iv.0, iv.1),
    )
}

/// What `TextSplitter::split` returns on `text`.
pub open spec fn spec_split(text: Seq<char>, size: int, overlap: int) -> Seq<Seq<char>> {
    spec_split_from(text, size, overlap, 0)
}

/// Splits text into chunks of at most `chunk_size` characters, consecutive
/// chunks overlapping by about `chunk_overlap` characters, boundaries snapped
/// to whitespace.
pub struct TextSplitter {
    chunk_size: usize,
    chunk_overlap: usize,
    separator: String,
}

impl TextSplitter {
    pub closed spec fn spec_chunk_size(&self) -> int {
        self.chunk_size as int
    }

    pub closed spec fn spec_chunk_overlap(&self) -> int {
        self.chunk_overlap as int
    }

    pub closed spec fn spec_separator(&self) -> Seq<char> {
        self.separator@
    }

    /// A fresh splitter with the deployment's default parameters.
    pub fn new() -> (r: Self)
        ensures
            r.spec_chunk_size() == 1000,
            r.spec_chunk_overlap() == 150,
            r.spec_separator() == "\n\n"@,
    {
        Self { chunk_size: 1000, chunk_overlap: 150, separator: String::from_str("\n\n") }
    }

    /// Checks a chunk size and overlap pair up front: the size must reach
    /// 20 characters and exceed the overlap, else the combination is the
    /// configuration error and is refused before any splitting happens.
    pub fn configured(chunk_size: usize, chunk_overlap: usize) -> (r: Result<Self, RagError>)
        ensures
            match r {
                Ok(sp) => sp.spec_chunk_size() == chunk_size && sp.spec_chunk_overlap()
                    == chunk_overlap && chunk_size >= 20 && chunk_overlap < chunk_size
                    && sp.spec_separator() == "\n\n"@,
                Err(e) => e == RagError::Configuration && (chunk_size < 20 || chunk_overlap
                    >= chunk_size),
            },
    {
        if chunk_size < 20 || chunk_overlap >= chunk_size {
            Err(RagError::Configuration)
        } else {
            Ok(
                Self {
                    chunk_size,
                    chunk_overlap,
                    separator: String::from_str("\n\n"),
                },
            )
        }
    }

    /// Sets the chunk size; sizes under 20 characters are refused outright,
    /// as they risk degenerate output.
    pub fn with_chunk_size(self, chunk_size: usize) -> (r: Self)
        requires
            chunk_size >= 20,
        ensures
            r.spec_chunk_size() == chunk_size,
            r.spec_chunk_overlap() == self.spec_chunk_overlap(),
            r.spec_separator() == self.spec_separator(),
    {
        let mut s = self;
        s.chunk_size = chunk_size;
        s
    }

    /// Sets the overlap carried from one chunk into the next.
    pub fn with_chunk_overlap(self, chunk_overlap: usize) -> (r: Self)
        ensures
            r.spec_chunk_size() == self.spec_chunk_size(),
            r.spec_chunk_overlap() == chunk_overlap,
            r.spec_separator() == self.spec_separator(),
    {
        let mut s = self;
        s.chunk_overlap = chunk_overlap;
        s
    }

    /// Sets the separator string (kept for configuration; `split` works on
    /// whitespace boundaries).
    pub fn with_separator(self, separator: String) -> (r: Self)
        ensures
            r.spec_chunk_size() == self.spec_chunk_size(),
            r.spec_chunk_overlap() == self.spec_chunk_overlap(),
            r.spec_separator() == separator@,
    {
        let mut s = self;
        s.separator = separator;
        s
    }

    /// Splits `text` into trimmed, non-empty chunks; the result is exactly the
    /// chunk sequence of the specification model `spec_split`.
    pub fn split(&self, text: &str) -> (r: Vec<String>)
        requires
            self.spec_chunk_overlap() < self.spec_chunk_size(),
        ensures
            views_of(r@) == spec_split(text@, self.spec_chunk_size(), self.spec_chunk_overlap()),
    {
        let ghost t = text@;
        let ghost size = self.chunk_size as int;
        let ghost overlap = self.chunk_overlap as int;
        let n = text.unicode_len();
        let mut chunks: Vec<String> = Vec::new();
        let mut start: usize = 0;

        while start < n
            invariant
                t == text@,
                n == t.len(),
                0 <= overlap < size,
                size == self.spec_chunk_size(),
                overlap == self.spec_chunk_overlap(),
                start <= n,
                views_of(chunks@) + spec_split_from(t, size, overlap, start as int) == spec_split(
                    t,
                    size,
                    overlap,
                ),
            decreases n - start,
        {
            let ghost s0 = start as int;
            let ghost prev = chunks@;
            let next = step_cursor(text, self.chunk_size, self.chunk_overlap, start, &mut chunks);
            proof {
                lemma_step_advances(t, size, overlap, s0, views_of(prev), views_of(chunks@));
            }
            start = next;
        }
        proof {
            assert(spec_intervals_from(t, size, overlap, start as int) =~= Seq::<(
                int,
                int,
            )>::empty());
            assert(spec_split_from(t, size, overlap, start as int) =~= Seq::<Seq<char>>::empty());
            assert(views_of(chunks@) =~= views_of(chunks@) + spec_split_from(
                t,
                size,
                overlap,
                start as int,
            ));
        }
        chunks
    }

    /// The index just after the nearest whitespace at or to the left of
    /// `index`, or `index` itself if no whitespace precedes it.
    fn find_nearest_space_to_left(&self, text: &str, index: usize) -> (r: usize)
        requires
            index < text@.len(),
            index < usize::MAX,
        ensures
            r == spec_snap_left(text@, index as int),
    {
        nearest_space_to_left(text, index)
    }

    /// An incremental splitter with this splitter's parameters.
    pub fn split_stream(&self) -> (r: SplitStream)
        requires
            self.spec_chunk_overlap() < self.spec_chunk_size(),
        ensures
            r.wf(),
            r.buffered() == Seq::<char>::empty(),
            r.spec_chunk_size() == self.spec_chunk_size(),
            r.spec_chunk_overlap() == self.spec_chunk_overlap(),
    {
        SplitStream::new(self.chunk_size, self.chunk_overlap)
    }
}

/// The free-function form of the leftward whitespace snap.
fn nearest_space_to_left(text: &str, index: usize) -> (r: usize)
    requires
        index < text@.len(),
        index < usize::MAX,
    ensures
        r == spec_snap_left(text@, index as int),
{
    if index == 0 {
        return index;
    }
    let mut i = index;
    while i > 0
        invariant
            i <= index < text@.len(),
            index < usize::MAX,
            scan_wsp_left(text@, index as int) == scan_wsp_left(text@, i as int),
        decreases i,
    {
        if is_wsp_char(text.get_char(i)) {
            return i + 1;
        }
        i = i - 1;
    }
    proof {
        reveal_with_fuel(scan_wsp_left, 2);
    }
    if is_wsp_char(text.get_char(0)) {
        return 1;
    }
    index
}

/// One cursor step of the splitter: emits the chunk that begins at `start`
/// (unless it trims to nothing) and returns the next cursor position, or
/// the text's end when the chunk reached it.
fn step_cursor(
    text: &str,
    chunk_size: usize,
    chunk_overlap: usize,
    start: usize,
    chunks: &mut Vec<String>,
) -> (next: usize)
    requires
        chunk_overlap < chunk_size,
        start < text@.len(),
    ensures
        ({
            let t = text@;
            let size = chunk_size as int;
            let ov = chunk_overlap as int;
            let end = spec_chunk_end(t, size, start as int);
            let c = spec_trimmed(t, start as int, end);
            &&& views_of(final(chunks)@) == if c.len() == 0 {
                views_of(old(chunks)@)
            } else {
                views_of(old(chunks)@).push(c)
            }
            &&& next as int == if end >= t.len() {
                t.len() as int
            } else {
                spec_next_start(t, size, ov, start as int)
            }
            &&& start < next <= t.len()
        }),
{
    let ghost t = text@;
    let ghost size = chunk_size as int;
    let ghost overlap = chunk_overlap as int;
    let ghost s0 = start as int;
    let ghost prev = chunks@;
    let n = text.unicode_len();

    let end0 = if n - start < chunk_size {
        n
    } else {
        start + chunk_size
    };
    let mut end = end0;
    if end < n {
        match find_last_wsp(text, start, end) {
            Some(ls) => {
                if ls > start {
                    end = ls;
                }
            },
            None => {},
        }
    }
    proof {
        lemma_chunk_end_bounds(t, size, s0);
        assert(end as int == spec_chunk_end(t, size, s0));
    }
    let ghost e = end as int;
    let ghost emitted = spec_trimmed(t, s0, e);

    let a = exec_first_non_wsp(text, start, end);
    proof {
        lemma_trim_bounds(t, s0, e);
    }
    if a < end {
        let b = exec_last_non_wsp(text, start, end);
        let piece = text.substring_char(a, b + 1);
        let chunk = String::from_str(piece);
        proof {
            assert(chunk@ == emitted);
            assert(emitted.len() > 0);
        }
        chunks.push(chunk);
        proof {
            assert(views_of(chunks@) =~= views_of(prev).push(emitted));
        }
    } else {
        proof {
            assert(emitted.len() == 0);
            assert(views_of(chunks@) =~= views_of(prev));
        }
    }

    if end >= n {
        return n;
    }
    let ns = if end >= chunk_overlap {
        end - chunk_overlap
    } else {
        0
    };
    let mut adjusted = ns;
    if ns < n && !is_wsp_char(text.get_char(ns)) {
        adjusted = nearest_space_to_left(text, ns);
    }
    let next = if adjusted <= start {
        end
    } else {
        adjusted
    };
    proof {
        assert(next as int == spec_next_start(t, size, overlap, s0));
        lemma_next_le_end(t, size, overlap, s0);
    }
    next
}

/// How one cursor step rewrites the split-so-far equation: what the step
/// emitted plus what remains from the next cursor equals what remained
/// from the old cursor.
proof fn lemma_step_advances(
    t: Seq<char>,
    size: int,
    overlap: int,
    s0: int,
    prev: Seq<Seq<char>>,
    now: Seq<Seq<char>>,
)
    requires
        0 <= overlap < size,
        0 <= s0 < t.len(),
        ({
            let end = spec_chunk_end(t, size, s0);
            let c = spec_trimmed(t, s0, end);
            now == if c.len() == 0 {
                prev
            } else {
                prev.push(c)
            }
        }),
    ensures
        ({
            let end = spec_chunk_end(t, size, s0);
            let nx = if end >= t.len() {
                t.len() as int
            } else {
                spec_next_start(t, size, overlap, s0)
            };
            now + spec_split_from(t, size, overlap, nx) == prev + spec_split_from(
                t,
                size,
                overlap,
                s0,
            )
        }),
{
    let end = spec_chunk_end(t, size, s0);
    let c = spec_trimmed(t, s0, end);
    lemma_chunk_end_bounds(t, size, s0);
    let nx = if end >= t.len() {
        t.len() as int
    } else {
        spec_next_start(t, size, overlap, s0)
    };
    if end >= t.len() {
        assert(spec_intervals_from(t, size, overlap, s0) == if c.len() == 0 {
            Seq::<(int, int)>::empty()
        } else {
            seq![(s0, end)] + Seq::<(int, int)>::empty()
        });
        assert(spec_intervals_from(t, size, overlap, nx) =~= Seq::<(int, int)>::empty());
        assert(now + spec_split_from(t, size, overlap, nx) =~= prev + spec_split_from(
            t,
            size,
            overlap,
            s0,
        ));
    } else {
        lemma_next_le_end(t, size, overlap, s0);
        if nx >= t.len() {
            assert(spec_intervals_from(t, size, overlap, s0) == if c.len() == 0 {
                Seq::<(int, int)>::empty()
            } else {
                seq![(s0, end)] + Seq::<(int, int)>::empty()
            });
            assert(spec_intervals_from(t, size, overlap, nx) =~= Seq::<(int, int)>::empty());
        } else {
            assert(spec_intervals_from(t, size, overlap, s0) == if c.len() == 0 {
                spec_intervals_from(t, size, overlap, nx)
            } else {
                seq![(s0, end)] + spec_intervals_from(t, size, overlap, nx)
            });
        }
        assert(now + spec_split_from(t, size, overlap, nx) =~= prev + spec_split_from(
            t,
            size,
            overlap,
            s0,
        ));
    }
}

/// Removes leading and trailing whitespace.
pub fn trim_text(text: &str) -> (r: String)
    ensures
        r@ == spec_trimmed(text@, 0, text@.len() as int),
{
    let n = text.unicode_len();
    proof {
        lemma_trim_bounds(text@, 0, n as int);
    }
    let a = exec_first_non_wsp(text, 0, n);
    if a == n {
        String::new()
    } else {
        let b = exec_last_non_wsp(text, 0, n);
        let piece = text.substring_char(a, b + 1);
        String::from_str(piece)
    }
}

/// `true` exactly on the splitter's whitespace set.
pub fn is_wsp_char(c: char) -> (b: bool)
    ensures
        b == is_wsp(c),
{
    c == ' ' || c == '\t' || c == '\n' || c == '\r' || c == '\x0C'
}

/// The last whitespace strictly inside the window `[start, end)`, if any.
fn find_last_wsp(text: &str, start: usize, end: usize) -> (r: Option<usize>)
    requires
        start <= end <= text@.len(),
    ensures
        match r {
            Some(i) => i == last_wsp(text@, start as int, end as int),
            None => last_wsp(text@, start as int, end as int) == -1,
        },
{
    let mut j = end;
    while j > start
        invariant
            start <= j <= end <= text@.len(),
            last_wsp(text@, start as int, end as int) == last_wsp(
                text@,
                start as int,
                j as int,
            ),
        decreases j,
    {
        j = j - 1;
        if is_wsp_char(text.get_char(j)) {
            return Some(j);
        }
    }
    None
}

/// The first non-whitespace position in `[i, end)`, or `end`.
fn exec_first_non_wsp(text: &str, i: usize, end: usize) -> (r: usize)
    requires
        i <= end <= text@.len(),
    ensures
        r == first_non_wsp(text@, i as int, end as int),
{
    let mut k = i;
    while k < end
        invariant
            i <= k <= end <= text@.len(),
            first_non_wsp(text@, i as int, end as int) == first_non_wsp(
                text@,
                k as int,
                end as int,
            ),
        decreases end - k,
    {
        if !is_wsp_char(text.get_char(k)) {
            return k;
        }
        k = k + 1;
    }
    end
}

/// The last non-whitespace position in `[start, end)`; requires one to exist.
fn exec_last_non_wsp(text: &str, start: usize, end: usize) -> (r: usize)
    requires
        start <= end <= text@.len(),
        first_non_wsp(text@, start as int, end as int) < end,
    ensures
        r == last_non_wsp(text@, start as int, end as int),
        start <= r < end,
{
    proof {
        lemma_trim_bounds(text@, start as int, end as int);
    }
    let mut j = end;
    while j > start
        invariant
            start <= j <= end <= text@.len(),
            last_non_wsp(text@, start as int, end as int) == last_non_wsp(
                text@,
                start as int,
                j as int,
            ),
            last_non_wsp(text@, start as int, end as int) >= start,
        decreases j,
    {
        j = j - 1;
        if !is_wsp_char(text.get_char(j)) {
            return j;
        }
    }
    proof {
        assert(false);
    }
    end
}

/// The chunk end always lies strictly past `start` and within the text.
pub proof fn lemma_chunk_end_bounds(text: Seq<char>, size: int, start: int)
    requires
        1 <= size,
        0 <= start < text.len(),
    ensures
        start < spec_chunk_end(text, size, start) <= text.len(),
{
    let n = text.len() as int;
    let e0 = if start + size < n {
        start + size
    } else {
        n
    };
    if e0 < n {
        lemma_last_wsp_props(text, start, e0);
    }
}

/// A chunk never spans more than `size` characters.
pub proof fn lemma_chunk_end_span(text: Seq<char>, size: int, start: int)
    requires
        1 <= size,
        0 <= start < text.len(),
    ensures
        spec_chunk_end(text, size, start) - start <= size,
{
    let n = text.len() as int;
    let e0 = if start + size < n {
        start + size
    } else {
        n
    };
    if e0 < n {
        lemma_last_wsp_props(text, start, e0);
    }
}

/// What `last_wsp` returns: a whitespace inside the window, the last one.
pub proof fn lemma_last_wsp_props(text: Seq<char>, start: int, end: int)
    requires
        0 <= start,
    ensures
        last_wsp(text, start, end) == -1 ==> forall|k: int|
            start <= k < end ==> !is_wsp(text[k]),
        last_wsp(text, start, end) != -1 ==> start <= last_wsp(text, start, end) < end
            && is_wsp(text[last_wsp(text, start, end)]),
        forall|k: int|
            start <= k < end && last_wsp(text, start, end) < k ==> !is_wsp(text[k]),
    decreases end - start,
{
    if end <= start {
    } else if is_wsp(text[end - 1]) {
    } else {
        lemma_last_wsp_props(text, start, end - 1);
    }
}

/// The trimmed window is delimited by its first and last non-whitespace
/// characters, in order.
pub proof fn lemma_trim_bounds(text: Seq<char>, start: int, end: int)
    requires
        0 <= start <= end <= text.len(),
    ensures
        start <= first_non_wsp(text, start, end) <= end,
        first_non_wsp(text, start, end) < end ==> {
            let a = first_non_wsp(text, start, end);
            let b = last_non_wsp(text, start, end);
            &&& a <= b < end
            &&& !is_wsp(text[a])
            &&& !is_wsp(text[b])
            &&& forall|k: int| start <= k < a ==> is_wsp(text[k])
            &&& forall|k: int| b < k < end ==> is_wsp(text[k])
        },
        first_non_wsp(text, start, end) == end ==> forall|k: int|
            start <= k < end ==> is_wsp(text[k]),
    decreases end - start,
{
    if start >= end {
    } else {
        lemma_trim_bounds(text, start + 1, end);
        lemma_last_non_wsp_props(text, start, end);
        if !is_wsp(text[start]) {
        }
    }
}

/// The window starting at `start` holds no whitespace strictly after
/// `start`: the splitter then has no boundary to snap the chunk's end to.
pub open spec fn window_unbroken(text: Seq<char>, size: int, start: int) -> bool {
    let n = text.len() as int;
    let e0 = if start + size < n {
        start + size
    } else {
        n
    };
    last_wsp(text, start, e0) <= start
}

/// No whitespace occurs anywhere before position `a`.
pub open spec fn no_wsp_before(text: Seq<char>, a: int) -> bool {
    forall|k: int| 0 <= k < a ==> !is_wsp(text[k])
}

/// `scan_wsp_left` never returns a position beyond where it started.
proof fn lemma_scan_le(text: Seq<char>, i: int)
    requires
        -1 <= i,
    ensures
        scan_wsp_left(text, i) <= i,
        scan_wsp_left(text, i) >= 0 ==> is_wsp(text[scan_wsp_left(text, i)]),
        forall|k: int| scan_wsp_left(text, i) < k <= i ==> !is_wsp(text[k]),
    decreases i + 1,
{
    if i < 0 {
    } else if is_wsp(text[i]) {
    } else {
        lemma_scan_le(text, i - 1);
    }
}

/// The next cursor never moves past the current chunk's end.
pub proof fn lemma_next_le_end(text: Seq<char>, size: int, overlap: int, start: int)
    requires
        1 <= size,
        0 <= overlap,
        0 <= start < text.len(),
    ensures
        start < spec_next_start(text, size, overlap, start) <= spec_chunk_end(
            text,
            size,
            start,
        ),
{
    let n = text.len() as int;
    let end = spec_chunk_end(text, size, start);
    lemma_chunk_end_bounds(text, size, start);
    let ns = if end - overlap >= 0 {
        end - overlap
    } else {
        0
    };
    if ns < n && !is_wsp(text[ns]) {
        lemma_scan_le(text, ns);
    }
}

proof fn lemma_last_non_wsp_props(text: Seq<char>, start: int, end: int)
    requires
        0 <= start <= end <= text.len(),
    ensures
        start - 1 <= last_non_wsp(text, start, end) < end,
        last_non_wsp(text, start, end) >= start ==> !is_wsp(text[last_non_wsp(text, start, end)]),
        forall|k: int| last_non_wsp(text, start, end) < k < end ==> is_wsp(text[k]),
        last_non_wsp(text, start, end) < start ==> forall|k: int|
            start <= k < end ==> is_wsp(text[k]),
    decreases end - start,
{
    if end <= start {
    } else if !is_wsp(text[end - 1]) {
    } else {
        lemma_last_non_wsp_props(text, start, end - 1);
    }
}

/// Structural facts about the emitted intervals: each lies inside the text,
/// ends where `spec_chunk_end` says, holds a non-empty trimmed chunk, the
/// starts strictly increase, and there are at most as many chunks as
/// characters from the cursor to the text's end.
pub proof fn lemma_intervals_props(text: Seq<char>, size: int, overlap: int, start: int)
    requires
        1 <= size,
        0 <= overlap,
        0 <= start,
    ensures
        ({
            let ivs = spec_intervals_from(text, size, overlap, start);
            &&& ivs.len() <= text.len() - start || ivs.len() == 0
            &&& forall|j: int|
                0 <= j < ivs.len() ==> start <= #[trigger] ivs[j].0 < ivs[j].1 <= text.len()
            &&& forall|j: int|
                0 <= j < ivs.len() ==> #[trigger] ivs[j].1 == spec_chunk_end(
                    text,
                    size,
                    ivs[j].0,
                )
            &&& forall|j: int| 0 <= j < ivs.len() ==> (#[trigger] ivs[j]).1 - ivs[j].0 <= size
            &&& forall|j: int|
                0 <= j < ivs.len() ==> spec_trimmed(text, #[trigger] ivs[j].0, ivs[j].1).len()
                    > 0
            &&& forall|j1: int, j2: int|
                0 <= j1 < j2 < ivs.len() ==> #[trigger] ivs[j1].0 < #[trigger] ivs[j2].0
        }),
    decreases text.len() - start,
{
    let n = text.len() as int;
    let ivs = spec_intervals_from(text, size, overlap, start);
    if start >= n {
    } else {
        let end = spec_chunk_end(text, size, start);
        lemma_chunk_end_bounds(text, size, start);
        if end >= n {
        } else {
            let nx = spec_next_start(text, size, overlap, start);
            lemma_next_le_end(text, size, overlap, start);
            if nx >= n {
            } else {
                lemma_intervals_props(text, size, overlap, nx);
            }
        }
    }
    assert forall|j: int| 0 <= j < ivs.len() implies (#[trigger] ivs[j]).1 - ivs[j].0
        <= size by {
        lemma_chunk_end_span(text, size, ivs[j].0);
    }
}

/// No content is dropped: every non-whitespace character of the text appears
/// in one of the returned chunks.
pub proof fn lemma_split_coverage(text: Seq<char>, size: int, overlap: int, i: int)
    requires
        1 <= size,
        0 <= overlap,
        0 <= i < text.len(),
        !is_wsp(text[i]),
    ensures
        ({
            let chunks = spec_split(text, size, overlap);
            exists|j: int, k: int|
                0 <= j < chunks.len() && 0 <= k < chunks[j].len() && chunks[j][k] == text[i]
        }),
{
    lemma_coverage_from(text, size, overlap, 0, i);
    let from0 = spec_split_from(text, size, overlap, 0);
    let (j0, k0) = choose|j: int, k: int|
        0 <= j < from0.len() && 0 <= k < from0[j].len() && from0[j][k] == text[i];
    let chunks = spec_split(text, size, overlap);
    assert(0 <= j0 < chunks.len() && 0 <= k0 < chunks[j0].len() && chunks[j0][k0] == text[i]);
}

proof fn lemma_coverage_from(text: Seq<char>, size: int, overlap: int, start: int, i: int)
    requires
        1 <= size,
        0 <= overlap,
        0 <= start <= i < text.len(),
        !is_wsp(text[i]),
    ensures
        ({
            let chunks = spec_split_from(text, size, overlap, start);
            exists|j: int, k: int|
                0 <= j < chunks.len() && 0 <= k < chunks[j].len() && chunks[j][k] == text[i]
        }),
    decreases text.len() - start,
{
    let n = text.len() as int;
    let chunks = spec_split_from(text, size, overlap, start);
    let end = spec_chunk_end(text, size, start);
    lemma_chunk_end_bounds(text, size, start);
    lemma_trim_bounds(text, start, end);
    let a = first_non_wsp(text, start, end);
    let b = last_non_wsp(text, start, end);
    if i < end {
        assert(a <= i) by {
            if i < a {
                assert(is_wsp(text[i]));
            }
        }
        assert(i <= b) by {
            if b < i {
                assert(is_wsp(text[i]));
            }
        }
        let c = spec_trimmed(text, start, end);
        assert(c == text.subrange(a, b + 1));
        assert(chunks[0] == c && c[i - a] == text[i]);
        assert(0 <= 0 < chunks.len() && 0 <= i - a < chunks[0].len() && chunks[0][i - a]
            == text[i]);
    } else {
        assert(end < n);
        let nx = spec_next_start(text, size, overlap, start);
        lemma_next_le_end(text, size, overlap, start);
        assert(nx <= end <= i < n);
        lemma_coverage_from(text, size, overlap, nx, i);
        let rest = spec_split_from(text, size, overlap, nx);
        let (j0, k0) = choose|j: int, k: int|
            0 <= j < rest.len() && 0 <= k < rest[j].len() && rest[j][k] == text[i];
        if spec_trimmed(text, start, end).len() == 0 {
            assert(chunks[j0] == rest[j0] && chunks[j0][k0] == text[i]);
        } else {
            assert(chunks[j0 + 1] == rest[j0] && chunks[j0 + 1][k0] == text[i]);
        }
    }
}

/// No word is dropped: a maximal non-whitespace run `[a, b)` of the text
/// that is shorter than the chunk size appears contiguously, in full,
/// inside one of the returned chunks. (A run that fills a whole window or
/// more cannot fit in any single chunk and is carried in pieces.)
pub proof fn lemma_word_coverage(text: Seq<char>, size: int, overlap: int, a: int, b: int)
    requires
        1 <= size,
        0 <= overlap,
        0 <= a < b <= text.len(),
        forall|k: int| a <= k < b ==> !is_wsp(text[k]),
        a == 0 || is_wsp(text[a - 1]),
        b == text.len() || is_wsp(text[b]),
        b - a < size,
    ensures
        ({
            let chunks = spec_split(text, size, overlap);
            exists|j: int, d: int|
                #![trigger chunks[j].subrange(d, d + b - a)]
                0 <= j < chunks.len() && 0 <= d && d + b - a <= chunks[j].len()
                    && chunks[j].subrange(d, d + b - a) == text.subrange(a, b)
        }),
{
    lemma_word_interval_from(text, size, overlap, 0, a, b);
    let ivs = spec_intervals_from(text, size, overlap, 0);
    let j0 = choose|j: int| 0 <= j < ivs.len() && ivs[j].0 <= a && b <= ivs[j].1;
    let s = ivs[j0].0;
    let e = ivs[j0].1;
    lemma_intervals_props(text, size, overlap, 0);
    lemma_trim_bounds(text, s, e);
    let a2 = first_non_wsp(text, s, e);
    let b2 = last_non_wsp(text, s, e);
    assert(a2 <= a) by {
        if a2 > a {
            assert(is_wsp(text[a]));
        }
    }
    assert(b2 >= b - 1) by {
        if b2 < b - 1 {
            assert(is_wsp(text[b - 1]));
        }
    }
    let chunks = spec_split(text, size, overlap);
    let c = chunks[j0];
    assert(c == spec_trimmed(text, s, e));
    let d0 = a - a2;
    assert(c.subrange(d0, d0 + b - a) =~= text.subrange(a, b));
    assert(0 <= j0 < chunks.len() && 0 <= d0 && d0 + b - a <= c.len() && c.subrange(
        d0,
        d0 + b - a,
    ) == text.subrange(a, b));
}

/// The cursor, starting at or before a maximal run that fits one window,
/// eventually emits an interval holding the whole run.
proof fn lemma_word_interval_from(
    text: Seq<char>,
    size: int,
    overlap: int,
    start: int,
    a: int,
    b: int,
)
    requires
        1 <= size,
        0 <= overlap,
        0 <= start <= a < b <= text.len(),
        forall|k: int| a <= k < b ==> !is_wsp(text[k]),
        a == 0 || is_wsp(text[a - 1]),
        b == text.len() || is_wsp(text[b]),
        b - a < size,
    ensures
        ({
            let ivs = spec_intervals_from(text, size, overlap, start);
            exists|j: int| 0 <= j < ivs.len() && ivs[j].0 <= a && b <= ivs[j].1
        }),
    decreases text.len() - start,
{
    let n = text.len() as int;
    let ivs = spec_intervals_from(text, size, overlap, start);
    let end = spec_chunk_end(text, size, start);
    lemma_chunk_end_bounds(text, size, start);
    lemma_trim_bounds(text, start, end);
    if end >= b {
        // The chunk beginning here reaches past the run; it survives
        // trimming because the run's characters are not whitespace.
        assert(spec_trimmed(text, start, end).len() > 0) by {
            if first_non_wsp(text, start, end) == end {
                assert(is_wsp(text[a]));
            }
        }
        assert(ivs[0] == (start, end) && ivs[0].0 <= a && b <= ivs[0].1);
    } else {
        let e0 = if start + size < n {
            start + size
        } else {
            n
        };
        assert(e0 < n) by {
            if e0 >= n {
                assert(end == e0);
            }
        }
        let ls = last_wsp(text, start, e0);
        lemma_last_wsp_props(text, start, e0);
        if end <= a {
            // The whole run still lies ahead; the cursor advances without
            // passing it.
            let nx = spec_next_start(text, size, overlap, start);
            lemma_next_le_end(text, size, overlap, start);
            assert(nx <= end <= a && end < n && nx < n);
            lemma_word_interval_from(text, size, overlap, nx, a, b);
            let rest = spec_intervals_from(text, size, overlap, nx);
            let jr = choose|j: int| 0 <= j < rest.len() && rest[j].0 <= a && b <= rest[j].1;
            if spec_trimmed(text, start, end).len() == 0 {
                assert(ivs[jr] == rest[jr]);
            } else {
                assert(ivs[jr + 1] == rest[jr]);
            }
        } else {
            // A cut strictly inside the run is impossible: the run's
            // characters are not whitespace, so such an end cannot come
            // from a snap, and a window that starts at the run's own start
            // holds the whole run.
            assert(a < end < b);
            assert(!is_wsp(text[end]));
            if ls > start {
                assert(is_wsp(text[end]));
            }
            assert(end == e0);
            if a > start {
                assert(start <= a - 1 < e0);
                assert(is_wsp(text[a - 1]));
                assert(ls >= a - 1);
                assert(a - 1 <= start);
            }
            assert(a <= start + 1);
            assert(end == start + size && b <= a + size - 1);
            assert(false);
        }
    }
}

/// How each chunk's boundaries relate to whitespace in the source: a chunk
/// begins at the text's start, right after whitespace, inside an unbroken
/// leading word, or past a window that held no space to snap to; it ends at
/// the text's end, right before whitespace, or against such a window.
pub proof fn lemma_no_word_splitting(text: Seq<char>, size: int, overlap: int, j: int)
    requires
        1 <= size,
        0 <= overlap,
        0 <= j < spec_intervals_from(text, size, overlap, 0).len(),
    ensures
        ({
            let ivs = spec_intervals_from(text, size, overlap, 0);
            let s = ivs[j].0;
            let e = ivs[j].1;
            let a = first_non_wsp(text, s, e);
            let b = last_non_wsp(text, s, e);
            &&& spec_split(text, size, overlap)[j] == text.subrange(a, b + 1)
            &&& a == 0 || is_wsp(text[a - 1]) || no_wsp_before(text, a) || (exists|p: int|
                0 <= p < a && window_unbroken(text, size, p))
            &&& b + 1 == text.len() || is_wsp(text[b + 1]) || window_unbroken(text, size, s)
        }),
{
    lemma_boundaries_from(text, size, overlap, 0, j);
}

/// The cursor position `start` is acceptable as a chunk origin: it is the
/// text's start, sits on or just after whitespace, lies inside the text's
/// unbroken leading word, or follows a window without a space to snap to.
spec fn start_ok(text: Seq<char>, size: int, start: int) -> bool {
    ||| start == 0
    ||| (0 <= start < text.len() && is_wsp(text[start]))
    ||| (0 < start && is_wsp(text[start - 1]))
    ||| no_wsp_before(text, start)
    ||| exists|p: int| 0 <= p < start && window_unbroken(text, size, p)
}

proof fn lemma_boundaries_from(text: Seq<char>, size: int, overlap: int, start: int, j: int)
    requires
        1 <= size,
        0 <= overlap,
        0 <= start,
        start_ok(text, size, start),
        0 <= j < spec_intervals_from(text, size, overlap, start).len(),
    ensures
        ({
            let ivs = spec_intervals_from(text, size, overlap, start);
            let s = ivs[j].0;
            let e = ivs[j].1;
            let a = first_non_wsp(text, s, e);
            let b = last_non_wsp(text, s, e);
            &&& spec_split_from(text, size, overlap, start)[j] == text.subrange(a, b + 1)
            &&& a == 0 || is_wsp(text[a - 1]) || no_wsp_before(text, a) || (exists|p: int|
                0 <= p < a && window_unbroken(text, size, p))
            &&& b + 1 == text.len() || is_wsp(text[b + 1]) || window_unbroken(text, size, s)
        }),
    decreases text.len() - start,
{
    let n = text.len() as int;
    let ivs = spec_intervals_from(text, size, overlap, start);
    let end = spec_chunk_end(text, size, start);
    lemma_chunk_end_bounds(text, size, start);
    lemma_trim_bounds(text, start, end);
    let emitted = spec_trimmed(text, start, end).len() > 0;
    let nx = spec_next_start(text, size, overlap, start);
    if end < n {
        lemma_next_le_end(text, size, overlap, start);
        lemma_next_start_ok(text, size, overlap, start);
    }
    if emitted && j == 0 {
        let a = first_non_wsp(text, start, end);
        let b = last_non_wsp(text, start, end);
        // Begin side: either trimming moved past whitespace, or the cursor
        // itself was acceptably placed.
        if a > start {
            assert(is_wsp(text[a - 1]));
        } else {
            assert(a == start);
            assert(!is_wsp(text[a]));
        }
        // End side: either trailing whitespace was trimmed away, or the
        // chunk's end came from `spec_chunk_end`.
        if b + 1 < end {
            assert(is_wsp(text[b + 1]));
        } else {
            assert(b + 1 == end);
            if end < n {
                let e0 = if start + size < n {
                    start + size
                } else {
                    n
                };
                let ls = last_wsp(text, start, e0);
                lemma_last_wsp_props(text, start, e0);
                if ls > start {
                    assert(is_wsp(text[end]));
                } else {
                    assert(window_unbroken(text, size, start));
                }
            }
        }
    } else {
        let j2 = if emitted {
            j - 1
        } else {
            j
        };
        assert(end < n && nx < n);
        lemma_boundaries_from(text, size, overlap, nx, j2);
    }
}

/// Whatever position the splitter moves the cursor to is an acceptable
/// chunk origin.
proof fn lemma_next_start_ok(text: Seq<char>, size: int, overlap: int, start: int)
    requires
        1 <= size,
        0 <= overlap,
        0 <= start < text.len(),
        spec_chunk_end(text, size, start) < text.len(),
    ensures
        start_ok(text, size, spec_next_start(text, size, overlap, start)),
{
    let n = text.len() as int;
    let end = spec_chunk_end(text, size, start);
    lemma_chunk_end_bounds(text, size, start);
    let ns = if end - overlap >= 0 {
        end - overlap
    } else {
        0
    };
    let adj = if ns < n && !is_wsp(text[ns]) {
        spec_snap_left(text, ns)
    } else {
        ns
    };
    let nx = spec_next_start(text, size, overlap, start);
    if adj <= start {
        // Forced to the chunk's end: that end is a whitespace the window
        // snapped to, or the window held none at all.
        let e0 = if start + size < n {
            start + size
        } else {
            n
        };
        let ls = last_wsp(text, start, e0);
        lemma_last_wsp_props(text, start, e0);
        if ls > start {
            assert(is_wsp(text[nx]));
        } else {
            assert(window_unbroken(text, size, start));
            assert(0 <= start < nx);
        }
    } else {
        if ns < n && !is_wsp(text[ns]) {
            if ns == 0 {
                assert(nx == 0);
            } else {
                let sw = scan_wsp_left(text, ns);
                lemma_scan_le(text, ns);
                if sw >= 0 {
                    assert(is_wsp(text[nx - 1]));
                } else {
                    assert(no_wsp_before(text, nx)) by {
                        assert(forall|k: int| 0 <= k <= ns ==> !is_wsp(text[k]));
                    }
                }
            }
        } else {
            assert(is_wsp(text[nx]) || nx == 0);
        }
    }
}

/// `last_wsp` only reads the window, so extending the text beyond it
/// changes nothing.
proof fn lemma_last_wsp_prefix(t: Seq<char>, ext: Seq<char>, a: int, b: int)
    requires
        0 <= a,
        b <= t.len(),
    ensures
        last_wsp(t + ext, a, b) == last_wsp(t, a, b),
    decreases b - a,
{
    if b <= a {
    } else {
        assert((t + ext)[b - 1] == t[b - 1]);
        lemma_last_wsp_prefix(t, ext, a, b - 1);
    }
}

/// `scan_wsp_left` only reads positions up to `i`.
proof fn lemma_scan_prefix(t: Seq<char>, ext: Seq<char>, i: int)
    requires
        i < t.len(),
    ensures
        scan_wsp_left(t + ext, i) == scan_wsp_left(t, i),
    decreases i + 1,
{
    if i < 0 {
    } else {
        assert((t + ext)[i] == t[i]);
        lemma_scan_prefix(t, ext, i - 1);
    }
}

proof fn lemma_first_non_wsp_prefix(t: Seq<char>, ext: Seq<char>, i: int, end: int)
    requires
        0 <= i,
        end <= t.len(),
    ensures
        first_non_wsp(t + ext, i, end) == first_non_wsp(t, i, end),
    decreases end - i,
{
    if i >= end {
    } else {
        assert((t + ext)[i] == t[i]);
        lemma_first_non_wsp_prefix(t, ext, i + 1, end);
    }
}

proof fn lemma_last_non_wsp_prefix(t: Seq<char>, ext: Seq<char>, a: int, end: int)
    requires
        0 <= a,
        end <= t.len(),
    ensures
        last_non_wsp(t + ext, a, end) == last_non_wsp(t, a, end),
    decreases end - a,
{
    if end <= a {
    } else {
        assert((t + ext)[end - 1] == t[end - 1]);
        lemma_last_non_wsp_prefix(t, ext, a, end - 1);
    }
}

/// As long as a whole window of `size` characters lies strictly inside the
/// buffered text, one splitter step computes the same chunk and the same
/// next cursor whatever text is still to come.
proof fn lemma_step_stable(t: Seq<char>, ext: Seq<char>, size: int, overlap: int, start: int)
    requires
        0 <= overlap < size,
        0 <= start,
        start + size < t.len(),
    ensures
        ({
            let t2 = t + ext;
            &&& spec_chunk_end(t2, size, start) == spec_chunk_end(t, size, start)
            &&& start < spec_chunk_end(t, size, start) <= start + size < t.len()
            &&& spec_trimmed(t2, start, spec_chunk_end(t, size, start)) == spec_trimmed(
                t,
                start,
                spec_chunk_end(t, size, start),
            )
            &&& spec_next_start(t2, size, overlap, start) == spec_next_start(
                t,
                size,
                overlap,
                start,
            )
            &&& start < spec_next_start(t, size, overlap, start) <= spec_chunk_end(
                t,
                size,
                start,
            )
        }),
{
    let t2 = t + ext;
    let n1 = t.len() as int;
    let n2 = t2.len() as int;
    let e0 = start + size;
    lemma_last_wsp_prefix(t, ext, start, e0);
    lemma_last_wsp_props(t, start, e0);
    lemma_chunk_end_bounds(t, size, start);
    let end = spec_chunk_end(t, size, start);
    assert(spec_chunk_end(t2, size, start) == end);
    lemma_first_non_wsp_prefix(t, ext, start, end);
    lemma_last_non_wsp_prefix(t, ext, start, end);
    lemma_trim_bounds(t, start, end);
    assert(spec_trimmed(t2, start, end) == spec_trimmed(t, start, end)) by {
        let a = first_non_wsp(t, start, end);
        if a != end {
            let b = last_non_wsp(t, start, end);
            assert(t2.subrange(a, b + 1) =~= t.subrange(a, b + 1));
        }
    }
    lemma_next_le_end(t, size, overlap, start);
    let ns = if end - overlap >= 0 {
        end - overlap
    } else {
        0
    };
    assert(ns < n1 && ns < n2);
    assert(t2[ns] == t[ns]);
    if !is_wsp(t[ns]) {
        lemma_scan_prefix(t, ext, ns);
    }
    assert(spec_next_start(t2, size, overlap, start) == spec_next_start(t, size, overlap, start));
}

/// The streaming splitter's standing equation: whatever text may still
/// arrive, the chunks already emitted followed by the chunks the cursor
/// has yet to produce are exactly the chunks of the whole text.
pub open spec fn stream_inv(
    text: Seq<char>,
    size: int,
    overlap: int,
    start: int,
    done: Seq<Seq<char>>,
) -> bool {
    forall|ext: Seq<char>|
        done + #[trigger] spec_split_from(text + ext, size, overlap, start) == spec_split(
            text + ext,
            size,
            overlap,
        )
}

/// The streaming variant of the splitter: text arrives line by line, and a
/// chunk is emitted as soon as a whole window of buffered text stands
/// behind the cursor, so the output cannot change whatever arrives later.
/// Finishing yields exactly `spec_split` of everything buffered.
pub struct SplitStream {
    chunk_size: usize,
    chunk_overlap: usize,
    buffer: String,
    start: usize,
    chunks: Vec<String>,
}

impl SplitStream {
    /// Everything fed so far, each line with its newline.
    pub closed spec fn buffered(&self) -> Seq<char> {
        self.buffer@
    }

    pub closed spec fn spec_chunk_size(&self) -> int {
        self.chunk_size as int
    }

    pub closed spec fn spec_chunk_overlap(&self) -> int {
        self.chunk_overlap as int
    }

    pub closed spec fn wf(&self) -> bool {
        &&& self.chunk_overlap < self.chunk_size
        &&& self.start <= self.buffer@.len()
        &&& stream_inv(
            self.buffer@,
            self.chunk_size as int,
            self.chunk_overlap as int,
            self.start as int,
            views_of(self.chunks@),
        )
    }

    /// An empty stream.
    pub fn new(chunk_size: usize, chunk_overlap: usize) -> (r: SplitStream)
        requires
            chunk_overlap < chunk_size,
        ensures
            r.wf(),
            r.buffered() == Seq::<char>::empty(),
            r.spec_chunk_size() == chunk_size,
            r.spec_chunk_overlap() == chunk_overlap,
    {
        let r = SplitStream {
            chunk_size,
            chunk_overlap,
            buffer: String::new(),
            start: 0,
            chunks: Vec::new(),
        };
        proof {
            assert forall|ext: Seq<char>|
                views_of(r.chunks@) + #[trigger] spec_split_from(
                    r.buffer@ + ext,
                    chunk_size as int,
                    chunk_overlap as int,
                    0,
                ) == spec_split(r.buffer@ + ext, chunk_size as int, chunk_overlap as int) by {
                assert(views_of(r.chunks@) =~= Seq::<Seq<char>>::empty());
                assert(views_of(r.chunks@) + spec_split_from(
                    r.buffer@ + ext,
                    chunk_size as int,
                    chunk_overlap as int,
                    0,
                ) =~= spec_split_from(r.buffer@ + ext, chunk_size as int, chunk_overlap as int, 0));
            }
        }
        r
    }

    /// Feeds one line (a newline is appended, as line readers strip it) and
    /// emits every chunk that is already settled.
    pub fn push_line(&mut self, line: &str)
        requires
            old(self).wf(),
        ensures
            final(self).wf(),
            final(self).buffered() == old(self).buffered() + line@ + "\n"@,
            final(self).spec_chunk_size() == old(self).spec_chunk_size(),
            final(self).spec_chunk_overlap() == old(self).spec_chunk_overlap(),
    {
        let ghost size = self.chunk_size as int;
        let ghost overlap = self.chunk_overlap as int;
        let ghost buf0 = self.buffer@;
        self.buffer.append(line);
        self.buffer.append("\n");
        proof {
            let grown = line@ + "\n"@;
            assert(self.buffer@ =~= buf0 + grown);
            assert forall|ext: Seq<char>|
                views_of(self.chunks@) + #[trigger] spec_split_from(
                    self.buffer@ + ext,
                    size,
                    overlap,
                    self.start as int,
                ) == spec_split(self.buffer@ + ext, size, overlap) by {
                let combined = grown + ext;
                assert(views_of(self.chunks@) + spec_split_from(
                    buf0 + combined,
                    size,
                    overlap,
                    self.start as int,
                ) == spec_split(buf0 + combined, size, overlap));
                assert(self.buffer@ + ext =~= buf0 + combined);
            }
        }
        let n = self.buffer.as_str().unicode_len();
        while n - self.start > self.chunk_size
            invariant
                n == self.buffer@.len(),
                self.buffer@ == buf0 + line@ + "\n"@,
                self.chunk_overlap < self.chunk_size,
                size == self.chunk_size as int,
                overlap == self.chunk_overlap as int,
                self.start <= n,
                stream_inv(self.buffer@, size, overlap, self.start as int, views_of(self.chunks@)),
            decreases n - self.start,
        {
            let ghost s0 = self.start as int;
            let ghost prev = views_of(self.chunks@);
            let ghost t1 = self.buffer@;
            let next = step_cursor(
                self.buffer.as_str(),
                self.chunk_size,
                self.chunk_overlap,
                self.start,
                &mut self.chunks,
            );
            proof {
                let end = spec_chunk_end(t1, size, s0);
                let c = spec_trimmed(t1, s0, end);
                let now = views_of(self.chunks@);
                assert forall|ext: Seq<char>|
                    now + #[trigger] spec_split_from(t1 + ext, size, overlap, next as int)
                        == spec_split(t1 + ext, size, overlap) by {
                    let t2 = t1 + ext;
                    assert(prev + spec_split_from(t2, size, overlap, s0) == spec_split(
                        t2,
                        size,
                        overlap,
                    ));
                    lemma_step_stable(t1, ext, size, overlap, s0);
                    assert(spec_chunk_end(t2, size, s0) == end);
                    assert(end < t2.len());
                    assert(spec_next_start(t2, size, overlap, s0) == next as int);
                    assert((next as int) < t2.len());
                    assert(spec_intervals_from(t2, size, overlap, s0) == if c.len() == 0 {
                        spec_intervals_from(t2, size, overlap, next as int)
                    } else {
                        seq![(s0, end)] + spec_intervals_from(t2, size, overlap, next as int)
                    });
                    assert(now + spec_split_from(t2, size, overlap, next as int) =~= prev
                        + spec_split_from(t2, size, overlap, s0));
                }
            }
            self.start = next;
        }
    }

    /// Emits the chunks of whatever tail is still buffered and returns the
    /// whole chunk sequence: exactly the whole-text split of everything
    /// that was fed.
    pub fn finish(self) -> (r: Vec<String>)
        requires
            self.wf(),
        ensures
            views_of(r@) == spec_split(
                self.buffered(),
                self.spec_chunk_size(),
                self.spec_chunk_overlap(),
            ),
    {
        let ghost size = self.chunk_size as int;
        let ghost overlap = self.chunk_overlap as int;
        let buffer = self.buffer;
        let mut chunks = self.chunks;
        let mut start = self.start;
        let ghost t = buffer@;
        proof {
            assert(views_of(chunks@) + spec_split_from(
                t + Seq::<char>::empty(),
                size,
                overlap,
                start as int,
            ) == spec_split(t + Seq::<char>::empty(), size, overlap));
            assert(t + Seq::<char>::empty() =~= t);
        }
        let text = buffer.as_str();
        let n = text.unicode_len();
        while start < n
            invariant
                t == text@,
                n == t.len(),
                self.chunk_overlap < self.chunk_size,
                size == self.chunk_size as int,
                overlap == self.chunk_overlap as int,
                start <= n,
                views_of(chunks@) + spec_split_from(t, size, overlap, start as int) == spec_split(
                    t,
                    size,
                    overlap,
                ),
            decreases n - start,
        {
            let ghost s0 = start as int;
            let ghost prev = chunks@;
            let next = step_cursor(text, self.chunk_size, self.chunk_overlap, start, &mut chunks);
            proof {
                lemma_step_advances(t, size, overlap, s0, views_of(prev), views_of(chunks@));
            }
            start = next;
        }
        proof {
            assert(spec_intervals_from(t, size, overlap, start as int) =~= Seq::<(
                int,
                int,
            )>::empty());
            assert(spec_split_from(t, size, overlap, start as int) =~= Seq::<Seq<char>>::empty());
            assert(views_of(chunks@) =~= views_of(chunks@) + spec_split_from(
                t,
                size,
                overlap,
                start as int,
            ));
        }
        chunks
    }
}

} // verus!
