//! Framed body readers: sized, chunked, read-to-end, and empty, over an
//! in-memory byte source.

use vstd::prelude::*;
use crate::ascii::is_hex_digit;
use crate::ascii::is_ows;
use crate::ascii::hex_digit_val;
use crate::ascii::hex_val;

verus! {

/// What a read can fail with: a malformed chunk line, or a body that
/// ends before its framing says it may.
#[derive(Clone, Copy, Debug, PartialEq, Eq, Structural)]
pub enum ReadError {
    /// Invalid characters in a chunk-size line or chunk terminator.
    InvalidInput,
    /// The source ran dry while the framing still owed bytes.
    EarlyEof,
}

/// A byte source with a read cursor: bytes before the cursor are
/// consumed, bytes after it are pending.
#[derive(Clone, Debug)]
pub struct ByteSource {
    /// The bytes backing the source.
    pub data: Vec<u8>,
    /// The read cursor.
    pub pos: usize,
}

impl ByteSource {
    /// The cursor never passes the end.
    pub open spec fn wf(&self) -> bool {
        self.pos <= self.data@.len()
    }

    /// A source over `data`, cursor at the start.
    pub fn new(data: Vec<u8>) -> (r: ByteSource)
        ensures
            r.wf(),
            r.data == data,
            r.pos == 0,
    {
        ByteSource { data, pos: 0 }
    }

    /// How many bytes are still pending.
    pub fn remaining(&self) -> (r: usize)
        requires
            self.wf(),
        ensures
            r == self.data@.len() - self.pos,
    {
        self.data.len() - self.pos
    }

    /// Reads up to `len` pending bytes, advancing the cursor past them.
    pub fn read(&mut self, len: usize) -> (r: Vec<u8>)
        requires
            old(self).wf(),
        ensures
            final(self).wf(),
            final(self).data == old(self).data,
            final(self).pos == old(self).pos + r@.len(),
            r@ == old(self).data@.subrange(
                old(self).pos as int,
                old(self).pos + r@.len(),
            ),
            r@.len() == spec_min(len as nat, (old(self).data@.len() - old(self).pos) as nat),
    {
        read_buf(self, len)
    }
}

/// The smaller of two naturals.
pub open spec fn spec_min(a: nat, b: nat) -> nat {
    if a <= b {
        a
    } else {
        b
    }
}

/// Reads up to `len` bytes out of a source into a fresh buffer.
pub fn read_buf(src: &mut ByteSource, len: usize) -> (r: Vec<u8>)
    requires
        old(src).wf(),
    ensures
        final(src).wf(),
        final(src).data == old(src).data,
        final(src).pos == old(src).pos + r@.len(),
        r@ == old(src).data@.subrange(old(src).pos as int, old(src).pos + r@.len()),
        r@.len() == spec_min(len as nat, (old(src).data@.len() - old(src).pos) as nat),
{
    let avail = src.data.len() - src.pos;
    let take = if len <= avail {
        len
    } else {
        avail
    };
    let r = crate::ascii::subvec(src.data.as_slice(), src.pos, src.pos + take);
    src.pos = src.pos + take;
    r
}

/// How many leading bytes of `bytes` stand at `pos` in `s` before the
/// first disagreement or the end of `s`.
pub open spec fn match_len(s: Seq<u8>, pos: int, bytes: Seq<u8>) -> int
    decreases bytes.len(),
{
    if bytes.len() == 0 {
        0
    } else if pos >= s.len() {
        0
    } else if s[pos] != bytes[0] {
        0
    } else {
        1 + match_len(s, pos + 1, bytes.skip(1))
    }
}

/// A byte-by-byte scan that matched `i` bytes and then stopped — at
/// the pattern's end, the source's end, or a disagreement — computed
/// `match_len`.
proof fn lemma_match_len_is(s: Seq<u8>, pos: int, bytes: Seq<u8>, i: int)
    requires
        0 <= pos,
        0 <= i <= bytes.len(),
        pos + i <= s.len(),
        forall|j: int| 0 <= j < i ==> s[pos + j] == bytes[j],
        i < bytes.len() ==> pos + i >= s.len() || s[pos + i] != bytes[i],
    ensures
        match_len(s, pos, bytes) == i,
    decreases bytes.len(),
{
    if bytes.len() > 0 && i > 0 {
        assert(s[pos] == bytes[0]);
        assert(forall|j: int| 0 <= j < i - 1 ==> s[pos + 1 + j] == bytes.skip(1)[j]);
        lemma_match_len_is(s, pos + 1, bytes.skip(1), i - 1);
    }
}

/// Consumes exactly the bytes given, in order; any other byte, or the
/// end of the source, is an error. A failed eat has consumed the
/// matching prefix and the one offending byte, if the source held one.
pub fn eat(rdr: &mut ByteSource, bytes: &[u8]) -> (r: Result<(), ReadError>)
    requires
        old(rdr).wf(),
    ensures
        final(rdr).wf(),
        final(rdr).data == old(rdr).data,
        r is Ok <==> eat_matches(old(rdr).data@, old(rdr).pos as int, bytes@),
        r is Ok ==> final(rdr).pos == old(rdr).pos + bytes@.len(),
        r is Err ==> r == Result::<(), ReadError>::Err(ReadError::InvalidInput) && final(rdr).pos
            == ({
            let m = match_len(old(rdr).data@, old(rdr).pos as int, bytes@);
            if old(rdr).pos + m < old(rdr).data@.len() {
                old(rdr).pos + m + 1
            } else {
                old(rdr).data@.len() as int
            }
        }),
{
    let n = bytes.len();
    let mut i: usize = 0;
    while i < n
        invariant
            rdr.wf(),
            rdr.data == old(rdr).data,
            i <= n,
            n == bytes@.len(),
            rdr.pos == old(rdr).pos + i,
            old(rdr).pos + i <= rdr.data@.len(),
            rdr.data@.subrange(old(rdr).pos as int, old(rdr).pos + i) == bytes@.subrange(
                0,
                i as int,
            ),
        decreases n - i,
    {
        proof {
            assert forall|j: int| 0 <= j < i implies old(rdr).data@[old(rdr).pos + j]
                == bytes@[j] by {
                assert(old(rdr).data@.subrange(old(rdr).pos as int, old(rdr).pos + i as int)[j]
                    == old(rdr).data@[old(rdr).pos + j]);
                assert(bytes@.subrange(0, i as int)[j] == bytes@[j]);
            }
        }
        if rdr.pos >= rdr.data.len() {
            proof {
                lemma_match_len_is(old(rdr).data@, old(rdr).pos as int, bytes@, i as int);
                assert(!eat_matches(old(rdr).data@, old(rdr).pos as int, bytes@));
            }
            return Err(ReadError::InvalidInput);
        }
        let b = rdr.data[rdr.pos];
        if b != bytes[i] {
            // consume the offending byte, as a byte-at-a-time read does
            rdr.pos = rdr.pos + 1;
            proof {
                assert(old(rdr).data@[old(rdr).pos + i] != bytes@[i as int]);
                lemma_match_len_is(old(rdr).data@, old(rdr).pos as int, bytes@, i as int);
                assert(!eat_matches(old(rdr).data@, old(rdr).pos as int, bytes@));
            }
            return Err(ReadError::InvalidInput);
        }
        rdr.pos = rdr.pos + 1;
        proof {
            assert(rdr.data@.subrange(old(rdr).pos as int, old(rdr).pos + (i + 1)) =~= rdr
                .data@.subrange(old(rdr).pos as int, old(rdr).pos + i) + seq![b]);
            assert(bytes@.subrange(0, i + 1 as int) =~= bytes@.subrange(0, i as int)
                + seq![bytes@[i as int]]);
        }
        i = i + 1;
    }
    proof {
        assert(rdr.data@.subrange(old(rdr).pos as int, old(rdr).pos + n) =~= bytes@.subrange(
            0,
            n as int,
        ));
        assert(bytes@.subrange(0, n as int) =~= bytes@);
        assert(eat_matches(old(rdr).data@, old(rdr).pos as int, bytes@));
    }
    Ok(())
}

/// Whether `bytes` stand verbatim at `pos` in `s`.
pub open spec fn eat_matches(s: Seq<u8>, pos: int, bytes: Seq<u8>) -> bool {
    pos + bytes.len() <= s.len() && s.subrange(pos, pos + bytes.len()) == bytes
}

/// The first index at or past `i` whose byte is not a hex digit, or
/// the end.
pub open spec fn scan_hex_end(s: Seq<u8>, i: int) -> int
    recommends
        0 <= i <= s.len(),
    decreases s.len() - i
        when 0 <= i <= s.len()
{
    if i >= s.len() {
        s.len() as int
    } else if is_hex_digit(s[i]) {
        scan_hex_end(s, i + 1)
    } else {
        i
    }
}

/// The first index at or past `i` whose byte is not a space or tab, or
/// the end.
pub open spec fn scan_ows_end(s: Seq<u8>, i: int) -> int
    recommends
        0 <= i <= s.len(),
    decreases s.len() - i
        when 0 <= i <= s.len()
{
    if i >= s.len() {
        s.len() as int
    } else if is_ows(s[i]) {
        scan_ows_end(s, i + 1)
    } else {
        i
    }
}

/// The first carriage return at or past `i`, or the end.
pub open spec fn scan_cr_end(s: Seq<u8>, i: int) -> int
    recommends
        0 <= i <= s.len(),
    decreases s.len() - i
        when 0 <= i <= s.len()
{
    if i >= s.len() {
        s.len() as int
    } else if s[i] == 13 {
        i
    } else {
        scan_cr_end(s, i + 1)
    }
}

/// A bounded scan computed by an exec loop equals `scan_hex_end`.
pub proof fn lemma_scan_hex_is(s: Seq<u8>, i: int, end: int)
    requires
        0 <= i <= end <= s.len(),
        forall|j: int| i <= j < end ==> is_hex_digit(s[j]),
        end < s.len() ==> !is_hex_digit(s[end]),
    ensures
        scan_hex_end(s, i) == end,
    decreases end - i,
{
    if i < end {
        lemma_scan_hex_is(s, i + 1, end);
    }
}

/// A bounded scan computed by an exec loop equals `scan_ows_end`.
pub proof fn lemma_scan_ows_is(s: Seq<u8>, i: int, end: int)
    requires
        0 <= i <= end <= s.len(),
        forall|j: int| i <= j < end ==> is_ows(s[j]),
        end < s.len() ==> !is_ows(s[end]),
    ensures
        scan_ows_end(s, i) == end,
    decreases end - i,
{
    if i < end {
        lemma_scan_ows_is(s, i + 1, end);
    }
}

/// A bounded scan computed by an exec loop equals `scan_cr_end`.
pub proof fn lemma_scan_cr_is(s: Seq<u8>, i: int, end: int)
    requires
        0 <= i <= end <= s.len(),
        forall|j: int| i <= j < end ==> s[j] != 13,
        end < s.len() ==> s[end] == 13,
    ensures
        scan_cr_end(s, i) == end,
    decreases end - i,
{
    if i < end {
        lemma_scan_cr_is(s, i + 1, end);
    }
}

/// What a chunk-size line at `i` denotes: the chunk size and the index
/// just past the line's `\r\n`, or nothing if the line is malformed.
///
/// The line is one or more hex digits, then optional whitespace, then
/// either the line end or a `;`-marked extension, ignored up to the
/// line end. A size beyond `u64` does not fit and is malformed.
pub open spec fn spec_chunk_size_line(s: Seq<u8>, i: int) -> Option<(u64, int)>
    recommends
        0 <= i <= s.len(),
{
    let dend = scan_hex_end(s, i);
    if dend == i {
        None
    } else if hex_val(s.subrange(i, dend)) > u64::MAX {
        None
    } else {
        let v = hex_val(s.subrange(i, dend)) as u64;
        let wend = scan_ows_end(s, dend);
        if wend < s.len() && s[wend] == 13 {
            if wend + 1 < s.len() && s[wend + 1] == 10 {
                Some((v, wend + 2))
            } else {
                None
            }
        } else if wend < s.len() && s[wend] == 59 {
            let cr = scan_cr_end(s, wend + 1);
            if cr + 1 < s.len() && s[cr + 1] == 10 {
                Some((v, cr + 2))
            } else {
                None
            }
        } else {
            None
        }
    }
}

/// `hex_val` never shrinks as the digit string grows.
pub proof fn lemma_hex_val_take_monotone(s: Seq<u8>, i: int)
    requires
        0 <= i <= s.len(),
    ensures
        hex_val(s.take(i)) <= hex_val(s),
    decreases s.len() - i,
{
    if i == s.len() {
        assert(s.take(i) =~= s);
    } else {
        assert(s.take(i + 1).drop_last() =~= s.take(i));
        assert(s.take(i + 1).last() == s[i]);
        assert(hex_val(s.take(i)) <= hex_val(s.take(i + 1)));
        lemma_hex_val_take_monotone(s, i + 1);
    }
}

/// Scans stay within the string; everything before the stop is a hex
/// digit and the stop, if inside, is not.
pub proof fn lemma_scan_hex_bounds(s: Seq<u8>, i: int)
    requires
        0 <= i <= s.len(),
    ensures
        i <= scan_hex_end(s, i) <= s.len(),
        forall|j: int| i <= j < scan_hex_end(s, i) ==> is_hex_digit(s[j]),
        scan_hex_end(s, i) < s.len() ==> !is_hex_digit(s[scan_hex_end(s, i)]),
    decreases s.len() - i,
{
    if i < s.len() && is_hex_digit(s[i]) {
        lemma_scan_hex_bounds(s, i + 1);
    }
}

/// As `lemma_scan_hex_bounds`, for the whitespace scan.
pub proof fn lemma_scan_ows_bounds(s: Seq<u8>, i: int)
    requires
        0 <= i <= s.len(),
    ensures
        i <= scan_ows_end(s, i) <= s.len(),
    decreases s.len() - i,
{
    if i < s.len() && is_ows(s[i]) {
        lemma_scan_ows_bounds(s, i + 1);
    }
}

/// As `lemma_scan_hex_bounds`, for the carriage-return scan.
pub proof fn lemma_scan_cr_bounds(s: Seq<u8>, i: int)
    requires
        0 <= i <= s.len(),
    ensures
        i <= scan_cr_end(s, i) <= s.len(),
    decreases s.len() - i,
{
    if i < s.len() && s[i] != 13 {
        lemma_scan_cr_bounds(s, i + 1);
    }
}

/// A well-formed chunk-size line ends strictly past where it starts,
/// within the string.
pub proof fn lemma_chunk_size_line_bounds(s: Seq<u8>, i: int)
    requires
        0 <= i <= s.len(),
        spec_chunk_size_line(s, i) is Some,
    ensures
        i < spec_chunk_size_line(s, i)->Some_0.1 <= s.len(),
{
    lemma_scan_hex_bounds(s, i);
    let dend = scan_hex_end(s, i);
    lemma_scan_ows_bounds(s, dend);
    let wend = scan_ows_end(s, dend);
    if wend < s.len() && s[wend] == 59 {
        lemma_scan_cr_bounds(s, wend + 1);
    }
}

/// Reads one chunk-size line: hex digits, optional whitespace, an
/// ignored extension if any, and the line end. The cursor moves past
/// the line on success and stays put on a malformed line.
pub fn read_chunk_size(rdr: &mut ByteSource) -> (r: Result<u64, ReadError>)
    requires
        old(rdr).wf(),
    ensures
        final(rdr).wf(),
        final(rdr).data == old(rdr).data,
        match spec_chunk_size_line(old(rdr).data@, old(rdr).pos as int) {
            Some((v, j)) => r == Result::<u64, ReadError>::Ok(v) && final(rdr).pos == j,
            None => r == Result::<u64, ReadError>::Err(ReadError::InvalidInput) && final(rdr).pos
                == old(rdr).pos,
        },
{
    let ghost s = rdr.data@;
    let n = rdr.data.len();
    let start = rdr.pos;
    // scan the run of hex digits
    let mut dend: usize = start;
    while dend < n && crate::ascii::is_hex_byte(rdr.data[dend])
        invariant
            rdr.wf(),
            s == rdr.data@,
            n == s.len(),
            start <= dend <= n,
            start == rdr.pos,
            forall|j: int| start <= j < dend ==> is_hex_digit(s[j]),
        decreases n - dend,
    {
        dend = dend + 1;
    }
    proof {
        lemma_scan_hex_is(s, start as int, dend as int);
    }
    if dend == start {
        return Err(ReadError::InvalidInput);
    }
    // accumulate the value, watching for overflow
    let mut val: u64 = 0;
    let mut i: usize = start;
    while i < dend
        invariant
            rdr.wf(),
            s == rdr.data@,
            n == s.len(),
            start <= i <= dend <= n,
            start == rdr.pos,
            forall|j: int| start <= j < dend ==> is_hex_digit(s[j]),
            scan_hex_end(s, start as int) == dend,
            val == hex_val(s.subrange(start as int, i as int)),
        decreases dend - i,
    {
        let b = rdr.data[i];
        let d: u64 = if 48 <= b && b <= 57 {
            (b - 48) as u64
        } else if 65 <= b && b <= 70 {
            (b - 55) as u64
        } else {
            (b - 87) as u64
        };
        proof {
            assert(d == hex_digit_val(s[i as int]));
            assert(s.subrange(start as int, i + 1 as int).drop_last() =~= s.subrange(
                start as int,
                i as int,
            ));
            assert(s.subrange(start as int, i + 1 as int).last() == s[i as int]);
        }
        if val > (u64::MAX - d) / 16 {
            proof {
                let q = ((u64::MAX - d) / 16) as int;
                assert(val * 16 + d > u64::MAX) by (nonlinear_arith)
                    requires
                        val > q,
                        q == ((u64::MAX - d) as int) / 16,
                        0 <= d < 16,
                {}
                let digits = s.subrange(start as int, dend as int);
                assert(digits.take(i + 1 - start) =~= s.subrange(start as int, i + 1 as int));
                lemma_hex_val_take_monotone(digits, i + 1 - start);
                assert(hex_val(digits) > u64::MAX);
            }
            return Err(ReadError::InvalidInput);
        }
        proof {
            let q = ((u64::MAX - d) / 16) as int;
            assert(val * 16 + d <= u64::MAX) by (nonlinear_arith)
                requires
                    val <= q,
                    q == ((u64::MAX - d) as int) / 16,
                    0 <= d < 16,
            {}
        }
        val = val * 16 + d;
        i = i + 1;
    }
    // past the digits: optional whitespace
    let mut wend: usize = dend;
    while wend < n && crate::ascii::is_ows_byte(rdr.data[wend])
        invariant
            rdr.wf(),
            s == rdr.data@,
            n == s.len(),
            dend <= wend <= n,
            start == rdr.pos,
            start <= dend,
            forall|j: int| dend <= j < wend ==> is_ows(s[j]),
            scan_hex_end(s, start as int) == dend,
            val == hex_val(s.subrange(start as int, dend as int)),
        decreases n - wend,
    {
        wend = wend + 1;
    }
    proof {
        lemma_scan_ows_is(s, dend as int, wend as int);
    }
    if wend < n && rdr.data[wend] == 13 {
        if wend + 1 < n && rdr.data[wend + 1] == 10 {
            rdr.pos = wend + 2;
            return Ok(val);
        }
        return Err(ReadError::InvalidInput);
    }
    if wend < n && rdr.data[wend] == 59 {
        // an extension: ignore everything up to the line end
        let mut cr: usize = wend + 1;
        while cr < n && rdr.data[cr] != 13
            invariant
                rdr.wf(),
                s == rdr.data@,
                n == s.len(),
                wend + 1 <= cr <= n,
                start == rdr.pos,
                forall|j: int| wend + 1 <= j < cr ==> s[j] != 13,
            decreases n - cr,
        {
            cr = cr + 1;
        }
        proof {
            lemma_scan_cr_is(s, wend + 1, cr as int);
        }
        if cr < n && n - cr > 1 && rdr.data[cr + 1] == 10 {
            rdr.pos = cr + 2;
            return Ok(val);
        }
        return Err(ReadError::InvalidInput);
    }
    Err(ReadError::InvalidInput)
}

/// Readers to handle the different transfer encodings of a body.
#[derive(Debug)]
pub enum HttpReader {
    /// A reader for a body bounded by a `Content-Length`; the counter
    /// holds the bytes still owed.
    SizedReader(ByteSource, u64),
    /// A reader for a `chunked` transfer coding; the counter holds how
    /// much of the current chunk is still owed, or nothing between
    /// chunks.
    ChunkedReader(ByteSource, Option<u64>),
    /// A reader for a message delimited only by the end of the source.
    EofReader(ByteSource),
    /// A reader for a message that can never have a body.
    EmptyReader(ByteSource),
}

/// The source under a reader, whatever the variant.
pub open spec fn reader_src(r: HttpReader) -> ByteSource {
    match r {
        HttpReader::SizedReader(s, _) => s,
        HttpReader::ChunkedReader(s, _) => s,
        HttpReader::EofReader(s) => s,
        HttpReader::EmptyReader(s) => s,
    }
}

impl HttpReader {
    /// The reader's source never has its cursor past the end.
    pub open spec fn wf(&self) -> bool {
        reader_src(*self).wf()
    }

    /// Unwraps this reader and returns the underlying source.
    pub fn into_inner(self) -> (r: ByteSource)
        ensures
            r == reader_src(self),
    {
        match self {
            HttpReader::SizedReader(s, _) => s,
            HttpReader::ChunkedReader(s, _) => s,
            HttpReader::EofReader(s) => s,
            HttpReader::EmptyReader(s) => s,
        }
    }

    /// Borrows the underlying source.
    pub fn get_ref(&self) -> (r: &ByteSource)
        ensures
            *r == reader_src(*self),
    {
        match self {
            HttpReader::SizedReader(s, _) => s,
            HttpReader::ChunkedReader(s, _) => s,
            HttpReader::EofReader(s) => s,
            HttpReader::EmptyReader(s) => s,
        }
    }

    /// Borrows the underlying source mutably.
    pub fn get_mut(&mut self) -> (r: &mut ByteSource)
        ensures
            *r == reader_src(*old(self)),
            reader_src(*final(self)) == *final(r),
            match *old(self) {
                HttpReader::SizedReader(_, rem) => *final(self) is SizedReader
                    && final(self)->SizedReader_1 == rem,
                HttpReader::ChunkedReader(_, o) => *final(self) is ChunkedReader
                    && final(self)->ChunkedReader_1 == o,
                HttpReader::EofReader(_) => *final(self) is EofReader,
                HttpReader::EmptyReader(_) => *final(self) is EmptyReader,
            },
    {
        match self {
            HttpReader::SizedReader(s, _) => s,
            HttpReader::ChunkedReader(s, _) => s,
            HttpReader::EofReader(s) => s,
            HttpReader::EmptyReader(s) => s,
        }
    }

    /// Whether this reader can still yield body bytes: an empty reader,
    /// an exhausted sized reader, and a chunked reader at its terminal
    /// chunk cannot; a read-to-end reader always may.
    pub fn has_body(&self) -> (r: bool)
        ensures
            r == spec_has_body(*self),
    {
        match self {
            HttpReader::EmptyReader(_) => false,
            HttpReader::SizedReader(_, rem) => *rem != 0,
            HttpReader::ChunkedReader(_, o) => match o {
                Some(rem) => *rem != 0,
                None => true,
            },
            HttpReader::EofReader(_) => true,
        }
    }

    /// Reads up to `n` body bytes, decoding the framing.
    pub fn read(&mut self, n: usize) -> (r: Result<Vec<u8>, ReadError>)
        requires
            old(self).wf(),
        ensures
            final(self).wf(),
            reader_src(*final(self)).data == reader_src(*old(self)).data,
            *old(self) is EmptyReader ==> *final(self) == *old(self) && r is Ok && r->Ok_0@
                =~= Seq::<u8>::empty(),
            *old(self) is EofReader ==> {
                let src = reader_src(*old(self));
                let got = spec_min(n as nat, (src.data@.len() - src.pos) as nat);
                &&& r is Ok
                &&& r->Ok_0@ == src.data@.subrange(src.pos as int, src.pos + got)
                &&& *final(self) is EofReader
                &&& reader_src(*final(self)).pos == src.pos + got
            },
            *old(self) is SizedReader ==> sized_read_post(*old(self), *final(self), n as nat, r),
            *old(self) is ChunkedReader ==> chunked_read_post(*old(self), *final(self), n as nat, r),
    {
        match self {
            HttpReader::EmptyReader(_) => Ok(Vec::new()),
            HttpReader::EofReader(src) => Ok(src.read(n)),
            HttpReader::SizedReader(src, rem) => {
                if *rem == 0 {
                    return Ok(Vec::new());
                }
                let to_read: usize = if *rem <= n as u64 {
                    *rem as usize
                } else {
                    n
                };
                let got = src.read(to_read);
                if got.len() == 0 {
                    return Err(ReadError::EarlyEof);
                }
                *rem = *rem - got.len() as u64;
                Ok(got)
            },
            HttpReader::ChunkedReader(src, opt) => {
                let mut rem: u64 = match opt {
                    Some(r) => *r,
                    None => {
                        match read_chunk_size(src) {
                            Ok(sz) => sz,
                            Err(e) => {
                                return Err(e);
                            },
                        }
                    },
                };
                if rem == 0 {
                    // the zero chunk ends the stream
                    *opt = Some(0);
                    return Ok(Vec::new());
                }
                let to_read: usize = if rem <= n as u64 {
                    rem as usize
                } else {
                    n
                };
                let count = src.read(to_read);
                if count.len() == 0 {
                    *opt = Some(0);
                    return Err(ReadError::EarlyEof);
                }
                rem = rem - count.len() as u64;
                if rem > 0 {
                    *opt = Some(rem);
                } else {
                    let crlf_bytes: [u8; 2] = [13, 10];
                    match eat(src, crlf_bytes.as_slice()) {
                        Ok(_) => {
                            *opt = None;
                        },
                        Err(e) => {
                            return Err(e);
                        },
                    }
                }
                Ok(count)
            },
        }
    }
}

/// Whether a reader can still yield body bytes.
pub open spec fn spec_has_body(r: HttpReader) -> bool {
    match r {
        HttpReader::EmptyReader(_) => false,
        HttpReader::SizedReader(_, rem) => rem != 0,
        HttpReader::ChunkedReader(_, o) => o != Some(0u64),
        HttpReader::EofReader(_) => true,
    }
}

/// What one read does to a sized reader: nothing once the counter is
/// spent; an early-end error if bytes are owed and none can be read;
/// otherwise the next bytes, the cursor and counter moving together.
pub open spec fn sized_read_post(
    r0: HttpReader,
    r1: HttpReader,
    n: nat,
    r: Result<Vec<u8>, ReadError>,
) -> bool {
    let src = reader_src(r0);
    let rem = r0->SizedReader_1;
    if rem == 0 {
        r1 == r0 && r is Ok && r->Ok_0@ == Seq::<u8>::empty()
    } else {
        let to_read = spec_min(rem as nat, n);
        let got = spec_min(to_read, (src.data@.len() - src.pos) as nat);
        if got == 0 {
            r1 == r0 && r == Result::<Vec<u8>, ReadError>::Err(ReadError::EarlyEof)
        } else {
            &&& r is Ok
            &&& r->Ok_0@ == src.data@.subrange(src.pos as int, src.pos + got)
            &&& r1 is SizedReader
            &&& r1->SizedReader_1 == rem - got
            &&& reader_src(r1).pos == src.pos + got
        }
    }
}

/// What one read does to a chunked reader: a fresh chunk-size line is
/// read when no chunk is open; the zero chunk ends the stream; owed
/// bytes come out as far as the source and `n` allow, and a finished
/// chunk consumes its closing line end.
pub open spec fn chunked_read_post(
    r0: HttpReader,
    r1: HttpReader,
    n: nat,
    r: Result<Vec<u8>, ReadError>,
) -> bool {
    let src = reader_src(r0);
    let opt = r0->ChunkedReader_1;
    if opt is None {
        match spec_chunk_size_line(src.data@, src.pos as int) {
            None => r == Result::<Vec<u8>, ReadError>::Err(ReadError::InvalidInput) && r1 == r0,
            Some((sz, j)) => chunked_read_sized_post(src.data@, j, sz, r1, n, r),
        }
    } else {
        chunked_read_sized_post(src.data@, src.pos as int, opt->0 as u64, r1, n, r)
    }
}

/// The tail of `chunked_read_post`, once the owed count and the cursor
/// under it are settled.
pub open spec fn chunked_read_sized_post(
    data: Seq<u8>,
    pos: int,
    rem: u64,
    r1: HttpReader,
    n: nat,
    r: Result<Vec<u8>, ReadError>,
) -> bool {
    if rem == 0 {
        &&& r is Ok
        &&& r->Ok_0@ == Seq::<u8>::empty()
        &&& r1 is ChunkedReader
        &&& r1->ChunkedReader_1 == Some(0u64)
        &&& reader_src(r1).pos == pos
    } else {
        let to_read = spec_min(rem as nat, n);
        let got = spec_min(to_read, (data.len() - pos) as nat);
        if got == 0 {
            &&& r == Result::<Vec<u8>, ReadError>::Err(ReadError::EarlyEof)
            &&& r1 is ChunkedReader
            &&& r1->ChunkedReader_1 == Some(0u64)
            &&& reader_src(r1).pos == pos
        } else {
            let out = data.subrange(pos, pos + got);
            if rem - got > 0 {
                &&& r is Ok
                &&& r->Ok_0@ == out
                &&& r1 is ChunkedReader
                &&& r1->ChunkedReader_1 == Some((rem - got) as u64)
                &&& reader_src(r1).pos == pos + got
            } else if eat_matches(data, pos + got, crate::ascii::crlf()) {
                &&& r is Ok
                &&& r->Ok_0@ == out
                &&& r1 is ChunkedReader
                &&& r1->ChunkedReader_1 is None
                &&& reader_src(r1).pos == pos + got + 2
            } else {
                &&& r == Result::<Vec<u8>, ReadError>::Err(ReadError::InvalidInput)
                &&& r1 is ChunkedReader
            }
        }
    }
}

/// Every digit the hex renderer writes is a hex digit.
pub proof fn lemma_hex_bytes_all_hex(n: nat)
    ensures
        forall|i: int| 0 <= i < crate::ascii::hex_bytes(n).len() ==> is_hex_digit(
            #[trigger] crate::ascii::hex_bytes(n)[i],
        ),
    decreases n,
{
    let hb = crate::ascii::hex_bytes(n);
    if n < 16 {
        assert(hb =~= seq![crate::ascii::hex_digit(n)]);
        assert(is_hex_digit(crate::ascii::hex_digit(n)));
    } else {
        lemma_hex_bytes_all_hex(n / 16);
        let pre = crate::ascii::hex_bytes(n / 16);
        assert(hb == pre.push(crate::ascii::hex_digit(n % 16)));
        assert(is_hex_digit(crate::ascii::hex_digit(n % 16)));
        assert forall|i: int| 0 <= i < hb.len() implies is_hex_digit(hb[i]) by {
            if i < pre.len() {
                assert(hb[i] == pre[i]);
            } else {
                assert(hb[i] == crate::ascii::hex_digit(n % 16));
            }
        }
    }
}

/// Reading back what the hex renderer wrote gives the number again.
pub proof fn lemma_hex_val_hex_bytes(n: nat)
    ensures
        hex_val(crate::ascii::hex_bytes(n)) == n,
    decreases n,
{
    let hb = crate::ascii::hex_bytes(n);
    if n < 16 {
        assert(hb =~= seq![crate::ascii::hex_digit(n)]);
        assert(hb.drop_last() =~= Seq::<u8>::empty());
        assert(hex_val(hb) == hex_val(Seq::<u8>::empty()) * 16 + hex_digit_val(
            crate::ascii::hex_digit(n),
        ));
    } else {
        lemma_hex_val_hex_bytes(n / 16);
        assert(hb.drop_last() =~= crate::ascii::hex_bytes(n / 16));
        assert(hb.last() == crate::ascii::hex_digit(n % 16));
    }
}

/// What a chunked stream decodes to: chunks, each a size line and that
/// many payload bytes closed by a line end, down to the zero chunk.
pub open spec fn spec_chunked_decode(s: Seq<u8>) -> Option<Seq<u8>>
    decreases s.len()
        via check_chunked_decode_decreases
{
    match spec_chunk_size_line(s, 0) {
        None => None,
        Some((sz, j)) => {
            if sz == 0 {
                Some(Seq::empty())
            } else if j + sz + 2 <= s.len() && s[j + sz] == 13 && s[j + sz + 1] == 10 {
                match spec_chunked_decode(s.skip(j + sz + 2)) {
                    Some(rest) => Some(s.subrange(j, j + sz) + rest),
                    None => None,
                }
            } else {
                None
            }
        },
    }
}

#[via_fn]
proof fn check_chunked_decode_decreases(s: Seq<u8>) {
    if spec_chunk_size_line(s, 0) is Some {
        lemma_chunk_size_line_bounds(s, 0);
    }
}

/// One encoded chunk at the head of a stream parses back to its own
/// length, the cursor landing on its payload.
pub proof fn lemma_chunk_encode_parses(w: Seq<u8>, e: Seq<u8>)
    requires
        w.len() > 0,
        w.len() <= u64::MAX,
    ensures
        ({
            let h = crate::ascii::hex_bytes(w.len()).len() as int;
            spec_chunk_size_line(crate::write::chunk_encode(w) + e, 0) == Some(
                (w.len() as u64, h + 2),
            )
        }),
{
    let hb = crate::ascii::hex_bytes(w.len());
    let h = hb.len() as int;
    let s = crate::write::chunk_encode(w) + e;
    lemma_hex_bytes_all_hex(w.len());
    lemma_hex_val_hex_bytes(w.len());
    assert(s.subrange(0, h) =~= hb);
    assert(s[h] == 13);
    assert(s[h + 1] == 10);
    assert(forall|j: int| 0 <= j < h ==> is_hex_digit(s[j])) by {
        assert(forall|j: int| 0 <= j < h ==> s[j] == hb[j]);
    }
    lemma_scan_hex_is(s, 0, h);
    lemma_scan_ows_is(s, h, h);
}

/// Chunked round-trip: the bytes a chunked writer emits for any
/// sequence of writes, terminator included, decode back to the
/// concatenation of the writes.
pub proof fn lemma_chunked_round_trip(ws: Seq<Seq<u8>>)
    requires
        forall|i: int| 0 <= i < ws.len() ==> #[trigger] ws[i].len() <= u64::MAX,
    ensures
        spec_chunked_decode(
            crate::write::chunked_emitted(ws) + crate::write::chunk_terminator(),
        ) == Some(ws.flatten()),
    decreases ws.len(),
{
    let term = crate::write::chunk_terminator();
    if ws.len() == 0 {
        let s = crate::write::chunked_emitted(ws) + term;
        assert(s =~= term);
        assert(s.len() == 5);
        assert(s[0] == 48 && s[1] == 13 && s[2] == 10);
        lemma_scan_hex_is(s, 0, 1);
        lemma_scan_ows_is(s, 1, 1);
        assert(s.subrange(0, 1) =~= seq![48u8]);
        assert(hex_val(seq![48u8]) == 0) by {
            reveal_with_fuel(hex_val, 2);
            assert(seq![48u8].drop_last() =~= Seq::<u8>::empty());
        }
        assert(spec_chunk_size_line(s, 0) == Some((0u64, 3int)));
        assert(ws.flatten() =~= Seq::<u8>::empty());
    } else {
        let w = ws.first();
        let rest = ws.drop_first();
        assert(ws[0].len() <= u64::MAX);
        assert(forall|i: int| 0 <= i < rest.len() ==> #[trigger] rest[i].len() <= u64::MAX) by {
            assert(forall|i: int| 0 <= i < rest.len() ==> rest[i] == ws[i + 1]);
        }
        lemma_chunked_round_trip(rest);
        let e = crate::write::chunked_emitted(rest) + term;
        let s = crate::write::chunked_emitted(ws) + term;
        assert(s =~= crate::write::chunk_encode(w) + e);
        if w.len() == 0 {
            assert(crate::write::chunk_encode(w) =~= Seq::<u8>::empty());
            assert(s =~= e);
            assert(ws.flatten() =~= rest.flatten());
        } else {
            let hb = crate::ascii::hex_bytes(w.len());
            let h = hb.len() as int;
            lemma_chunk_encode_parses(w, e);
            assert(spec_chunk_size_line(s, 0) == Some((w.len() as u64, h + 2)));
            let j = h + 2;
            let sz = w.len() as int;
            assert(j + sz + 2 <= s.len());
            assert(s[j + sz] == 13);
            assert(s[j + sz + 1] == 10);
            assert(s.subrange(j, j + sz) =~= w);
            assert(s.skip(j + sz + 2) =~= e);
            assert(ws.flatten() == w + rest.flatten());
        }
    }
}

} // verus!
