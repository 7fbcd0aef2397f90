//! Line framing for the RWhois wire protocol (RFC 2167 §3.1.9).
//!
//! Inbound, a line ends at `LF`, optionally preceded by `CR`; control bytes
//! other than tab are dropped from the payload, a byte of `0x80` or above is
//! refused, and surrounding spaces and tabs are trimmed. Outbound, every
//! line is written with a `CRLF` terminator. Lines are capped at a maximum
//! length in bytes, terminator included.

use vstd::prelude::*;

use crate::buf::{buf_as_slice, buf_bytes, buf_len, buf_put_slice, buf_split_to};
use crate::error::Error;
use crate::query::{all_ascii_chars, lemma_ascii_query_never_splits, lemma_trim_ascii, query_splits};
use crate::text::{is_blank, string_from_chars, trim, trim_bounds, trim_end, trim_start, Blanks};
use crate::wire::code::ResponseCode;
use crate::MAX_LINE;
use vstd::string::StringSliceAdditionalSpecFns;

verus! {

/// The `CRLF` terminator written by the encoder.
pub const CRLF: [u8; 2] = [13, 10];

/// Splits an inbound byte stream into trimmed text lines and writes
/// outbound lines with `CRLF` terminators.
#[derive(Debug, Clone, Copy)]
pub struct RwhoisCodec {
    max_line: usize,
    next_index: usize,
}

/// The index of the first `LF` of `s` at or after `i`.
pub open spec fn newline_from(s: Seq<u8>, i: int) -> Option<int>
    decreases s.len() - i,
{
    if i < 0 || i >= s.len() {
        None
    } else if s[i] == 10 {
        Some(i)
    } else {
        newline_from(s, i + 1)
    }
}

/// The end of the payload of a line whose `LF` is at `p`: a `CR` just
/// before it is not part of the payload.
pub open spec fn payload_end(s: Seq<u8>, p: int) -> int {
    if p > 0 && s[p - 1] == 13 {
        p - 1
    } else {
        p
    }
}

/// Every byte is below `0x80`.
pub open spec fn all_ascii(raw: Seq<u8>) -> bool {
    forall|i: int| 0 <= i < raw.len() ==> #[trigger] raw[i] < 0x80
}

/// Whether the decoder keeps byte `b`: tab and every byte from `0x20`.
pub open spec fn kept_byte(b: u8) -> bool {
    b == 9 || b >= 0x20
}

/// The kept bytes of `raw`, as characters.
pub open spec fn kept_chars(raw: Seq<u8>) -> Seq<char>
    decreases raw.len(),
{
    if raw.len() == 0 {
        seq![]
    } else {
        kept_chars(raw.drop_last()) + if kept_byte(raw.last()) {
            seq![raw.last() as char]
        } else {
            seq![]
        }
    }
}

/// The text a payload decodes to: its kept bytes, trimmed of spaces and
/// tabs.
pub open spec fn line_text(raw: Seq<u8>) -> Seq<char> {
    trim(Blanks::SpaceTab, kept_chars(raw))
}

impl RwhoisCodec {
    /// The configured maximum line length.
    pub closed spec fn spec_max_line(&self) -> usize {
        self.max_line
    }

    /// Where the search for the next `LF` resumes.
    pub closed spec fn spec_next_index(&self) -> usize {
        self.next_index
    }

    /// A codec capped at [`MAX_LINE`] bytes per line.
    pub fn new() -> (c: RwhoisCodec)
        ensures
            c.spec_max_line() == MAX_LINE,
            c.spec_next_index() == 0,
    {
        Self::with_max_line(MAX_LINE)
    }

    /// A codec with a custom maximum line length (bytes).
    pub fn with_max_line(max_line: usize) -> (c: RwhoisCodec)
        ensures
            c.spec_max_line() == max_line,
            c.spec_next_index() == 0,
    {
        RwhoisCodec { max_line, next_index: 0 }
    }

    /// The configured maximum line length (bytes), terminator included.
    pub fn max_line(&self) -> (n: usize)
        ensures
            n == self.spec_max_line(),
    {
        self.max_line
    }

    /// Where the search for the next `LF` resumes: a buffer handed to
    /// [`Self::decode`] must hold at least this many bytes.
    pub fn resume_index(&self) -> (n: usize)
        ensures
            n == self.spec_next_index(),
    {
        self.next_index
    }

    /// Take the next complete line out of `src`.
    ///
    /// The search for `LF` resumes where the previous unsuccessful call
    /// stopped. On a complete line the line and its terminator leave `src`;
    /// `Ok(None)` means more input is needed. A line (or, with no `LF` yet,
    /// the buffered input) longer than the maximum yields
    /// `Error::LineTooLong`, and a payload byte of `0x80` or above yields a
    /// `350` protocol error after the line has left `src`.
    #[verifier::loop_isolation(false)]
    pub fn decode(&mut self, src: &mut bytes::BytesMut) -> (res: Result<Option<String>, Error>)
        requires
            old(self).spec_next_index() <= buf_bytes(*old(src)).len(),
        ensures
            final(self).spec_max_line() == old(self).spec_max_line(),
            ({
                let s = buf_bytes(*old(src));
                let max = old(self).spec_max_line();
                match newline_from(s, old(self).spec_next_index() as int) {
                    Some(p) => if p + 1 > max {
                        &&& res matches Err(Error::LineTooLong { max: m }) && m == max
                        &&& buf_bytes(*final(src)) == s
                        &&& final(self).spec_next_index() == old(self).spec_next_index()
                    } else {
                        let raw = s.take(payload_end(s, p));
                        &&& buf_bytes(*final(src)) == s.skip(p + 1)
                        &&& final(self).spec_next_index() == 0
                        &&& if all_ascii(raw) {
                            res matches Ok(Some(line)) && line@ == line_text(raw)
                        } else {
                            res matches Err(Error::Protocol { code, message }) && code
                                == ResponseCode::invalid_query_syntax() && message@
                                == "non-ASCII byte in line"@
                        }
                    },
                    None => if s.len() > max {
                        &&& res matches Err(Error::LineTooLong { max: m }) && m == max
                        &&& buf_bytes(*final(src)) == s
                        &&& final(self).spec_next_index() == old(self).spec_next_index()
                    } else {
                        &&& res matches Ok(None)
                        &&& buf_bytes(*final(src)) == s
                        &&& final(self).spec_next_index() == s.len()
                    },
                }
            }),
    {
        let ghost s = buf_bytes(*src);
        let len = buf_len(src);
        let mut i = self.next_index;
        let found;
        {
            let bytes = buf_as_slice(src);
            while i < len && bytes[i] != 10
                invariant
                    old(self).spec_next_index() <= i <= len,
                    len == s.len(),
                    bytes@ == s,
                    newline_from(s, old(self).spec_next_index() as int) == newline_from(
                        s,
                        i as int,
                    ),
                decreases len - i,
            {
                i = i + 1;
            }
            found = i < len;
        }
        if !found {
            if len > self.max_line {
                return Err(Error::LineTooLong { max: self.max_line });
            }
            self.next_index = len;
            return Ok(None);
        }
        let newline_pos = i;
        assert(newline_from(s, old(self).spec_next_index() as int) == Some(newline_pos as int));
        if newline_pos >= self.max_line {
            return Err(Error::LineTooLong { max: self.max_line });
        }
        let line_end = if newline_pos > 0 && buf_as_slice(src)[newline_pos - 1] == 13 {
            newline_pos - 1
        } else {
            newline_pos
        };
        let raw = buf_split_to(src, newline_pos + 1);
        self.next_index = 0;
        let raw_bytes = buf_as_slice(&raw);
        let ghost payload = s.take(line_end as int);
        let mut out: Vec<char> = Vec::new();
        let mut k: usize = 0;
        while k < line_end
            invariant
                k <= line_end <= newline_pos < raw_bytes@.len(),
                newline_pos < s.len(),
                raw_bytes@ == s.take(newline_pos + 1),
                payload == s.take(line_end as int),
                out@ == kept_chars(payload.take(k as int)),
                all_ascii(payload.take(k as int)),
            decreases line_end - k,
        {
            let b = raw_bytes[k];
            assert(payload.take(k + 1).drop_last() =~= payload.take(k as int));
            assert(payload.take(k + 1).last() == b);
            if b >= 0x80 {
                assert(!all_ascii(payload)) by {
                    assert(payload[k as int] == b);
                }
                return Err(
                    Error::Protocol {
                        code: ResponseCode::invalid_query_syntax(),
                        message: "non-ASCII byte in line".to_owned(),
                    },
                );
            }
            if b == 9 || b >= 0x20 {
                out.push(b as char);
            }
            k = k + 1;
            assert(all_ascii(payload.take(k as int))) by {
                assert forall|j: int| 0 <= j < k implies #[trigger] payload.take(k as int)[j]
                    < 0x80 by {
                    if j < k - 1 {
                        assert(payload.take(k as int)[j] == payload.take(k - 1)[j]);
                    }
                }
            }
        }
        assert(payload.take(line_end as int) =~= payload);
        let (lo, hi) = trim_bounds(Blanks::SpaceTab, out.as_slice());
        let mut w: Vec<char> = Vec::new();
        let mut j = lo;
        while j < hi
            invariant
                lo <= j <= hi <= out@.len(),
                w@ == out@.subrange(lo as int, j as int),
            decreases hi - j,
        {
            w.push(out[j]);
            j = j + 1;
        }
        Ok(Some(string_from_chars(w.as_slice())))
    }
    /// Append `item` and a `CRLF` terminator to `dst`.
    ///
    /// A line longer than the maximum (terminator included) yields
    /// `Error::LineTooLong`; an embedded `CR` or `LF` yields a `402`
    /// protocol error. Nothing is written on error.
    #[verifier::loop_isolation(false)]
    pub fn encode(&mut self, item: &[u8], dst: &mut bytes::BytesMut) -> (res: Result<(), Error>)
        requires
            buf_bytes(*old(dst)).len() + item@.len() + 2 <= usize::MAX,
        ensures
            *final(self) == *old(self),
            encode_result(old(self).spec_max_line(), item@, buf_bytes(*old(dst)), res, buf_bytes(*final(dst))),
    {
        if self.max_line < 2 || item.len() > self.max_line - 2 {
            return Err(Error::LineTooLong { max: self.max_line });
        }
        let mut i: usize = 0;
        while i < item.len()
            invariant
                i <= item@.len(),
                forall|j: int| 0 <= j < i ==> #[trigger] item@[j] != 13 && item@[j] != 10,
            decreases item@.len() - i,
        {
            if item[i] == 13 || item[i] == 10 {
                assert(has_cr_or_lf(item@)) by {
                    assert(item@[i as int] == 13 || item@[i as int] == 10);
                }
                return Err(
                    Error::Protocol {
                        code: ResponseCode::unidentified_error(),
                        message: "line contains embedded CR or LF".to_owned(),
                    },
                );
            }
            i = i + 1;
        }
        buf_put_slice(dst, item);
        let crlf: [u8; 2] = CRLF;
        assert(crlf@ =~= seq![13u8, 10u8]);
        buf_put_slice(dst, crlf.as_slice());
        Ok(())
    }

    /// [`Self::encode`] of the bytes of `item`.
    pub fn encode_str(&mut self, item: &str, dst: &mut bytes::BytesMut) -> (res: Result<(), Error>)
        requires
            buf_bytes(*old(dst)).len() + item.spec_bytes().len() + 2 <= usize::MAX,
        ensures
            *final(self) == *old(self),
            encode_result(old(self).spec_max_line(), item.spec_bytes(), buf_bytes(*old(dst)), res, buf_bytes(*final(dst))),
    {
        self.encode(item.as_bytes(), dst)
    }
}

impl Default for RwhoisCodec {
    /// [`RwhoisCodec::new`].
    fn default() -> (c: RwhoisCodec)
        ensures
            c.spec_max_line() == MAX_LINE,
            c.spec_next_index() == 0,
    {
        Self::new()
    }
}

/// `item` holds a `CR` or an `LF`.
pub open spec fn has_cr_or_lf(item: Seq<u8>) -> bool {
    exists|i: int| 0 <= i < item.len() && (item[i] == 13 || item[i] == 10)
}

/// What encoding `item` with maximum line length `max` into a buffer
/// holding `before` returns and leaves in the buffer (`after`).
pub open spec fn encode_result(
    max: usize,
    item: Seq<u8>,
    before: Seq<u8>,
    res: Result<(), Error>,
    after: Seq<u8>,
) -> bool {
    if item.len() + 2 > max {
        &&& res matches Err(Error::LineTooLong { max: m }) && m == max
        &&& after == before
    } else if has_cr_or_lf(item) {
        &&& res matches Err(Error::Protocol { code, message }) && code
            == ResponseCode::unidentified_error() && message@ == "line contains embedded CR or LF"@
        &&& after == before
    } else {
        &&& res is Ok
        &&& after == before + item + seq![13u8, 10u8]
    }
}

/// A byte the encoder may carry and the decoder gives back unchanged: tab,
/// or printable ASCII.
pub open spec fn plain_byte(b: u8) -> bool {
    b == 9 || (0x20 <= b && b < 0x80)
}

/// `item` as characters, byte for byte.
pub open spec fn ascii_chars(item: Seq<u8>) -> Seq<char> {
    item.map_values(|b: u8| b as char)
}

proof fn lemma_kept_chars_plain(raw: Seq<u8>)
    requires
        forall|i: int| 0 <= i < raw.len() ==> plain_byte(#[trigger] raw[i]),
    ensures
        kept_chars(raw) == ascii_chars(raw),
    decreases raw.len(),
{
    if raw.len() > 0 {
        let t = raw.drop_last();
        assert forall|i: int| 0 <= i < t.len() implies plain_byte(#[trigger] t[i]) by {
            assert(t[i] == raw[i]);
        }
        lemma_kept_chars_plain(t);
        assert(plain_byte(raw[raw.len() - 1]));
        assert(ascii_chars(raw) =~= ascii_chars(t) + seq![raw.last() as char]);
    }
}

/// Framing law: a line that the encoder accepts, made of tabs and printable
/// ASCII and neither starting nor ending with a space or tab, is found again
/// whole by the decoder in what the encoder wrote to an empty buffer, and
/// decodes to the same text: the `LF` is the last byte written, the line
/// fits the same maximum, the payload is the line itself, it is ASCII, and
/// its text is the line's characters.
pub proof fn lemma_decode_reads_back_encoded_line(
    max: usize,
    item: Seq<u8>,
    res: Result<(), Error>,
    written: Seq<u8>,
)
    requires
        encode_result(max, item, seq![], res, written),
        res is Ok,
        forall|i: int| 0 <= i < item.len() ==> plain_byte(#[trigger] item[i]),
        item.len() > 0 ==> !is_blank(item[0] as char) && !is_blank(item.last() as char),
    ensures
        newline_from(written, 0) == Some(item.len() + 1int),
        item.len() + 2 <= max,
        payload_end(written, item.len() + 1int) == item.len(),
        written.take(item.len() as int) == item,
        all_ascii(item),
        line_text(item) == ascii_chars(item),
{
    assert(!has_cr_or_lf(item));
    assert(written =~= item + seq![13u8, 10u8]);
    assert forall|j: int| 0 <= j < item.len() implies written[j] != 10 by {
        assert(written[j] == item[j]);
        assert(plain_byte(item[j]));
    }
    assert forall|j: int| 0 <= j <= item.len() implies newline_from(written, j) == Some(
        item.len() + 1int,
    ) by {
        lemma_newline_scan(written, j, item.len() as int + 1);
    }
    assert(written.take(item.len() as int) =~= item);
    lemma_kept_chars_plain(item);
    let c = ascii_chars(item);
    if c.len() > 0 {
        assert(c[0] == item[0] as char);
        assert(c.last() == item.last() as char);
    }
    assert(trim_start(Blanks::SpaceTab, c) == c);
    assert(trim_end(Blanks::SpaceTab, c) == c);
}

proof fn lemma_newline_scan(s: Seq<u8>, j: int, p: int)
    requires
        0 <= j <= p < s.len(),
        s[p] == 10,
        forall|k: int| j <= k < p ==> s[k] != 10,
    ensures
        newline_from(s, j) == Some(p),
    decreases p - j,
{
    if j < p {
        lemma_newline_scan(s, j + 1, p);
    }
}

/// The kept bytes of ASCII input are ASCII characters.
proof fn lemma_kept_chars_ascii(raw: Seq<u8>)
    requires
        all_ascii(raw),
    ensures
        all_ascii_chars(kept_chars(raw)),
    decreases raw.len(),
{
    if raw.len() > 0 {
        lemma_kept_chars_ascii(raw.drop_last());
        let k = kept_chars(raw);
        let a = kept_chars(raw.drop_last());
        assert forall|i: int| 0 <= i < k.len() implies (#[trigger] k[i] as u32) < 0x80 by {
            if i < a.len() {
                assert(k[i] == a[i]);
            } else {
                assert(k[i] == raw.last() as char);
            }
        }
    }
}

/// Every line the decoder yields is ASCII text, and so is accepted as
/// input by [`crate::query::Query::parse`].
pub proof fn lemma_decoded_line_parses(raw: Seq<u8>)
    requires
        all_ascii(raw),
    ensures
        all_ascii_chars(line_text(raw)),
        !query_splits(line_text(raw)),
{
    lemma_kept_chars_ascii(raw);
    lemma_trim_ascii(Blanks::SpaceTab, kept_chars(raw));
    lemma_ascii_query_never_splits(line_text(raw));
}

} // verus!
