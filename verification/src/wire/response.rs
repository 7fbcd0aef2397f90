//! Response writing and parsing (RFC 2167 §3.1.2, §3.1.5, §3.4 and the
//! tagged blocks of §3.3): handlers append lines through
//! [`ResponseWriter`]; clients and tests classify lines with
//! [`ResponseLine::parse`].

use vstd::prelude::*;

use crate::buf::{buf_as_slice, buf_bytes, buf_len, buf_new, buf_put_slice};
use crate::digits::{
    decimal, decimal_padded, lemma_parse_decimal_padded, parse_uint, parse_uint_range, push_decimal,
    push_decimal_padded,
};
use crate::text::{
    chars_of, find_char, find_pair, index_of, lemma_index_of_at, last_index_of, pair_index, range_eq, rfind_char,
    skip_start, string_from_chars, string_of_range, trim_start, Blanks,
};
use crate::wire::code::ResponseCode;
use vstd::string::StringSliceAdditionalSpecFns;
use vstd::utf8::encode_utf8;

verus! {

/// Tag prefixing a tagged response line.
#[derive(Debug, Clone, Copy, PartialEq, Eq)]
pub enum Tag {
    /// Banner / capability advertisement (`%rwhois`).
    Rwhois,
    /// `%referral` (RFC §3.4).
    Referral,
    /// `%class` (RFC §3.3.1).
    Class,
    /// `%see-also`: referenced object pointer.
    SeeAlso,
    /// `%load`: server load info.
    Load,
    /// `%soa` (RFC §3.3.12).
    Soa,
    /// `%status` (RFC §3.3.13).
    Status,
    /// `%xfer` (RFC §3.3.14).
    Xfer,
    /// `%schema` (RFC §3.3.10).
    Schema,
    /// `%directive` (RFC §3.3.2).
    Directive,
    /// `%info` (RFC §3.1.5).
    Info,
    /// `%X-` extension prefix (RFC §3.3.15).
    XExt,
    /// `%register` (RFC §3.3.9).
    Register,
    /// `%display` (RFC §3.3.3).
    Display,
}

/// The wire token of a tag, leading `%` included.
pub open spec fn tag_text(t: Tag) -> Seq<char> {
    match t {
        Tag::Rwhois => seq!['%', 'r', 'w', 'h', 'o', 'i', 's'],
        Tag::Referral => seq!['%', 'r', 'e', 'f', 'e', 'r', 'r', 'a', 'l'],
        Tag::Class => seq!['%', 'c', 'l', 'a', 's', 's'],
        Tag::SeeAlso => seq!['%', 's', 'e', 'e', '-', 'a', 'l', 's', 'o'],
        Tag::Load => seq!['%', 'l', 'o', 'a', 'd'],
        Tag::Soa => seq!['%', 's', 'o', 'a'],
        Tag::Status => seq!['%', 's', 't', 'a', 't', 'u', 's'],
        Tag::Xfer => seq!['%', 'x', 'f', 'e', 'r'],
        Tag::Schema => seq!['%', 's', 'c', 'h', 'e', 'm', 'a'],
        Tag::Directive => seq!['%', 'd', 'i', 'r', 'e', 'c', 't', 'i', 'v', 'e'],
        Tag::Info => seq!['%', 'i', 'n', 'f', 'o'],
        Tag::XExt => seq!['%', 'X', '-'],
        Tag::Register => seq!['%', 'r', 'e', 'g', 'i', 's', 't', 'e', 'r'],
        Tag::Display => seq!['%', 'd', 'i', 's', 'p', 'l', 'a', 'y'],
    }
}

/// The tag whose wire token is `s`.
pub open spec fn tag_of(s: Seq<char>) -> Option<Tag> {
    if s == seq!['%', 'r', 'w', 'h', 'o', 'i', 's'] {
        Some(Tag::Rwhois)
    } else if s == seq!['%', 'r', 'e', 'f', 'e', 'r', 'r', 'a', 'l'] {
        Some(Tag::Referral)
    } else if s == seq!['%', 'c', 'l', 'a', 's', 's'] {
        Some(Tag::Class)
    } else if s == seq!['%', 's', 'e', 'e', '-', 'a', 'l', 's', 'o'] {
        Some(Tag::SeeAlso)
    } else if s == seq!['%', 'l', 'o', 'a', 'd'] {
        Some(Tag::Load)
    } else if s == seq!['%', 's', 'o', 'a'] {
        Some(Tag::Soa)
    } else if s == seq!['%', 's', 't', 'a', 't', 'u', 's'] {
        Some(Tag::Status)
    } else if s == seq!['%', 'x', 'f', 'e', 'r'] {
        Some(Tag::Xfer)
    } else if s == seq!['%', 's', 'c', 'h', 'e', 'm', 'a'] {
        Some(Tag::Schema)
    } else if s == seq!['%', 'd', 'i', 'r', 'e', 'c', 't', 'i', 'v', 'e'] {
        Some(Tag::Directive)
    } else if s == seq!['%', 'i', 'n', 'f', 'o'] {
        Some(Tag::Info)
    } else if s == seq!['%', 'X', '-'] {
        Some(Tag::XExt)
    } else if s == seq!['%', 'r', 'e', 'g', 'i', 's', 't', 'e', 'r'] {
        Some(Tag::Register)
    } else if s == seq!['%', 'd', 'i', 's', 'p', 'l', 'a', 'y'] {
        Some(Tag::Display)
    } else {
        None
    }
}

impl Tag {
    /// The wire token, leading `%` included.
    pub fn as_str(self) -> (s: &'static str)
        ensures
            s@ == tag_text(self),
    {
        match self {
            Tag::Rwhois => {
                proof {
                    reveal_strlit("%rwhois");
                }
                "%rwhois"
            },
            Tag::Referral => {
                proof {
                    reveal_strlit("%referral");
                }
                "%referral"
            },
            Tag::Class => {
                proof {
                    reveal_strlit("%class");
                }
                "%class"
            },
            Tag::SeeAlso => {
                proof {
                    reveal_strlit("%see-also");
                }
                "%see-also"
            },
            Tag::Load => {
                proof {
                    reveal_strlit("%load");
                }
                "%load"
            },
            Tag::Soa => {
                proof {
                    reveal_strlit("%soa");
                }
                "%soa"
            },
            Tag::Status => {
                proof {
                    reveal_strlit("%status");
                }
                "%status"
            },
            Tag::Xfer => {
                proof {
                    reveal_strlit("%xfer");
                }
                "%xfer"
            },
            Tag::Schema => {
                proof {
                    reveal_strlit("%schema");
                }
                "%schema"
            },
            Tag::Directive => {
                proof {
                    reveal_strlit("%directive");
                }
                "%directive"
            },
            Tag::Info => {
                proof {
                    reveal_strlit("%info");
                }
                "%info"
            },
            Tag::XExt => {
                proof {
                    reveal_strlit("%X-");
                }
                "%X-"
            },
            Tag::Register => {
                proof {
                    reveal_strlit("%register");
                }
                "%register"
            },
            Tag::Display => {
                proof {
                    reveal_strlit("%display");
                }
                "%display"
            },
        }
    }

    /// The tag whose wire token is `s`, if any.
    pub fn from_token(s: &str) -> (r: Option<Tag>)
        ensures
            r == tag_of(s@),
    {
        let v = chars_of(s);
        let n = v.len();
        assert(v@.subrange(0, n as int) =~= v@);
        let w: [char; 7] = ['%', 'r', 'w', 'h', 'o', 'i', 's'];
        assert(w@ =~= seq!['%', 'r', 'w', 'h', 'o', 'i', 's']);
        if range_eq(v.as_slice(), 0, n, w.as_slice()) {
            return Some(Tag::Rwhois);
        }
        let w: [char; 9] = ['%', 'r', 'e', 'f', 'e', 'r', 'r', 'a', 'l'];
        assert(w@ =~= seq!['%', 'r', 'e', 'f', 'e', 'r', 'r', 'a', 'l']);
        if range_eq(v.as_slice(), 0, n, w.as_slice()) {
            return Some(Tag::Referral);
        }
        let w: [char; 6] = ['%', 'c', 'l', 'a', 's', 's'];
        assert(w@ =~= seq!['%', 'c', 'l', 'a', 's', 's']);
        if range_eq(v.as_slice(), 0, n, w.as_slice()) {
            return Some(Tag::Class);
        }
        let w: [char; 9] = ['%', 's', 'e', 'e', '-', 'a', 'l', 's', 'o'];
        assert(w@ =~= seq!['%', 's', 'e', 'e', '-', 'a', 'l', 's', 'o']);
        if range_eq(v.as_slice(), 0, n, w.as_slice()) {
            return Some(Tag::SeeAlso);
        }
        let w: [char; 5] = ['%', 'l', 'o', 'a', 'd'];
        assert(w@ =~= seq!['%', 'l', 'o', 'a', 'd']);
        if range_eq(v.as_slice(), 0, n, w.as_slice()) {
            return Some(Tag::Load);
        }
        let w: [char; 4] = ['%', 's', 'o', 'a'];
        assert(w@ =~= seq!['%', 's', 'o', 'a']);
        if range_eq(v.as_slice(), 0, n, w.as_slice()) {
            return Some(Tag::Soa);
        }
        let w: [char; 7] = ['%', 's', 't', 'a', 't', 'u', 's'];
        assert(w@ =~= seq!['%', 's', 't', 'a', 't', 'u', 's']);
        if range_eq(v.as_slice(), 0, n, w.as_slice()) {
            return Some(Tag::Status);
        }
        let w: [char; 5] = ['%', 'x', 'f', 'e', 'r'];
        assert(w@ =~= seq!['%', 'x', 'f', 'e', 'r']);
        if range_eq(v.as_slice(), 0, n, w.as_slice()) {
            return Some(Tag::Xfer);
        }
        let w: [char; 7] = ['%', 's', 'c', 'h', 'e', 'm', 'a'];
        assert(w@ =~= seq!['%', 's', 'c', 'h', 'e', 'm', 'a']);
        if range_eq(v.as_slice(), 0, n, w.as_slice()) {
            return Some(Tag::Schema);
        }
        let w: [char; 10] = ['%', 'd', 'i', 'r', 'e', 'c', 't', 'i', 'v', 'e'];
        assert(w@ =~= seq!['%', 'd', 'i', 'r', 'e', 'c', 't', 'i', 'v', 'e']);
        if range_eq(v.as_slice(), 0, n, w.as_slice()) {
            return Some(Tag::Directive);
        }
        let w: [char; 5] = ['%', 'i', 'n', 'f', 'o'];
        assert(w@ =~= seq!['%', 'i', 'n', 'f', 'o']);
        if range_eq(v.as_slice(), 0, n, w.as_slice()) {
            return Some(Tag::Info);
        }
        let w: [char; 3] = ['%', 'X', '-'];
        assert(w@ =~= seq!['%', 'X', '-']);
        if range_eq(v.as_slice(), 0, n, w.as_slice()) {
            return Some(Tag::XExt);
        }
        let w: [char; 9] = ['%', 'r', 'e', 'g', 'i', 's', 't', 'e', 'r'];
        assert(w@ =~= seq!['%', 'r', 'e', 'g', 'i', 's', 't', 'e', 'r']);
        if range_eq(v.as_slice(), 0, n, w.as_slice()) {
            return Some(Tag::Register);
        }
        let w: [char; 8] = ['%', 'd', 'i', 's', 'p', 'l', 'a', 'y'];
        assert(w@ =~= seq!['%', 'd', 'i', 's', 'p', 'l', 'a', 'y']);
        if range_eq(v.as_slice(), 0, n, w.as_slice()) {
            return Some(Tag::Display);
        }
        None
    }
}

/// Tag law: every tag's wire token reads back as that tag
/// (`Tag::from_token(t.as_str())` gives `t`).
pub proof fn lemma_tag_roundtrip(t: Tag)
    ensures
        tag_of(tag_text(t)) == Some(t),
{
}

/// Type character of a typed record value (RFC 2167 §3.4).
#[derive(Debug, Clone, Copy, PartialEq, Eq)]
pub enum TypeChar {
    /// `T`: plain text.
    Text,
    /// `I`: globally unique object identifier.
    Id,
    /// `S`: see-also reference.
    SeeAlso,
}

/// The wire character of a type.
pub open spec fn type_char_text(t: TypeChar) -> char {
    match t {
        TypeChar::Text => 'T',
        TypeChar::Id => 'I',
        TypeChar::SeeAlso => 'S',
    }
}

/// The type written by `c`, either case.
pub open spec fn type_char_of(c: char) -> Option<TypeChar> {
    if c == 'T' || c == 't' {
        Some(TypeChar::Text)
    } else if c == 'I' || c == 'i' {
        Some(TypeChar::Id)
    } else if c == 'S' || c == 's' {
        Some(TypeChar::SeeAlso)
    } else {
        None
    }
}

impl TypeChar {
    /// The single character used on the wire.
    pub fn as_char(self) -> (c: char)
        ensures
            c == type_char_text(self),
    {
        match self {
            TypeChar::Text => 'T',
            TypeChar::Id => 'I',
            TypeChar::SeeAlso => 'S',
        }
    }

    /// Parse a single character, either case.
    pub fn from_char(c: char) -> (r: Option<TypeChar>)
        ensures
            r == type_char_of(c),
    {
        if c == 'T' || c == 't' {
            Some(TypeChar::Text)
        } else if c == 'I' || c == 'i' {
            Some(TypeChar::Id)
        } else if c == 'S' || c == 's' {
            Some(TypeChar::SeeAlso)
        } else {
            None
        }
    }
}

/// Type character law: every type's wire character reads back as that type.
pub proof fn lemma_type_char_roundtrip(t: TypeChar)
    ensures
        type_char_of(type_char_text(t)) == Some(t),
{
}

/// UTF-8 encoding distributes over concatenation.
pub proof fn lemma_encode_utf8_append(a: Seq<char>, b: Seq<char>)
    ensures
        encode_utf8(a + b) == encode_utf8(a) + encode_utf8(b),
    decreases a.len(),
{
    if a.len() > 0 {
        assert((a + b).drop_first() =~= a.drop_first() + b);
        lemma_encode_utf8_append(a.drop_first(), b);
        assert((a + b)[0] == a[0]);
    } else {
        assert(a + b =~= b);
    }
}

/// Append the UTF-8 bytes of `line` and a `CRLF` to `buf`.
fn put_text_line(buf: &mut bytes::BytesMut, line: &[char])
    requires
        buf_bytes(*old(buf)).len() + encode_utf8(line@).len() + 2 <= usize::MAX,
    ensures
        buf_bytes(*final(buf)) == buf_bytes(*old(buf)) + encode_utf8(line@) + seq![13u8, 10u8],
{
    let s = string_from_chars(line);
    let b = s.as_str().as_bytes();
    buf_put_slice(buf, b);
    let crlf: [u8; 2] = [13, 10];
    assert(crlf@ =~= seq![13u8, 10u8]);
    buf_put_slice(buf, crlf.as_slice());
}

/// The text of a tagged line: the tag, then a space and the body unless
/// the body is empty.
pub open spec fn tagged_text(tag: Tag, body: Seq<char>) -> Seq<char> {
    tag_text(tag) + if body.len() > 0 {
        seq![' '] + body
    } else {
        seq![]
    }
}

/// The text of a record line `class:attr[;T]:value`.
pub open spec fn record_text(
    class: Seq<char>,
    attr: Seq<char>,
    ty: Option<TypeChar>,
    value: Seq<char>,
) -> Seq<char> {
    class + seq![':'] + attr + match ty {
        Some(t) => seq![';', type_char_text(t)],
        None => seq![],
    } + seq![':'] + value
}

/// The body of a referral `rwhois://host:port/auth-area=area`.
pub open spec fn referral_text(host: Seq<char>, port: u16, area: Seq<char>) -> Seq<char> {
    seq!['r', 'w', 'h', 'o', 'i', 's', ':', '/', '/'] + host + seq![':'] + decimal(port as nat)
        + seq!['/', 'a', 'u', 't', 'h', '-', 'a', 'r', 'e', 'a', '='] + area
}

/// The text of an extension line `%X-name[ body]`.
pub open spec fn x_ext_text(name: Seq<char>, body: Seq<char>) -> Seq<char> {
    seq!['%', 'X', '-'] + name + if body.len() > 0 {
        seq![' '] + body
    } else {
        seq![]
    }
}

/// The text of an error line: `%error`, the code in at least three digits,
/// the code's message, and `: extra` when the extra text is non-empty.
pub open spec fn error_text(code: ResponseCode, extra: Option<Seq<char>>) -> Seq<char> {
    seq!['%', 'e', 'r', 'r', 'o', 'r', ' '] + decimal_padded(code.code as nat, 3) + seq![' ']
        + code.message@ + match extra {
        Some(e) => if e.len() > 0 {
            seq![':', ' '] + e
        } else {
            seq![]
        },
        None => seq![],
    }
}

/// The text `%ok`.
pub open spec fn ok_text() -> Seq<char> {
    seq!['%', 'o', 'k']
}

/// The bytes a line of text takes on the wire: UTF-8 and `CRLF`.
pub open spec fn wire_line(text: Seq<char>) -> Seq<u8> {
    encode_utf8(text) + seq![13u8, 10u8]
}

/// Append the characters of `s` to `out`.
fn push_str(out: &mut Vec<char>, s: &str)
    ensures
        final(out)@ == old(out)@ + s@,
{
    let w = chars_of(s);
    let ghost start = out@;
    let mut i: usize = 0;
    while i < w.len()
        invariant
            i <= w@.len(),
            out@ == start + w@.take(i as int),
        decreases w@.len() - i,
    {
        out.push(w[i]);
        i = i + 1;
        assert(out@ =~= start + w@.take(i as int));
    }
    assert(w@.take(w@.len() as int) =~= w@);
}

/// Buffer handed to handlers for emitting response lines. Every line is
/// written with a `CRLF` terminator.
#[derive(Debug)]
pub struct ResponseWriter {
    buf: bytes::BytesMut,
}

impl View for ResponseWriter {
    type V = Seq<u8>;

    closed spec fn view(&self) -> Seq<u8> {
        buf_bytes(self.buf)
    }
}

impl ResponseWriter {
    /// An empty writer.
    pub fn new() -> (w: ResponseWriter)
        ensures
            w@ == Seq::<u8>::empty(),
    {
        ResponseWriter { buf: buf_new() }
    }

    /// The bytes written so far.
    pub fn as_bytes(&self) -> (b: &[u8])
        ensures
            b@ == self@,
    {
        buf_as_slice(&self.buf)
    }

    /// Take the bytes written so far, leaving the writer empty.
    pub fn take(&mut self) -> (b: bytes::BytesMut)
        ensures
            buf_bytes(b) == old(self)@,
            final(self)@ == Seq::<u8>::empty(),
    {
        let mut b = buf_new();
        std::mem::swap(&mut b, &mut self.buf);
        b
    }

    /// True iff nothing has been written.
    pub fn is_empty(&self) -> (b: bool)
        ensures
            b == (self@.len() == 0),
    {
        buf_len(&self.buf) == 0
    }

    /// Append a line of text.
    fn put_line(&mut self, line: &[char])
        requires
            old(self)@.len() + encode_utf8(line@).len() + 2 <= usize::MAX,
        ensures
            final(self)@ == old(self)@ + wire_line(line@),
    {
        put_text_line(&mut self.buf, line);
    }

    /// Append a raw, untagged line (e.g. a record line).
    pub fn raw_line(&mut self, line: &str)
        requires
            old(self)@.len() + encode_utf8(line@).len() + 2 <= usize::MAX,
        ensures
            final(self)@ == old(self)@ + wire_line(line@),
    {
        let v = chars_of(line);
        self.put_line(v.as_slice());
    }

    /// A blank line: the record separator inside a result set.
    pub fn blank_line(&mut self)
        requires
            old(self)@.len() + 2 <= usize::MAX,
        ensures
            final(self)@ == old(self)@ + wire_line(seq![]),
    {
        let v: Vec<char> = Vec::new();
        self.put_line(v.as_slice());
    }

    /// Append `<tag> <body>`, or just `<tag>` when the body is empty (which
    /// ends a tagged block).
    pub fn tagged(&mut self, tag: Tag, body: &str)
        requires
            old(self)@.len() + encode_utf8(tagged_text(tag, body@)).len() + 2 <= usize::MAX,
        ensures
            final(self)@ == old(self)@ + wire_line(tagged_text(tag, body@)),
    {
        let mut v: Vec<char> = Vec::new();
        push_str(&mut v, tag.as_str());
        let b = chars_of(body);
        if b.len() > 0 {
            v.push(' ');
            push_str(&mut v, body);
        }
        assert(v@ =~= tagged_text(tag, body@));
        self.put_line(v.as_slice());
    }

    /// End the current tagged block (`%tag`).
    pub fn end_block(&mut self, tag: Tag)
        requires
            old(self)@.len() + encode_utf8(tag_text(tag)).len() + 2 <= usize::MAX,
        ensures
            final(self)@ == old(self)@ + wire_line(tag_text(tag)),
    {
        let mut v: Vec<char> = Vec::new();
        push_str(&mut v, tag.as_str());
        self.put_line(v.as_slice());
    }

    /// `%referral rwhois://host:port/auth-area=<area>` (RFC §3.4).
    pub fn referral(&mut self, host: &str, port: u16, auth_area: &str)
        requires
            old(self)@.len() + encode_utf8(
                tagged_text(Tag::Referral, referral_text(host@, port, auth_area@)),
            ).len() + 2 <= usize::MAX,
        ensures
            final(self)@ == old(self)@ + wire_line(
                tagged_text(Tag::Referral, referral_text(host@, port, auth_area@)),
            ),
    {
        let mut v: Vec<char> = Vec::new();
        push_str(&mut v, Tag::Referral.as_str());
        v.push(' ');
        let scheme: [char; 9] = ['r', 'w', 'h', 'o', 'i', 's', ':', '/', '/'];
        let mut i: usize = 0;
        let ghost s0 = v@;
        while i < 9
            invariant
                i <= 9,
                v@ == s0 + scheme@.take(i as int),
            decreases 9 - i,
        {
            v.push(scheme[i]);
            i = i + 1;
            assert(v@ =~= s0 + scheme@.take(i as int));
        }
        push_str(&mut v, host);
        v.push(':');
        push_decimal(&mut v, port as u64);
        let area: [char; 11] = ['/', 'a', 'u', 't', 'h', '-', 'a', 'r', 'e', 'a', '='];
        let ghost s1 = v@;
        let mut j: usize = 0;
        while j < 11
            invariant
                j <= 11,
                v@ == s1 + area@.take(j as int),
            decreases 11 - j,
        {
            v.push(area[j]);
            j = j + 1;
            assert(v@ =~= s1 + area@.take(j as int));
        }
        push_str(&mut v, auth_area);
        assert(scheme@.take(9) =~= seq!['r', 'w', 'h', 'o', 'i', 's', ':', '/', '/']);
        assert(area@.take(11) =~= seq!['/', 'a', 'u', 't', 'h', '-', 'a', 'r', 'e', 'a', '=']);
        proof {
            crate::digits::lemma_decimal(port as nat);
        }
        assert(v@ =~= tagged_text(Tag::Referral, referral_text(host@, port, auth_area@)));
        self.put_line(v.as_slice());
    }

    /// `%referral <url>`, for a pre-formatted URL.
    pub fn referral_url(&mut self, url: &str)
        requires
            old(self)@.len() + encode_utf8(tagged_text(Tag::Referral, url@)).len() + 2 <= usize::MAX,
        ensures
            final(self)@ == old(self)@ + wire_line(tagged_text(Tag::Referral, url@)),
    {
        self.tagged(Tag::Referral, url);
    }

    /// Append an untagged record line `class:attr:value` (RFC §3.4).
    pub fn record_attr(&mut self, class: &str, attr: &str, value: &str)
        requires
            old(self)@.len() + encode_utf8(record_text(class@, attr@, None, value@)).len() + 2
                <= usize::MAX,
        ensures
            final(self)@ == old(self)@ + wire_line(record_text(class@, attr@, None, value@)),
    {
        self.record_typed(class, attr, None, value);
    }

    /// Append a record line with an optional type: `class:attr;T:value`.
    pub fn record_typed(&mut self, class: &str, attr: &str, ty: Option<TypeChar>, value: &str)
        requires
            old(self)@.len() + encode_utf8(record_text(class@, attr@, ty, value@)).len() + 2
                <= usize::MAX,
        ensures
            final(self)@ == old(self)@ + wire_line(record_text(class@, attr@, ty, value@)),
    {
        let mut v: Vec<char> = Vec::new();
        push_str(&mut v, class);
        v.push(':');
        push_str(&mut v, attr);
        match ty {
            Some(t) => {
                v.push(';');
                v.push(t.as_char());
            },
            None => {},
        }
        v.push(':');
        push_str(&mut v, value);
        assert(v@ =~= record_text(class@, attr@, ty, value@));
        self.put_line(v.as_slice());
    }

    /// `%info on`, opening an info block (RFC §3.1.5).
    pub fn info_on(&mut self)
        requires
            old(self)@.len() + encode_utf8(tagged_text(Tag::Info, seq!['o', 'n'])).len() + 2
                <= usize::MAX,
        ensures
            final(self)@ == old(self)@ + wire_line(tagged_text(Tag::Info, seq!['o', 'n'])),
    {
        let on = "on";
        proof {
            reveal_strlit("on");
        }
        assert(on@ =~= seq!['o', 'n']);
        self.tagged(Tag::Info, on);
    }

    /// `%info off`, closing an info block.
    pub fn info_off(&mut self)
        requires
            old(self)@.len() + encode_utf8(tagged_text(Tag::Info, seq!['o', 'f', 'f'])).len() + 2
                <= usize::MAX,
        ensures
            final(self)@ == old(self)@ + wire_line(tagged_text(Tag::Info, seq!['o', 'f', 'f'])),
    {
        let off = "off";
        proof {
            reveal_strlit("off");
        }
        assert(off@ =~= seq!['o', 'f', 'f']);
        self.tagged(Tag::Info, off);
    }

    /// `%X-<name> <body>`, or `%X-<name>` for an empty body (RFC §3.3.15).
    pub fn x_ext(&mut self, name: &str, body: &str)
        requires
            old(self)@.len() + encode_utf8(x_ext_text(name@, body@)).len() + 2 <= usize::MAX,
        ensures
            final(self)@ == old(self)@ + wire_line(x_ext_text(name@, body@)),
    {
        let mut v: Vec<char> = Vec::new();
        v.push('%');
        v.push('X');
        v.push('-');
        push_str(&mut v, name);
        let b = chars_of(body);
        if b.len() > 0 {
            v.push(' ');
            push_str(&mut v, body);
        }
        assert(v@ =~= x_ext_text(name@, body@));
        self.put_line(v.as_slice());
    }
}

impl Default for ResponseWriter {
    /// An empty writer.
    fn default() -> (w: ResponseWriter)
        ensures
            w@ == Seq::<u8>::empty(),
    {
        ResponseWriter::new()
    }
}

/// Append `%error <code> <message>[: <extra>]` to `out`; the code has at
/// least three digits, and an empty extra text is left out.
pub fn write_error(out: &mut bytes::BytesMut, code: ResponseCode, extra: Option<&str>)
    requires
        buf_bytes(*old(out)).len() + encode_utf8(
            error_text(
                code,
                match extra {
                    Some(e) => Some(e@),
                    None => None,
                },
            ),
        ).len() + 2 <= usize::MAX,
    ensures
        buf_bytes(*final(out)) == buf_bytes(*old(out)) + wire_line(
            error_text(
                code,
                match extra {
                    Some(e) => Some(e@),
                    None => None,
                },
            ),
        ),
{
    let mut v: Vec<char> = Vec::new();
    v.push('%');
    v.push('e');
    v.push('r');
    v.push('r');
    v.push('o');
    v.push('r');
    v.push(' ');
    push_decimal_padded(&mut v, code.code as u64, 3);
    v.push(' ');
    push_str(&mut v, code.message);
    match extra {
        Some(e) => {
            let w = chars_of(e);
            if w.len() > 0 {
                v.push(':');
                v.push(' ');
                push_str(&mut v, e);
            }
        },
        None => {},
    }
    assert(v@ =~= error_text(
        code,
        match extra {
            Some(e) => Some(e@),
            None => None,
        },
    ));
    put_text_line(out, v.as_slice());
}

/// Append `%ok` to `out`.
pub fn write_ok(out: &mut bytes::BytesMut)
    requires
        buf_bytes(*old(out)).len() + 5 <= usize::MAX,
    ensures
        buf_bytes(*final(out)) == buf_bytes(*old(out)) + wire_line(ok_text()),
{
    let v: Vec<char> = vec!['%', 'o', 'k'];
    assert(v@ =~= ok_text());
    assert(encode_utf8(ok_text()).len() == 3) by {
        assert(vstd::utf8::is_ascii_chars(ok_text()));
        vstd::utf8::is_ascii_chars_encode_utf8(ok_text());
    }
    put_text_line(out, v.as_slice());
}

/// `%info on` / `%info off`.
#[derive(Debug, Clone, Copy, PartialEq, Eq)]
#[non_exhaustive]
pub enum InfoMarker {
    /// Block start.
    On,
    /// Block end.
    Off,
}

/// A parsed `rwhois://host:port/auth-area=<area>` referral URL (RFC §3.4).
#[derive(Debug, Clone, PartialEq, Eq)]
pub struct ReferralUrl {
    /// Host name or IP address.
    pub host: String,
    /// TCP port.
    pub port: u16,
    /// Authority area name (`.` for the root).
    pub auth_area: String,
}

/// A parsed untagged record line `class:attr[;type]:value`.
#[derive(Debug, Clone, PartialEq, Eq)]
pub struct RecordLine {
    /// Class name.
    pub class: String,
    /// Attribute name.
    pub attribute: String,
    /// Optional type character.
    pub ty: Option<TypeChar>,
    /// Attribute value (everything after the second `:`).
    pub value: String,
}

/// One parsed line of a server response stream.
#[derive(Debug, Clone, PartialEq, Eq)]
#[non_exhaustive]
pub enum ResponseLine {
    /// `%ok`.
    OkLine,
    /// `%error <code> <text>[: <extra>]`.
    Error {
        /// Numeric code (0 when unreadable).
        code: u16,
        /// Message text up to an optional `": "`.
        text: String,
        /// Detail after `": "`.
        extra: Option<String>,
    },
    /// `%info on` / `%info off`.
    InfoMarker(InfoMarker),
    /// A tagged line with a non-empty body.
    Tagged {
        /// Which tag.
        tag: Tag,
        /// Body following the tag and its spaces.
        body: String,
    },
    /// A tagged line with an empty body: end of a tagged record.
    TaggedEnd(Tag),
    /// `%referral <url>`.
    Referral(ReferralUrl),
    /// An untagged record line.
    Record(RecordLine),
    /// Blank line: record separator.
    Blank,
    /// A tagged line whose tag is not known (such as `%X-...`).
    UnknownTagged {
        /// Raw `%tag` token.
        tag: String,
        /// Body, or empty.
        body: String,
    },
    /// Any other untagged line.
    FreeForm(String),
}

/// A referral URL as values.
pub struct SpecReferralUrl {
    pub host: Seq<char>,
    pub port: u16,
    pub auth_area: Seq<char>,
}

/// A record line as values.
pub struct SpecRecordLine {
    pub class: Seq<char>,
    pub attribute: Seq<char>,
    pub ty: Option<TypeChar>,
    pub value: Seq<char>,
}

/// A response line as values.
pub enum SpecResponseLine {
    OkLine,
    Error { code: u16, text: Seq<char>, extra: Option<Seq<char>> },
    InfoMarker(InfoMarker),
    Tagged { tag: Tag, body: Seq<char> },
    TaggedEnd(Tag),
    Referral(SpecReferralUrl),
    Record(SpecRecordLine),
    Blank,
    UnknownTagged { tag: Seq<char>, body: Seq<char> },
    FreeForm(Seq<char>),
}

impl View for ReferralUrl {
    type V = SpecReferralUrl;

    open spec fn view(&self) -> SpecReferralUrl {
        SpecReferralUrl { host: self.host@, port: self.port, auth_area: self.auth_area@ }
    }
}

impl View for RecordLine {
    type V = SpecRecordLine;

    open spec fn view(&self) -> SpecRecordLine {
        SpecRecordLine {
            class: self.class@,
            attribute: self.attribute@,
            ty: self.ty,
            value: self.value@,
        }
    }
}

impl View for ResponseLine {
    type V = SpecResponseLine;

    open spec fn view(&self) -> SpecResponseLine {
        match self {
            ResponseLine::OkLine => SpecResponseLine::OkLine,
            ResponseLine::Error { code, text, extra } => SpecResponseLine::Error {
                code: *code,
                text: text@,
                extra: match extra {
                    Some(e) => Some(e@),
                    None => None,
                },
            },
            ResponseLine::InfoMarker(m) => SpecResponseLine::InfoMarker(*m),
            ResponseLine::Tagged { tag, body } => SpecResponseLine::Tagged { tag: *tag, body: body@ },
            ResponseLine::TaggedEnd(t) => SpecResponseLine::TaggedEnd(*t),
            ResponseLine::Referral(u) => SpecResponseLine::Referral(u@),
            ResponseLine::Record(r) => SpecResponseLine::Record(r@),
            ResponseLine::Blank => SpecResponseLine::Blank,
            ResponseLine::UnknownTagged { tag, body } => SpecResponseLine::UnknownTagged {
                tag: tag@,
                body: body@,
            },
            ResponseLine::FreeForm(s) => SpecResponseLine::FreeForm(s@),
        }
    }
}

/// The `rwhois://` scheme.
pub open spec fn scheme_text() -> Seq<char> {
    seq!['r', 'w', 'h', 'o', 'i', 's', ':', '/', '/']
}

/// The `auth-area=` key.
pub open spec fn area_key_text() -> Seq<char> {
    seq!['a', 'u', 't', 'h', '-', 'a', 'r', 'e', 'a', '=']
}

/// A referral URL: the scheme, `host:port` up to the first `/` (the port
/// after the last `:`, decimal, fitting `u16`), then `auth-area=` and the
/// area.
pub open spec fn referral_of(s: Seq<char>) -> Option<SpecReferralUrl> {
    if !(s.len() >= 9 && s.take(9) == scheme_text()) {
        None
    } else {
        let rest = s.skip(9);
        let k = index_of(rest, '/');
        if k >= rest.len() {
            None
        } else {
            let hostport = rest.take(k);
            let after = rest.skip(k + 1);
            let c = last_index_of(hostport, ':');
            if c < 0 {
                None
            } else {
                let port = parse_uint(hostport.skip(c + 1), 10, 0xffff);
                if port is None || !(after.len() >= 10 && after.take(10) == area_key_text()) {
                    None
                } else {
                    Some(
                        SpecReferralUrl {
                            host: hostport.take(c),
                            port: port->0 as u16,
                            auth_area: after.skip(10),
                        },
                    )
                }
            }
        }
    }
}

/// The parts of a record after its class: attribute (with an optional
/// `;T` type) and value.
pub open spec fn record_rest_of(class: Seq<char>, rest: Seq<char>) -> Option<SpecRecordLine> {
    let k2 = index_of(rest, ':');
    if k2 >= rest.len() {
        None
    } else {
        let awt = rest.take(k2);
        let value = rest.skip(k2 + 1);
        if class.len() == 0 || awt.len() == 0 {
            None
        } else {
            let k3 = index_of(awt, ';');
            if k3 < awt.len() {
                let t = awt.skip(k3 + 1);
                if t.len() != 1 {
                    None
                } else {
                    match type_char_of(t[0]) {
                        Some(ty) => Some(
                            SpecRecordLine { class, attribute: awt.take(k3), ty: Some(ty), value },
                        ),
                        None => None,
                    }
                }
            } else {
                Some(SpecRecordLine { class, attribute: awt, ty: None, value })
            }
        }
    }
}

/// A record line `class:attr[;T]:value` with non-empty class and
/// attribute part; the line must not start with `%`.
pub open spec fn record_of(line: Seq<char>) -> Option<SpecRecordLine> {
    if line.len() == 0 || line[0] == '%' {
        None
    } else {
        let k1 = index_of(line, ':');
        if k1 >= line.len() {
            None
        } else {
            record_rest_of(line.take(k1), line.skip(k1 + 1))
        }
    }
}

/// The body of an `%error` line: the code up to the first space (0 when
/// unreadable), then the text, split at the first `": "` into text and
/// extra.
pub open spec fn error_body_of(body: Seq<char>) -> SpecResponseLine {
    let k = index_of(body, ' ');
    let code_str = if k < body.len() {
        body.take(k)
    } else {
        body
    };
    let rest = if k < body.len() {
        body.skip(k + 1)
    } else {
        seq![]
    };
    let code: u16 = match parse_uint(code_str, 10, 0xffff) {
        Some(n) => n as u16,
        None => 0,
    };
    let j = pair_index(rest, ':', ' ');
    if j < rest.len() {
        SpecResponseLine::Error { code, text: rest.take(j), extra: Some(rest.skip(j + 2)) }
    } else {
        SpecResponseLine::Error { code, text: rest, extra: None }
    }
}

/// How a response line classifies. A tagged line splits at its first
/// space into the tag and the body (spaces after the tag dropped);
/// `%ok`, `%error`, `%info` and `%referral` are read specially, known tags
/// give `Tagged`/`TaggedEnd`, others `UnknownTagged`. An untagged line is a
/// record when it reads as one, else free-form.
pub open spec fn response_of(line: Seq<char>) -> SpecResponseLine {
    if line.len() == 0 {
        SpecResponseLine::Blank
    } else if line[0] != '%' {
        match record_of(line) {
            Some(r) => SpecResponseLine::Record(r),
            None => SpecResponseLine::FreeForm(line),
        }
    } else {
        let k = index_of(line, ' ');
        let tok = if k < line.len() {
            line.take(k)
        } else {
            line
        };
        let body = if k < line.len() {
            trim_start(Blanks::Space, line.skip(k + 1))
        } else {
            seq![]
        };
        if tok == ok_text() {
            SpecResponseLine::OkLine
        } else if tok == seq!['%', 'e', 'r', 'r', 'o', 'r'] {
            error_body_of(body)
        } else if tok == tag_text(Tag::Info) {
            if body == seq!['o', 'n'] {
                SpecResponseLine::InfoMarker(InfoMarker::On)
            } else if body == seq!['o', 'f', 'f'] {
                SpecResponseLine::InfoMarker(InfoMarker::Off)
            } else if body.len() == 0 {
                SpecResponseLine::TaggedEnd(Tag::Info)
            } else {
                SpecResponseLine::Tagged { tag: Tag::Info, body }
            }
        } else if tok == tag_text(Tag::Referral) {
            match referral_of(body) {
                Some(u) => SpecResponseLine::Referral(u),
                None => if body.len() == 0 {
                    SpecResponseLine::TaggedEnd(Tag::Referral)
                } else {
                    SpecResponseLine::Tagged { tag: Tag::Referral, body }
                },
            }
        } else {
            match tag_of(tok) {
                Some(t) => if body.len() == 0 {
                    SpecResponseLine::TaggedEnd(t)
                } else {
                    SpecResponseLine::Tagged { tag: t, body }
                },
                None => SpecResponseLine::UnknownTagged { tag: tok, body },
            }
        }
    }
}

fn referral_in(v: &[char], lo: usize, hi: usize) -> (r: Option<ReferralUrl>)
    requires
        lo <= hi <= v@.len(),
    ensures
        r is Some <==> referral_of(v@.subrange(lo as int, hi as int)) is Some,
        r is Some ==> r->0@ == referral_of(v@.subrange(lo as int, hi as int))->0,
{
    let ghost s = v@.subrange(lo as int, hi as int);
    let scheme: [char; 9] = ['r', 'w', 'h', 'o', 'i', 's', ':', '/', '/'];
    assert(scheme@ =~= scheme_text());
    if hi - lo < 9 || !range_eq(v, lo, lo + 9, scheme.as_slice()) {
        assert(hi - lo >= 9 ==> s.take(9) =~= v@.subrange(lo as int, lo + 9));
        return None;
    }
    assert(s.take(9) =~= v@.subrange(lo as int, lo + 9));
    let ghost rest = s.skip(9);
    assert(rest =~= v@.subrange(lo + 9, hi as int));
    let k = find_char(v, '/', lo + 9, hi);
    if k == hi {
        return None;
    }
    let ghost hostport = rest.take(k - lo - 9);
    let ghost after = rest.skip(k - lo - 9 + 1);
    assert(hostport =~= v@.subrange(lo + 9, k as int));
    assert(after =~= v@.subrange(k + 1, hi as int));
    let c = match rfind_char(v, ':', lo + 9, k) {
        None => {
            return None;
        },
        Some(c) => c,
    };
    assert(hostport.skip(c - lo - 9 + 1) =~= v@.subrange(c + 1, k as int));
    assert(hostport.take(c - lo - 9) =~= v@.subrange(lo + 9, c as int));
    let port = parse_uint_range(v, c + 1, k, 10, 0xffff);
    let key: [char; 10] = ['a', 'u', 't', 'h', '-', 'a', 'r', 'e', 'a', '='];
    assert(key@ =~= area_key_text());
    if port.is_none() || hi - (k + 1) < 10 || !range_eq(v, k + 1, k + 11, key.as_slice()) {
        assert(hi - (k + 1) >= 10 ==> after.take(10) =~= v@.subrange(k + 1, k + 11));
        return None;
    }
    assert(after.take(10) =~= v@.subrange(k + 1, k + 11));
    assert(after.skip(10) =~= v@.subrange(k + 11, hi as int));
    let host = string_of_range(v, lo + 9, c);
    let auth_area = string_of_range(v, k + 11, hi);
    Some(ReferralUrl { host, port: port.unwrap() as u16, auth_area })
}

fn record_in(v: &[char]) -> (r: Option<RecordLine>)
    ensures
        r is Some <==> record_of(v@) is Some,
        r is Some ==> r->0@ == record_of(v@)->0,
{
    let n = v.len();
    if n == 0 || v[0] == '%' {
        return None;
    }
    let k1 = find_char(v, ':', 0, n);
    assert(v@.subrange(0, n as int) =~= v@);
    if k1 == n {
        return None;
    }
    let ghost class = v@.take(k1 as int);
    let ghost rest = v@.skip(k1 + 1);
    assert(class =~= v@.subrange(0, k1 as int));
    assert(rest =~= v@.subrange(k1 + 1, n as int));
    let k2 = find_char(v, ':', k1 + 1, n);
    if k2 == n {
        return None;
    }
    let ghost awt = rest.take(k2 - k1 - 1);
    assert(awt =~= v@.subrange(k1 + 1, k2 as int));
    assert(rest.skip(k2 - k1 - 1 + 1) =~= v@.subrange(k2 + 1, n as int));
    if k1 == 0 || k2 == k1 + 1 {
        return None;
    }
    let class_s = string_of_range(v, 0, k1);
    let value = string_of_range(v, k2 + 1, n);
    let k3 = find_char(v, ';', k1 + 1, k2);
    if k3 < k2 {
        assert(awt.skip(k3 - k1 - 1 + 1) =~= v@.subrange(k3 + 1, k2 as int));
        assert(awt.take(k3 - k1 - 1) =~= v@.subrange(k1 + 1, k3 as int));
        if k2 - (k3 + 1) != 1 {
            return None;
        }
        match TypeChar::from_char(v[k3 + 1]) {
            Some(ty) => Some(
                RecordLine {
                    class: class_s,
                    attribute: string_of_range(v, k1 + 1, k3),
                    ty: Some(ty),
                    value,
                },
            ),
            None => None,
        }
    } else {
        Some(
            RecordLine {
                class: class_s,
                attribute: string_of_range(v, k1 + 1, k2),
                ty: None,
                value,
            },
        )
    }
}

impl ReferralUrl {
    /// Parse a referral URL of the form `rwhois://host:port/auth-area=AREA`.
    pub fn parse(s: &str) -> (r: Option<ReferralUrl>)
        ensures
            r is Some <==> referral_of(s@) is Some,
            r is Some ==> r->0@ == referral_of(s@)->0,
    {
        let v = chars_of(s);
        assert(v@.subrange(0, v@.len() as int) =~= v@);
        referral_in(v.as_slice(), 0, v.len())
    }
}

impl RecordLine {
    /// Parse a record line `class:attr[;type]:value`; `None` if the line
    /// is not in that form.
    pub fn parse(line: &str) -> (r: Option<RecordLine>)
        ensures
            r is Some <==> record_of(line@) is Some,
            r is Some ==> r->0@ == record_of(line@)->0,
    {
        let v = chars_of(line);
        record_in(v.as_slice())
    }
}

fn error_body_in(v: &[char], lo: usize, hi: usize) -> (r: ResponseLine)
    requires
        lo <= hi <= v@.len(),
    ensures
        r@ == error_body_of(v@.subrange(lo as int, hi as int)),
{
    let ghost body = v@.subrange(lo as int, hi as int);
    let k = find_char(v, ' ', lo, hi);
    let (code_end, rest_lo) = if k < hi {
        assert(body.take(k - lo) =~= v@.subrange(lo as int, k as int));
        assert(body.skip(k - lo + 1) =~= v@.subrange(k + 1, hi as int));
        (k, k + 1)
    } else {
        assert(v@.subrange(hi as int, hi as int) =~= Seq::<char>::empty());
        (hi, hi)
    };
    let code: u16 = match parse_uint_range(v, lo, code_end, 10, 0xffff) {
        Some(n) => n as u16,
        None => 0,
    };
    let j = find_pair(v, ':', ' ', rest_lo, hi);
    let ghost rest = v@.subrange(rest_lo as int, hi as int);
    if j < hi {
        assert(rest.take(j - rest_lo) =~= v@.subrange(rest_lo as int, j as int));
        assert(rest.skip(j - rest_lo + 2) =~= v@.subrange(j + 2, hi as int));
        ResponseLine::Error {
            code,
            text: string_of_range(v, rest_lo, j),
            extra: Some(string_of_range(v, j + 2, hi)),
        }
    } else {
        ResponseLine::Error { code, text: string_of_range(v, rest_lo, hi), extra: None }
    }
}

impl ResponseLine {
    /// Classify one line of a response stream (without terminator).
    pub fn parse(line: &str) -> (r: ResponseLine)
        ensures
            r@ == response_of(line@),
    {
        let v = chars_of(line);
        let n = v.len();
        if n == 0 {
            return ResponseLine::Blank;
        }
        if v[0] != '%' {
            return match record_in(v.as_slice()) {
                Some(rec) => ResponseLine::Record(rec),
                None => ResponseLine::FreeForm(line.to_owned()),
            };
        }
        assert(v@.subrange(0, n as int) =~= v@);
        let k = find_char(v.as_slice(), ' ', 0, n);
        let ghost tok = if k < n {
            v@.take(k as int)
        } else {
            v@
        };
        assert(tok =~= v@.subrange(0, k as int));
        let b = if k < n {
            let b = skip_start(Blanks::Space, v.as_slice(), k + 1);
            assert(v@.skip(k + 1) =~= v@.subrange(k + 1, n as int));
            b
        } else {
            n
        };
        assert(v@.subrange(n as int, n as int) =~= Seq::<char>::empty());
        let ghost body = v@.subrange(b as int, n as int);
        let w_ok: [char; 3] = ['%', 'o', 'k'];
        assert(w_ok@ =~= ok_text());
        if range_eq(v.as_slice(), 0, k, w_ok.as_slice()) {
            return ResponseLine::OkLine;
        }
        let w_err: [char; 6] = ['%', 'e', 'r', 'r', 'o', 'r'];
        assert(w_err@ =~= seq!['%', 'e', 'r', 'r', 'o', 'r']);
        if range_eq(v.as_slice(), 0, k, w_err.as_slice()) {
            return error_body_in(v.as_slice(), b, n);
        }
        let w_info: [char; 5] = ['%', 'i', 'n', 'f', 'o'];
        assert(w_info@ =~= tag_text(Tag::Info));
        if range_eq(v.as_slice(), 0, k, w_info.as_slice()) {
            let w_on: [char; 2] = ['o', 'n'];
            assert(w_on@ =~= seq!['o', 'n']);
            let w_off: [char; 3] = ['o', 'f', 'f'];
            assert(w_off@ =~= seq!['o', 'f', 'f']);
            if range_eq(v.as_slice(), b, n, w_on.as_slice()) {
                return ResponseLine::InfoMarker(InfoMarker::On);
            }
            if range_eq(v.as_slice(), b, n, w_off.as_slice()) {
                return ResponseLine::InfoMarker(InfoMarker::Off);
            }
            if b == n {
                return ResponseLine::TaggedEnd(Tag::Info);
            }
            return ResponseLine::Tagged { tag: Tag::Info, body: string_of_range(v.as_slice(), b, n) };
        }
        let w_ref: [char; 9] = ['%', 'r', 'e', 'f', 'e', 'r', 'r', 'a', 'l'];
        assert(w_ref@ =~= tag_text(Tag::Referral));
        if range_eq(v.as_slice(), 0, k, w_ref.as_slice()) {
            return match referral_in(v.as_slice(), b, n) {
                Some(u) => ResponseLine::Referral(u),
                None => if b == n {
                    ResponseLine::TaggedEnd(Tag::Referral)
                } else {
                    ResponseLine::Tagged {
                        tag: Tag::Referral,
                        body: string_of_range(v.as_slice(), b, n),
                    }
                },
            };
        }
        let tok_s = string_of_range(v.as_slice(), 0, k);
        match Tag::from_token(tok_s.as_str()) {
            Some(t) => {
                if b == n {
                    ResponseLine::TaggedEnd(t)
                } else {
                    ResponseLine::Tagged { tag: t, body: string_of_range(v.as_slice(), b, n) }
                }
            },
            None => ResponseLine::UnknownTagged {
                tag: tok_s,
                body: string_of_range(v.as_slice(), b, n),
            },
        }
    }
}

/// A tagged line always has a body: a known tag with nothing after it is
/// the end of a block.
pub proof fn lemma_tagged_has_body(line: Seq<char>)
    ensures
        response_of(line) matches SpecResponseLine::Tagged { body, .. } ==> body.len() > 0,
        tag_of(line) matches Some(t) ==> response_of(line) == SpecResponseLine::TaggedEnd(t),
{
    if let Some(t) = tag_of(line) {
        assert(line == tag_text(t));
        assert forall|j: int| 0 <= j < line.len() implies line[j] != ' ' by {
            assert(line[j] == tag_text(t)[j]);
        }
        lemma_index_of_at(line, ' ', line.len() as int);
        assert(line.len() > 0 && line[0] == '%');
        assert(line != ok_text());
        assert(line != seq!['%', 'e', 'r', 'r', 'o', 'r']);
    }
}

/// An unknown tagged line keeps its raw first word: a line that starts
/// with a `%` word which is no known tag (nor `%ok` or `%error`) reads as
/// `UnknownTagged` with exactly that word as its tag, alone or followed by
/// a space and more.
pub proof fn lemma_unknown_tag_keeps_token(tok: Seq<char>, rest: Seq<char>)
    requires
        tok.len() > 0,
        tok[0] == '%',
        lacks(tok, ' '),
        tag_of(tok) is None,
        tok != ok_text(),
        tok != seq!['%', 'e', 'r', 'r', 'o', 'r'],
    ensures
        response_of(tok) matches SpecResponseLine::UnknownTagged { tag, .. } && tag == tok,
        response_of(tok + seq![' '] + rest) matches SpecResponseLine::UnknownTagged { tag, .. }
            && tag == tok,
{
    lemma_index_of_at(tok, ' ', tok.len() as int);
    let line = tok + seq![' '] + rest;
    assert forall|j: int| 0 <= j < tok.len() implies line[j] != ' ' by {
        assert(line[j] == tok[j]);
    }
    assert(line[tok.len() as int] == ' ');
    lemma_index_of_at(line, ' ', tok.len() as int);
    assert(line.take(tok.len() as int) =~= tok);
    assert(tok.take(tok.len() as int) =~= tok);
    assert(line[0] == '%');
}

/// An extension line as the writer renders it reads back with its `%X-`
/// token whole: `%X-<name>` as the tag and the body after the space.
pub proof fn lemma_x_ext_reads_back(name: Seq<char>, body: Seq<char>)
    requires
        name.len() > 0,
        lacks(name, ' '),
        body.len() > 0 ==> body[0] != ' ',
    ensures
        response_of(x_ext_text(name, body)) == (SpecResponseLine::UnknownTagged {
            tag: seq!['%', 'X', '-'] + name,
            body,
        }),
{
    let tok = seq!['%', 'X', '-'] + name;
    assert(tok[1] == 'X');
    assert(tok.len() > 3);
    assert(tag_of(tok) is None) by {
        let t = tok;
        assert(t != seq!['%', 'r', 'w', 'h', 'o', 'i', 's']) by { assert(t[1] != 'r'); }
        assert(t != seq!['%', 'r', 'e', 'f', 'e', 'r', 'r', 'a', 'l']) by { assert(t[1] != 'r'); }
        assert(t != seq!['%', 'c', 'l', 'a', 's', 's']) by { assert(t[1] != 'c'); }
        assert(t != seq!['%', 's', 'e', 'e', '-', 'a', 'l', 's', 'o']) by { assert(t[1] != 's'); }
        assert(t != seq!['%', 'l', 'o', 'a', 'd']) by { assert(t[1] != 'l'); }
        assert(t != seq!['%', 's', 'o', 'a']) by { assert(t[1] != 's'); }
        assert(t != seq!['%', 's', 't', 'a', 't', 'u', 's']) by { assert(t[1] != 's'); }
        assert(t != seq!['%', 'x', 'f', 'e', 'r']) by { assert(t[1] != 'x'); }
        assert(t != seq!['%', 's', 'c', 'h', 'e', 'm', 'a']) by { assert(t[1] != 's'); }
        assert(t != seq!['%', 'd', 'i', 'r', 'e', 'c', 't', 'i', 'v', 'e']) by { assert(t[1] != 'd'); }
        assert(t != seq!['%', 'i', 'n', 'f', 'o']) by { assert(t[1] != 'i'); }
        assert(t != seq!['%', 'X', '-']);
        assert(t != seq!['%', 'r', 'e', 'g', 'i', 's', 't', 'e', 'r']) by { assert(t[1] != 'r'); }
        assert(t != seq!['%', 'd', 'i', 's', 'p', 'l', 'a', 'y']) by { assert(t[1] != 'd'); }
    }
    assert(tok != ok_text()) by { assert(tok[1] != 'o'); }
    assert(tok != seq!['%', 'e', 'r', 'r', 'o', 'r']) by { assert(tok[1] != 'e'); }
    assert forall|j: int| 0 <= j < tok.len() implies tok[j] != ' ' by {
        if j >= 3 {
            assert(tok[j] == name[j - 3]);
        }
    }
    lemma_unknown_tag_keeps_token(tok, body);
    if body.len() > 0 {
        let line = tok + seq![' '] + body;
        assert(x_ext_text(name, body) =~= line);
        lemma_index_of_at(line, ' ', tok.len() as int);
        assert(line.skip(tok.len() + 1int) =~= body);
        assert(trim_start(Blanks::Space, body) == body);
        assert(line.take(tok.len() as int) =~= tok);
        assert(response_of(line) == (SpecResponseLine::UnknownTagged { tag: tok, body }));
    } else {
        assert(x_ext_text(name, body) =~= tok);
        lemma_index_of_at(tok, ' ', tok.len() as int);
        assert(body =~= Seq::<char>::empty());
        assert(response_of(tok) == (SpecResponseLine::UnknownTagged { tag: tok, body }));
    }
}

/// No character of `s` is `c`.
pub open spec fn lacks(s: Seq<char>, c: char) -> bool {
    forall|i: int| 0 <= i < s.len() ==> s[i] != c
}

/// Response law (records): a record line as the writer renders it is read
/// back as that record, when the class is non-empty, does not start with
/// `%` and holds no `:`, and the attribute holds neither `:` nor `;` (and
/// is non-empty unless a type is given).
pub proof fn lemma_record_roundtrip(
    class: Seq<char>,
    attr: Seq<char>,
    ty: Option<TypeChar>,
    value: Seq<char>,
)
    requires
        class.len() > 0,
        class[0] != '%',
        lacks(class, ':'),
        lacks(attr, ':'),
        lacks(attr, ';'),
        ty is Some || attr.len() > 0,
    ensures
        response_of(record_text(class, attr, ty, value)) == SpecResponseLine::Record(
            SpecRecordLine { class, attribute: attr, ty, value },
        ),
{
    let ext = match ty {
        Some(t) => seq![';', type_char_text(t)],
        None => seq![],
    };
    let line = record_text(class, attr, ty, value);
    let awt = attr + ext;
    let rest = awt + seq![':'] + value;
    assert(line =~= class + seq![':'] + rest);
    assert(line[0] == class[0]);
    lemma_index_of_at(line, ':', class.len() as int);
    assert(line.take(class.len() as int) =~= class);
    assert(line.skip(class.len() + 1int) =~= rest);
    assert forall|j: int| 0 <= j < awt.len() implies awt[j] != ':' by {
        if j < attr.len() {
            assert(awt[j] == attr[j]);
        }
    }
    lemma_index_of_at(rest, ':', awt.len() as int);
    assert(rest.take(awt.len() as int) =~= awt);
    assert(rest.skip(awt.len() + 1int) =~= value);
    match ty {
        Some(t) => {
            assert forall|j: int| 0 <= j < attr.len() implies awt[j] != ';' by {
                assert(awt[j] == attr[j]);
            }
            lemma_index_of_at(awt, ';', attr.len() as int);
            assert(awt.take(attr.len() as int) =~= attr);
            assert(awt.skip(attr.len() + 1int) =~= seq![type_char_text(t)]);
            lemma_type_char_roundtrip(t);
        },
        None => {
            assert(awt =~= attr);
            lemma_index_of_at(awt, ';', awt.len() as int);
        },
    }
}

/// Every tag token starts with `%` and holds no space.
proof fn lemma_tag_text_shape(t: Tag)
    ensures
        tag_text(t).len() >= 3,
        tag_text(t)[0] == '%',
        lacks(tag_text(t), ' '),
{
}

/// Response law (tagged lines): a tagged line as the writer renders it is
/// read back as that tag and body, for every tag but `%info` and
/// `%referral` (which are read specially), when the body does not start
/// with a space; an empty body reads as the end of a block.
pub proof fn lemma_tagged_roundtrip(tag: Tag, body: Seq<char>)
    requires
        tag != Tag::Info,
        tag != Tag::Referral,
        body.len() > 0 ==> body[0] != ' ',
    ensures
        body.len() == 0 ==> response_of(tagged_text(tag, body)) == SpecResponseLine::TaggedEnd(tag),
        body.len() > 0 ==> response_of(tagged_text(tag, body)) == (SpecResponseLine::Tagged {
            tag,
            body,
        }),
{
    lemma_tag_text_shape(tag);
    lemma_tag_roundtrip(tag);
    let tt = tag_text(tag);
    let line = tagged_text(tag, body);
    if body.len() > 0 {
        assert(line =~= tt + seq![' '] + body);
        lemma_index_of_at(line, ' ', tt.len() as int);
        assert(line.take(tt.len() as int) =~= tt);
        assert(line.skip(tt.len() + 1int) =~= body);
        assert(trim_start(Blanks::Space, body) == body);
    } else {
        assert(line =~= tt);
        lemma_index_of_at(line, ' ', tt.len() as int);
    }
    assert(tt != ok_text()) by {
        if tt.len() == 3 {
            assert(tt[1] != 'o');
        }
    }
    assert(tt != seq!['%', 'e', 'r', 'r', 'o', 'r']) by {
        if tt.len() == 6 {
            assert(tt[1] != 'e' || tt[2] != 'r');
        }
    }
    assert(tt != tag_text(Tag::Info)) by {
        if tt.len() == 5 {
            assert(tt[1] != 'i' || tt[2] != 'n');
        }
    }
    assert(tt != tag_text(Tag::Referral)) by {
        if tt.len() == 9 {
            assert(tt[1] != 'r' || tt[3] != 'f');
        }
    }
}

/// Response law (info markers): `%info on` and `%info off` as the writer
/// renders them are read back as the markers.
pub proof fn lemma_info_roundtrip()
    ensures
        response_of(tagged_text(Tag::Info, seq!['o', 'n'])) == SpecResponseLine::InfoMarker(
            InfoMarker::On,
        ),
        response_of(tagged_text(Tag::Info, seq!['o', 'f', 'f'])) == SpecResponseLine::InfoMarker(
            InfoMarker::Off,
        ),
{
    let tt = tag_text(Tag::Info);
    let on = seq!['o', 'n'];
    let off = seq!['o', 'f', 'f'];
    let l1 = tagged_text(Tag::Info, on);
    let l2 = tagged_text(Tag::Info, off);
    assert(l1 =~= tt + seq![' '] + on);
    assert(l2 =~= tt + seq![' '] + off);
    lemma_index_of_at(l1, ' ', 5);
    lemma_index_of_at(l2, ' ', 5);
    assert(l1.take(5) =~= tt);
    assert(l2.take(5) =~= tt);
    assert(l1.skip(6) =~= on);
    assert(l2.skip(6) =~= off);
    assert(trim_start(Blanks::Space, on) == on);
    assert(trim_start(Blanks::Space, off) == off);
    assert(tt != ok_text());
    assert(tt != seq!['%', 'e', 'r', 'r', 'o', 'r']);
}

/// Response law (`%ok`): the writer's `%ok` is read back as such.
pub proof fn lemma_ok_roundtrip()
    ensures
        response_of(ok_text()) == SpecResponseLine::OkLine,
{
    lemma_index_of_at(ok_text(), ' ', 3);
}

/// Response law (errors): an error line as the writer renders it is read
/// back with the code and the message as text, and the extra text (when
/// given and non-empty) as extra, when the message holds no `": "`.
#[verifier::spinoff_prover]
#[verifier::rlimit(40)]
pub proof fn lemma_error_roundtrip(code: ResponseCode, extra: Option<Seq<char>>)
    requires
        pair_index(code.message@, ':', ' ') == code.message@.len(),
    ensures
        response_of(error_text(code, extra)) == (SpecResponseLine::Error {
            code: code.code,
            text: code.message@,
            extra: match extra {
                Some(e) => if e.len() > 0 {
                    Some(e)
                } else {
                    None
                },
                None => None,
            },
        }),
{
    let msg = code.message@;
    let digits = decimal_padded(code.code as nat, 3);
    lemma_parse_decimal_padded(code.code as nat, 3, 0xffff);
    let tail = match extra {
        Some(e) => if e.len() > 0 {
            seq![':', ' '] + e
        } else {
            seq![]
        },
        None => seq![],
    };
    let rest = msg + tail;
    let body = digits + seq![' '] + rest;
    let tok = seq!['%', 'e', 'r', 'r', 'o', 'r'];
    let line = error_text(code, extra);
    assert(line =~= tok + seq![' '] + body);
    lemma_index_of_at(line, ' ', 6);
    assert(line.take(6) =~= tok);
    assert(line.skip(7) =~= body);
    assert(body[0] == digits[0]);
    assert(trim_start(Blanks::Space, body) == body);
    assert forall|j: int| 0 <= j < digits.len() implies body[j] != ' ' by {
        assert(body[j] == digits[j]);
    }
    lemma_index_of_at(body, ' ', digits.len() as int);
    assert(body.take(digits.len() as int) =~= digits);
    assert(body.skip(digits.len() + 1int) =~= rest);
    assert(parse_uint(digits, 10, 0xffff) == Some(code.code as nat));
    lemma_pair_index_append(msg, tail);
    match extra {
        Some(e) => if e.len() > 0 {
            assert(rest.take(msg.len() as int) =~= msg);
            assert(rest.skip(msg.len() + 2int) =~= e);
        } else {
            assert(rest =~= msg);
        },
        None => {
            assert(rest =~= msg);
        },
    }
}

/// Where `": "` is first found in `msg + tail`, when `msg` holds none and
/// `tail` is empty or starts with `": "`.
proof fn lemma_pair_index_append(msg: Seq<char>, tail: Seq<char>)
    requires
        pair_index(msg, ':', ' ') == msg.len(),
        tail.len() == 0 || (tail.len() >= 2 && tail[0] == ':' && tail[1] == ' '),
    ensures
        tail.len() == 0 ==> pair_index(msg + tail, ':', ' ') == msg.len(),
        tail.len() > 0 ==> pair_index(msg + tail, ':', ' ') == msg.len(),
    decreases msg.len(),
{
    let s = msg + tail;
    if tail.len() == 0 {
        assert(s =~= msg);
    } else if msg.len() == 0 {
        assert(s =~= tail);
    } else {
        assert(s.drop_first() =~= msg.drop_first() + tail);
        if msg.len() >= 2 {
            assert(!(msg[0] == ':' && msg[1] == ' '));
            assert(s[0] == msg[0] && s[1] == msg[1]);
            lemma_pair_index_append(msg.drop_first(), tail);
        } else {
            assert(msg.drop_first() =~= Seq::<char>::empty());
            assert(msg.drop_first() + tail =~= tail);
            assert(s[1] == tail[0]);
            assert(pair_index(tail, ':', ' ') == 0);
        }
    }
}

/// A referral URL as the writer renders it reads back as its parts, when
/// the host holds no `/` ([`ReferralUrl::parse`] is exactly
/// [`referral_of`]).
pub proof fn lemma_referral_url(host: Seq<char>, port: u16, area: Seq<char>)
    requires
        lacks(host, '/'),
    ensures
        referral_of(referral_text(host, port, area)) == Some(
            SpecReferralUrl { host, port, auth_area: area },
        ),
        referral_text(host, port, area)[0] == 'r',
{
    let digits = decimal(port as nat);
    crate::digits::lemma_decimal(port as nat);
    crate::digits::lemma_parse_decimal(port as nat, 0xffff);
    let url = referral_text(host, port, area);
    let hostport = host + seq![':'] + digits;
    let after = area_key_text() + area;
    let rest = hostport + seq!['/'] + after;
    assert(url =~= scheme_text() + rest);
    assert(url.take(9) =~= scheme_text());
    assert(url.skip(9) =~= rest);
    assert forall|j: int| 0 <= j < hostport.len() implies hostport[j] != '/' by {
        if j < host.len() {
            assert(hostport[j] == host[j]);
        } else if j > host.len() {
            assert(hostport[j] == digits[j - host.len() - 1]);
        }
    }
    lemma_index_of_at(rest, '/', hostport.len() as int);
    assert(rest.take(hostport.len() as int) =~= hostport);
    assert(rest.skip(hostport.len() + 1int) =~= after);
    lemma_last_index_of_digits(host, digits);
    assert(hostport.skip(host.len() + 1int) =~= digits);
    assert(hostport.take(host.len() as int) =~= host);
    assert(after.take(10) =~= area_key_text());
    assert(after.skip(10) =~= area);
}

/// Response law (referrals): a referral as the writer renders it is read
/// back as that host, port and area, when the host holds no `/`.
pub proof fn lemma_referral_roundtrip(host: Seq<char>, port: u16, area: Seq<char>)
    requires
        lacks(host, '/'),
    ensures
        response_of(tagged_text(Tag::Referral, referral_text(host, port, area)))
            == SpecResponseLine::Referral(SpecReferralUrl { host, port, auth_area: area }),
{
    let tt = tag_text(Tag::Referral);
    let url = referral_text(host, port, area);
    lemma_referral_url(host, port, area);
    let line = tagged_text(Tag::Referral, url);
    assert(url.len() > 0);
    assert(line =~= tt + seq![' '] + url);
    lemma_index_of_at(line, ' ', 9);
    assert(line.take(9) =~= tt);
    assert(line.skip(10) =~= url);
    assert(trim_start(Blanks::Space, url) == url);
    assert(tt != ok_text());
    assert(tt != seq!['%', 'e', 'r', 'r', 'o', 'r']);
    assert(tt != tag_text(Tag::Info));
}

proof fn lemma_last_index_of_digits(host: Seq<char>, digits: Seq<char>)
    requires
        forall|i: int| 0 <= i < digits.len() ==> '0' <= #[trigger] digits[i] <= '9',
    ensures
        last_index_of(host + seq![':'] + digits, ':') == host.len(),
    decreases digits.len(),
{
    let s = host + seq![':'] + digits;
    if digits.len() == 0 {
        assert(s.last() == ':');
    } else {
        assert(s.drop_last() =~= host + seq![':'] + digits.drop_last());
        assert(s.last() == digits.last());
        lemma_last_index_of_digits(host, digits.drop_last());
    }
}

} // verus!
