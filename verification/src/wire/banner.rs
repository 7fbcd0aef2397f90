//! The `%rwhois` banner (RFC 2167 §3.1.9): building and parsing.
//!
//! ```text
//! rwhois-banner  = "%rwhois" space version-list space host-name
//!                  [space implementation] crlf
//! version-list   = version *("," version)
//! version        = version-number [":" capability-id]
//! version-number = "V-" 1*digit "." 1*digit
//! capability-id  = response-id ":" extra-id
//! response-id    = 6hex-digit
//! extra-id       = 2hex-digit
//! ```

use vstd::prelude::*;

use crate::digits::{
    all_digits, decimal, digit_value, digits_value, hex_fixed, is_lower_hex, lemma_decimal, lemma_hex_fixed, lemma_parse_decimal,
    lemma_parse_hex_fixed, parse_uint, parse_uint_range, pow16, push_decimal, push_hex_fixed,
};
use crate::text::{
    chars_of, find_char, index_of, lemma_index_of, lemma_index_of_at, range_eq, string_from_chars,
    string_of_range,
};

verus! {

/// Capability identifier: a 24-bit response mask and 8 extra bits.
#[derive(Debug, Clone, Copy, PartialEq, Eq)]
pub struct Capability {
    /// Response capability bitmask (24 bits on the wire).
    pub response_id: u32,
    /// Extra capability bits.
    pub extra_id: u8,
}

/// One protocol version listed in the banner, with optional capability id.
#[derive(Debug, Clone, Copy, PartialEq, Eq)]
pub struct Version {
    /// Major version number.
    pub major: u32,
    /// Minor version number.
    pub minor: u32,
    /// Optional capability identifier.
    pub capability: Option<Capability>,
}

/// `%rwhois` greeting, also the reply to a `-rwhois` directive.
#[derive(Debug, Clone, PartialEq, Eq)]
pub struct Banner {
    /// Versions advertised by the server, lowest first.
    pub versions: Vec<Version>,
    /// Server host name.
    pub hostname: String,
    /// Optional implementation string (free-form trailing text).
    pub implementation: Option<String>,
}

/// A banner as values.
pub struct SpecBanner {
    pub versions: Seq<Version>,
    pub hostname: Seq<char>,
    pub implementation: Option<Seq<char>>,
}

impl View for Banner {
    type V = SpecBanner;

    open spec fn view(&self) -> SpecBanner {
        SpecBanner {
            versions: self.versions@,
            hostname: self.hostname@,
            implementation: match self.implementation {
                Some(s) => Some(s@),
                None => None,
            },
        }
    }
}

/// The text of a capability: six and two lower-case hexadecimal digits, the
/// response mask cut to 24 bits.
pub open spec fn capability_text(c: Capability) -> Seq<char> {
    hex_fixed((c.response_id % 0x100_0000) as nat, 6) + seq![':'] + hex_fixed(c.extra_id as nat, 2)
}

/// The text of a version: `V-<major>.<minor>[:<capability>]`.
pub open spec fn version_text(v: Version) -> Seq<char> {
    seq!['V', '-'] + decimal(v.major as nat) + seq!['.'] + decimal(v.minor as nat) + match v.capability {
        Some(c) => seq![':'] + capability_text(c),
        None => seq![],
    }
}

/// Version texts joined by commas.
pub open spec fn versions_text(vs: Seq<Version>) -> Seq<char>
    decreases vs.len(),
{
    if vs.len() == 0 {
        seq![]
    } else if vs.len() == 1 {
        version_text(vs[0])
    } else {
        version_text(vs[0]) + seq![','] + versions_text(vs.drop_first())
    }
}

/// The `%rwhois ` prefix of a banner line.
pub open spec fn banner_prefix() -> Seq<char> {
    seq!['%', 'r', 'w', 'h', 'o', 'i', 's', ' ']
}

/// The line of a banner, without terminator.
pub open spec fn banner_text(b: SpecBanner) -> Seq<char> {
    banner_prefix() + versions_text(b.versions) + seq![' '] + b.hostname + match b.implementation {
        Some(i) => seq![' '] + i,
        None => seq![],
    }
}

/// A capability written `<6 hex>:<2 hex>`: exactly six and two
/// hexadecimal digits (either case) around a `:`.
pub open spec fn capability_of(s: Seq<char>) -> Option<Capability> {
    let k = index_of(s, ':');
    if k >= s.len() {
        None
    } else {
        let r = s.take(k);
        let e = s.skip(k + 1);
        if r.len() == 6 && e.len() == 2 && all_digits(r, 16) && all_digits(e, 16) {
            Some(
                Capability {
                    response_id: digits_value(r, 16) as u32,
                    extra_id: digits_value(e, 16) as u8,
                },
            )
        } else {
            None
        }
    }
}

/// The numbers of a version written `<major>.<minor>`, each in decimal
/// fitting `u32`.
pub open spec fn version_numbers(p: Seq<char>) -> Option<(u32, u32)> {
    let d = index_of(p, '.');
    if d >= p.len() {
        None
    } else {
        let major = parse_uint(p.take(d), 10, 0xffff_ffff);
        let minor = parse_uint(p.skip(d + 1), 10, 0xffff_ffff);
        if major is Some && minor is Some {
            Some((major->0 as u32, minor->0 as u32))
        } else {
            None
        }
    }
}

/// A version written `V-<major>.<minor>[:<capability>]`; version 1.5
/// must carry a capability.
pub open spec fn version_of(s: Seq<char>) -> Option<Version> {
    if !(s.len() >= 2 && s[0] == 'V' && s[1] == '-') {
        None
    } else {
        let rest = s.skip(2);
        let k = index_of(rest, ':');
        match version_numbers(rest.take(k)) {
            None => None,
            Some((major, minor)) => if k >= rest.len() {
                if major == 1 && minor == 5 {
                    None
                } else {
                    Some(Version { major, minor, capability: None })
                }
            } else {
                match capability_of(rest.skip(k + 1)) {
                    Some(c) => Some(Version { major, minor, capability: Some(c) }),
                    None => None,
                }
            },
        }
    }
}

/// `s` split at every `c`.
pub open spec fn split_on(s: Seq<char>, c: char) -> Seq<Seq<char>>
    decreases s.len(),
{
    let k = index_of(s, c);
    if k >= s.len() {
        seq![s]
    } else {
        proof {
            lemma_index_of(s, c);
        }
        seq![s.take(k)] + split_on(s.skip(k + 1), c)
    }
}

/// Every text parsed as a version, or `None` if one fails.
pub open spec fn versions_of(parts: Seq<Seq<char>>) -> Option<Seq<Version>>
    decreases parts.len(),
{
    if parts.len() == 0 {
        Some(seq![])
    } else {
        match (version_of(parts[0]), versions_of(parts.drop_first())) {
            (Some(v), Some(r)) => Some(seq![v] + r),
            _ => None,
        }
    }
}

/// A banner line: the prefix, a version list up to the first space, the
/// host name up to the next space, and a non-empty implementation text
/// after it, if any.
pub open spec fn banner_of(line: Seq<char>) -> Option<SpecBanner> {
    if !(line.len() >= 8 && line.take(8) == banner_prefix()) {
        None
    } else {
        let body = line.skip(8);
        let p1 = index_of(body, ' ');
        if p1 >= body.len() {
            None
        } else {
            let after = body.skip(p1 + 1);
            let p2 = index_of(after, ' ');
            let implementation = if p2 < after.len() && after.len() > p2 + 1 {
                Some(after.skip(p2 + 1))
            } else {
                None
            };
            match versions_of(split_on(body.take(p1), ',')) {
                Some(vs) => Some(
                    SpecBanner { versions: vs, hostname: after.take(p2), implementation },
                ),
                None => None,
            }
        }
    }
}

proof fn lemma_mask24(x: u32)
    ensures
        x & 0x00ff_ffff == x % 0x100_0000,
{
    assert(x & 0x00ff_ffff == x % 0x100_0000) by (bit_vector);
}

impl Capability {
    /// Build from raw fields.
    pub fn new(response_id: u32, extra_id: u8) -> (c: Capability)
        ensures
            c.response_id == response_id,
            c.extra_id == extra_id,
    {
        Capability { response_id, extra_id }
    }

    /// Parse `<6hex>:<2hex>`.
    pub fn parse(s: &str) -> (r: Option<Capability>)
        ensures
            r == capability_of(s@),
    {
        let v = chars_of(s);
        assert(v@.subrange(0, v@.len() as int) =~= v@);
        capability_in(v.as_slice(), 0, v.len())
    }

    /// The wire text `{:06x}:{:02x}` of the 24-bit response mask and the
    /// extra bits.
    pub fn to_string(&self) -> (s: String)
        ensures
            s@ == capability_text(*self),
    {
        let mut out: Vec<char> = Vec::new();
        push_capability(&mut out, self);
        string_from_chars(out.as_slice())
    }
}

fn push_capability(out: &mut Vec<char>, c: &Capability)
    ensures
        final(out)@ == old(out)@ + capability_text(*c),
{
    proof {
        lemma_mask24(c.response_id);
    }
    push_hex_fixed(out, (c.response_id & 0x00ff_ffff) as u64, 6);
    out.push(':');
    push_hex_fixed(out, c.extra_id as u64, 2);
    assert(final(out)@ =~= old(out)@ + capability_text(*c));
}

/// Hexadecimal digits write a number below `16` to their count.
proof fn lemma_hex_digits_below(s: Seq<char>)
    requires
        all_digits(s, 16),
    ensures
        digits_value(s, 16) < pow16(s.len()),
    decreases s.len(),
{
    if s.len() > 0 {
        let t = s.drop_last();
        assert(all_digits(t, 16)) by {
            assert forall|i: int| 0 <= i < t.len() implies #[trigger] digit_value(t[i], 16) is Some by {
                assert(t[i] == s[i]);
            }
        }
        lemma_hex_digits_below(t);
        assert(digit_value(s[s.len() - 1], 16) is Some);
    }
}

fn capability_in(v: &[char], lo: usize, hi: usize) -> (r: Option<Capability>)
    requires
        lo <= hi <= v@.len(),
    ensures
        r == capability_of(v@.subrange(lo as int, hi as int)),
{
    let ghost s = v@.subrange(lo as int, hi as int);
    let k = find_char(v, ':', lo, hi);
    if k == hi {
        return None;
    }
    assert(s.take(k - lo) =~= v@.subrange(lo as int, k as int));
    assert(s.skip(k - lo + 1) =~= v@.subrange(k + 1, hi as int));
    if k - lo != 6 || hi - k - 1 != 2 {
        return None;
    }
    let ghost r = v@.subrange(lo as int, k as int);
    let ghost e = v@.subrange(k + 1, hi as int);
    if v[lo] == '+' || v[k + 1] == '+' {
        proof {
            if v@[lo as int] == '+' {
                assert(r[0] == '+');
                assert(digit_value(r[0], 16) is None);
            } else {
                assert(e[0] == '+');
                assert(digit_value(e[0], 16) is None);
            }
        }
        return None;
    }
    proof {
        if all_digits(r, 16) {
            lemma_hex_digits_below(r);
        }
        if all_digits(e, 16) {
            lemma_hex_digits_below(e);
        }
        assert(r.drop_first().len() == 5);
        reveal_with_fuel(pow16, 7);
    }
    let rid = parse_uint_range(v, lo, k, 16, 0xffff_ffff);
    let eid = parse_uint_range(v, k + 1, hi, 16, 0xff);
    match (rid, eid) {
        (Some(a), Some(b)) => Some(Capability { response_id: a as u32, extra_id: b as u8 }),
        _ => None,
    }
}

fn version_numbers_in(v: &[char], lo: usize, hi: usize) -> (r: Option<(u32, u32)>)
    requires
        lo <= hi <= v@.len(),
    ensures
        r == version_numbers(v@.subrange(lo as int, hi as int)),
{
    let ghost p = v@.subrange(lo as int, hi as int);
    let d = find_char(v, '.', lo, hi);
    if d == hi {
        return None;
    }
    assert(p.take(d - lo) =~= v@.subrange(lo as int, d as int));
    assert(p.skip(d - lo + 1) =~= v@.subrange(d + 1, hi as int));
    let major = parse_uint_range(v, lo, d, 10, 0xffff_ffff);
    let minor = parse_uint_range(v, d + 1, hi, 10, 0xffff_ffff);
    match (major, minor) {
        (Some(a), Some(b)) => Some((a as u32, b as u32)),
        _ => None,
    }
}

fn version_in(v: &[char], lo: usize, hi: usize) -> (r: Option<Version>)
    requires
        lo <= hi <= v@.len(),
    ensures
        r == version_of(v@.subrange(lo as int, hi as int)),
{
    let ghost s = v@.subrange(lo as int, hi as int);
    if !(hi - lo >= 2 && v[lo] == 'V' && v[lo + 1] == '-') {
        return None;
    }
    let ghost rest = s.skip(2);
    assert(rest =~= v@.subrange(lo + 2, hi as int));
    let k = find_char(v, ':', lo + 2, hi);
    assert(rest.take(k - lo - 2) =~= v@.subrange(lo + 2, k as int));
    match version_numbers_in(v, lo + 2, k) {
        None => None,
        Some((major, minor)) => {
            if k == hi {
                if major == 1 && minor == 5 {
                    None
                } else {
                    Some(Version { major, minor, capability: None })
                }
            } else {
                assert(rest.skip(k - lo - 2 + 1) =~= v@.subrange(k + 1, hi as int));
                match capability_in(v, k + 1, hi) {
                    Some(c) => Some(Version { major, minor, capability: Some(c) }),
                    None => None,
                }
            }
        },
    }
}

fn push_version(out: &mut Vec<char>, v: &Version)
    ensures
        final(out)@ == old(out)@ + version_text(*v),
{
    let ghost start = out@;
    out.push('V');
    out.push('-');
    push_decimal(out, v.major as u64);
    out.push('.');
    push_decimal(out, v.minor as u64);
    match &v.capability {
        Some(c) => {
            out.push(':');
            push_capability(out, c);
        },
        None => {},
    }
    assert(out@ =~= start + version_text(*v));
}

proof fn lemma_versions_text_snoc(vs: Seq<Version>, i: int)
    requires
        1 <= i < vs.len(),
    ensures
        versions_text(vs.take(i + 1)) == versions_text(vs.take(i)) + seq![','] + version_text(
            vs[i],
        ),
    decreases i,
{
    let a = vs.take(i + 1);
    let b = vs.take(i);
    if i == 1 {
        assert(a.drop_first() =~= seq![vs[1]]);
        assert(versions_text(a.drop_first()) == version_text(vs[1]));
    } else {
        let t = vs.drop_first();
        lemma_versions_text_snoc(t, i - 1);
        assert(a.drop_first() =~= t.take(i));
        assert(b.drop_first() =~= t.take(i - 1));
        assert(versions_text(a) == version_text(vs[0]) + seq![','] + versions_text(t.take(i)));
        assert(versions_text(b) == version_text(vs[0]) + seq![','] + versions_text(t.take(i - 1)));
    }
}

impl Version {
    /// Convenience constructor.
    pub fn new(major: u32, minor: u32, capability: Option<Capability>) -> (v: Version)
        ensures
            v == (Version { major, minor, capability }),
    {
        Version { major, minor, capability }
    }

    /// Parse one `version` token (e.g. `V-1.5:00ffff:00`).
    pub fn parse(s: &str) -> (r: Option<Version>)
        ensures
            r == version_of(s@),
    {
        let v = chars_of(s);
        assert(v@.subrange(0, v@.len() as int) =~= v@);
        version_in(v.as_slice(), 0, v.len())
    }

    /// The wire text `V-<major>.<minor>[:<capability>]`.
    pub fn to_string(&self) -> (s: String)
        ensures
            s@ == version_text(*self),
    {
        let mut out: Vec<char> = Vec::new();
        push_version(&mut out, self);
        string_from_chars(out.as_slice())
    }
}

impl Banner {
    /// A single-version banner with capability bits.
    pub fn single(
        major: u32,
        minor: u32,
        capability: Capability,
        hostname: String,
        implementation: Option<String>,
    ) -> (b: Banner)
        ensures
            b@.versions == seq![Version { major, minor, capability: Some(capability) }],
            b@.hostname == hostname@,
            b@.implementation == (match implementation {
                Some(s) => Some(s@),
                None => None::<Seq<char>>,
            }),
    {
        let mut versions: Vec<Version> = Vec::new();
        versions.push(Version { major, minor, capability: Some(capability) });
        Banner { versions, hostname, implementation }
    }

    /// The wire form, as [`Banner::to_line`] gives it.
    pub fn to_string(&self) -> (s: String)
        ensures
            s@ == banner_text(self@),
    {
        self.to_line()
    }

    /// The wire form, without terminator.
    pub fn to_line(&self) -> (s: String)
        ensures
            s@ == banner_text(self@),
    {
        let mut out: Vec<char> = Vec::new();
        out.push('%');
        out.push('r');
        out.push('w');
        out.push('h');
        out.push('o');
        out.push('i');
        out.push('s');
        out.push(' ');
        assert(out@ =~= banner_prefix());
        let ghost vs = self.versions@;
        let n = self.versions.len();
        let mut i: usize = 0;
        while i < n
            invariant
                i <= n == vs.len(),
                vs == self.versions@,
                out@ == banner_prefix() + versions_text(vs.take(i as int)),
            decreases n - i,
        {
            let ghost before = out@;
            if i > 0 {
                out.push(',');
            }
            push_version(&mut out, &self.versions[i]);
            proof {
                if i == 0 {
                    assert(vs.take(1) =~= seq![vs[0]]);
                } else {
                    lemma_versions_text_snoc(vs, i as int);
                }
            }
            i = i + 1;
            assert(out@ =~= banner_prefix() + versions_text(vs.take(i as int)));
        }
        assert(vs.take(n as int) =~= vs);
        out.push(' ');
        let h = chars_of(self.hostname.as_str());
        let mut j: usize = 0;
        let ghost mid = out@;
        while j < h.len()
            invariant
                j <= h@.len(),
                out@ == mid + h@.take(j as int),
            decreases h@.len() - j,
        {
            out.push(h[j]);
            j = j + 1;
            assert(out@ =~= mid + h@.take(j as int));
        }
        assert(h@.take(h@.len() as int) =~= h@);
        match &self.implementation {
            Some(imp) => {
                out.push(' ');
                let w = chars_of(imp.as_str());
                let ghost mid2 = out@;
                let mut j: usize = 0;
                while j < w.len()
                    invariant
                        j <= w@.len(),
                        out@ == mid2 + w@.take(j as int),
                    decreases w@.len() - j,
                {
                    out.push(w[j]);
                    j = j + 1;
                    assert(out@ =~= mid2 + w@.take(j as int));
                }
                assert(w@.take(w@.len() as int) =~= w@);
            },
            None => {},
        }
        assert(out@ =~= banner_text(self@));
        string_from_chars(out.as_slice())
    }

    /// Parse a banner line (without its terminator).
    pub fn parse(line: &str) -> (r: Option<Banner>)
        ensures
            r is Some <==> banner_of(line@) is Some,
            r is Some ==> r->0@ == banner_of(line@)->0,
    {
        let v = chars_of(line);
        let len = v.len();
        let prefix: [char; 8] = ['%', 'r', 'w', 'h', 'o', 'i', 's', ' '];
        assert(prefix@ =~= banner_prefix());
        if len < 8 || !range_eq(v.as_slice(), 0, 8, prefix.as_slice()) {
            assert(len >= 8 ==> v@.subrange(0, 8) =~= v@.take(8));
            return None;
        }
        assert(v@.subrange(0, 8) =~= v@.take(8));
        let ghost body = v@.skip(8);
        assert(body =~= v@.subrange(8, len as int));
        let p1 = find_char(v.as_slice(), ' ', 8, len);
        if p1 == len {
            return None;
        }
        let ghost after = body.skip(p1 - 8 + 1);
        assert(after =~= v@.subrange(p1 + 1, len as int));
        let p2 = find_char(v.as_slice(), ' ', p1 + 1, len);
        assert(after.take(p2 - p1 - 1) =~= v@.subrange(p1 + 1, p2 as int));
        let hostname = string_of_range(v.as_slice(), p1 + 1, p2);
        let implementation = if p2 < len && len > p2 + 1 {
            assert(after.skip(p2 - p1 - 1 + 1) =~= v@.subrange(p2 + 1, len as int));
            Some(string_of_range(v.as_slice(), p2 + 1, len))
        } else {
            None
        };
        assert(body.take(p1 - 8) =~= v@.subrange(8, p1 as int));
        match versions_in(v.as_slice(), 8, p1) {
            Some(versions) => Some(Banner { versions, hostname, implementation }),
            None => None,
        }
    }
}

proof fn lemma_split_step(v: Seq<char>, start: int, k: int, hi: int)
    requires
        0 <= start <= k <= hi <= v.len(),
        k - start == index_of(v.subrange(start, hi), ','),
    ensures
        k == hi ==> split_on(v.subrange(start, hi), ',') == seq![v.subrange(start, hi)],
        k < hi ==> split_on(v.subrange(start, hi), ',') == seq![v.subrange(start, k)] + split_on(
            v.subrange(k + 1, hi),
            ',',
        ),
{
    let s = v.subrange(start, hi);
    if k < hi {
        assert(s.take(k - start) =~= v.subrange(start, k));
        assert(s.skip(k - start + 1) =~= v.subrange(k + 1, hi));
    }
}

/// Prepend parsed versions to the result of parsing the rest.
spec fn prepend(done: Seq<Version>, rest: Option<Seq<Version>>) -> Option<Seq<Version>> {
    match rest {
        Some(r) => Some(done + r),
        None => None,
    }
}

fn versions_in(v: &[char], lo: usize, hi: usize) -> (r: Option<Vec<Version>>)
    requires
        lo <= hi <= v@.len(),
    ensures
        r is Some <==> versions_of(split_on(v@.subrange(lo as int, hi as int), ',')) is Some,
        r is Some ==> r->0@ == versions_of(split_on(v@.subrange(lo as int, hi as int), ','))->0,
{
    let mut out: Vec<Version> = Vec::new();
    let mut start = lo;
    loop
        invariant
            lo <= start <= hi <= v@.len(),
            versions_of(split_on(v@.subrange(lo as int, hi as int), ',')) == prepend(
                out@,
                versions_of(split_on(v@.subrange(start as int, hi as int), ',')),
            ),
        decreases hi - start,
    {
        let k = find_char(v, ',', start, hi);
        proof {
            lemma_split_step(v@, start as int, k as int, hi as int);
        }
        let ghost parts = split_on(v@.subrange(start as int, hi as int), ',');
        assert(parts[0] == v@.subrange(start as int, k as int));
        match version_in(v, start, k) {
            None => {
                return None;
            },
            Some(ver) => {
                let ghost before = out@;
                out.push(ver);
                if k == hi {
                    assert(parts.drop_first() =~= Seq::<Seq<char>>::empty());
                    assert(versions_of(parts.drop_first()) == Some(Seq::<Version>::empty()));
                    assert(versions_of(parts) == Some(seq![ver] + Seq::<Version>::empty()));
                    assert(seq![ver] + Seq::<Version>::empty() =~= seq![ver]);
                    assert(out@ =~= before + seq![ver]);
                    return Some(out);
                }
                assert(parts.drop_first() =~= split_on(v@.subrange(k + 1, hi as int), ','));
                proof {
                    let rest = versions_of(split_on(v@.subrange(k + 1, hi as int), ','));
                    match rest {
                        Some(r) => {
                            assert(before + (seq![ver] + r) =~= out@ + r);
                        },
                        None => {},
                    }
                }
                start = k + 1;
            },
        }
    }
}

/// A banner that its own text describes exactly: at least one version,
/// capability masks within 24 bits, a host name without spaces and, if
/// present, a non-empty implementation text.
pub open spec fn banner_is_canonical(b: SpecBanner) -> bool {
    &&& b.versions.len() > 0
    &&& forall|i: int| 0 <= i < b.versions.len() ==> version_is_canonical(#[trigger] b.versions[i])
    &&& forall|i: int| 0 <= i < b.hostname.len() ==> #[trigger] b.hostname[i] != ' '
    &&& (b.implementation matches Some(imp) ==> imp.len() > 0)
}

/// A version whose capability mask fits 24 bits, with a capability if it
/// is version 1.5.
pub open spec fn version_is_canonical(v: Version) -> bool {
    &&& v.capability matches Some(c) ==> c.response_id < 0x100_0000
    &&& v.major == 1 && v.minor == 5 ==> v.capability is Some
}

/// A character that may appear in the text of a version.
spec fn version_char(c: char) -> bool {
    is_lower_hex(c) || c == 'V' || c == '-' || c == '.' || c == ':'
}

/// A capability whose mask fits 24 bits reads back from its text.
pub proof fn lemma_capability_roundtrip(c: Capability)
    requires
        c.response_id < 0x100_0000,
    ensures
        capability_of(capability_text(c)) == Some(c),
{
    lemma_capability_text(c);
}

proof fn lemma_capability_text(c: Capability)
    requires
        c.response_id < 0x100_0000,
    ensures
        capability_of(capability_text(c)) == Some(c),
        capability_text(c).len() == 9,
        forall|i: int| 0 <= i < 9 ==> version_char(#[trigger] capability_text(c)[i]),
{
    let r = hex_fixed((c.response_id % 0x100_0000) as nat, 6);
    let e = hex_fixed(c.extra_id as nat, 2);
    let t = capability_text(c);
    lemma_hex_fixed((c.response_id % 0x100_0000) as nat, 6);
    lemma_hex_fixed(c.extra_id as nat, 2);
    reveal_with_fuel(pow16, 7);
    assert(pow16(6) == 0x100_0000);
    assert(pow16(2) == 256);
    assert forall|j: int| 0 <= j < 6 implies t[j] != ':' by {
        assert(t[j] == r[j]);
        assert(is_lower_hex(r[j]));
    }
    lemma_index_of_at(t, ':', 6);
    assert(t.take(6) =~= r);
    assert(t.skip(7) =~= e);
    lemma_parse_hex_fixed(c.response_id as nat, 6, 0xffff_ffff);
    lemma_parse_hex_fixed(c.extra_id as nat, 2, 0xff);
    assert forall|i: int| 0 <= i < 9 implies version_char(#[trigger] t[i]) by {
        if i < 6 {
            assert(t[i] == r[i]);
        } else if i > 6 {
            assert(t[i] == e[i - 7]);
        }
    }
}

proof fn lemma_version_text(v: Version)
    requires
        version_is_canonical(v),
    ensures
        version_of(version_text(v)) == Some(v),
        forall|i: int| 0 <= i < version_text(v).len() ==> version_char(#[trigger] version_text(v)[i]),
{
    lemma_version_text_parses(v);
    lemma_version_text_chars(v);
}

#[verifier::spinoff_prover]
#[verifier::rlimit(40)]
proof fn lemma_version_text_parses(v: Version)
    requires
        version_is_canonical(v),
    ensures
        version_of(version_text(v)) == Some(v),
{
    let d1 = decimal(v.major as nat);
    let d2 = decimal(v.minor as nat);
    lemma_decimal(v.major as nat);
    lemma_decimal(v.minor as nat);
    lemma_parse_decimal(v.major as nat, 0xffff_ffff);
    lemma_parse_decimal(v.minor as nat, 0xffff_ffff);
    let tail = match v.capability {
        Some(c) => seq![':'] + capability_text(c),
        None => seq![],
    };
    let t = version_text(v);
    assert(t =~= seq!['V', '-'] + d1 + seq!['.'] + d2 + tail);
    let rest = t.skip(2);
    let nums = d1 + seq!['.'] + d2;
    assert(rest =~= nums + tail);
    assert forall|j: int| 0 <= j < nums.len() implies nums[j] != ':' by {
        if j < d1.len() {
            assert(nums[j] == d1[j]);
        } else if j > d1.len() {
            assert(nums[j] == d2[j - d1.len() - 1]);
        }
    }
    assert forall|j: int| 0 <= j < d1.len() implies nums[j] != '.' by {
        assert(nums[j] == d1[j]);
    }
    lemma_index_of_at(nums, '.', d1.len() as int);
    assert(nums.take(d1.len() as int) =~= d1);
    assert(nums.skip(d1.len() + 1int) =~= d2);
    assert(version_numbers(nums) == Some((v.major, v.minor)));
    match v.capability {
        Some(c) => {
            lemma_capability_text(c);
            lemma_index_of_at(rest, ':', nums.len() as int);
            assert(rest.take(nums.len() as int) =~= nums);
            assert(rest.skip(nums.len() + 1int) =~= capability_text(c));
        },
        None => {
            assert(rest =~= nums);
            lemma_index_of_at(rest, ':', nums.len() as int);
            assert(rest.take(nums.len() as int) =~= nums);
        },
    }
}

proof fn lemma_version_text_chars(v: Version)
    requires
        version_is_canonical(v),
    ensures
        forall|i: int| 0 <= i < version_text(v).len() ==> version_char(#[trigger] version_text(v)[i]),
{
    let d1 = decimal(v.major as nat);
    let d2 = decimal(v.minor as nat);
    lemma_decimal(v.major as nat);
    lemma_decimal(v.minor as nat);
    let tail = match v.capability {
        Some(c) => seq![':'] + capability_text(c),
        None => seq![],
    };
    let t = version_text(v);
    assert(t =~= seq!['V', '-'] + d1 + seq!['.'] + d2 + tail);
    match v.capability {
        Some(c) => {
            lemma_capability_text(c);
        },
        None => {},
    }
    assert forall|i: int| 0 <= i < t.len() implies version_char(#[trigger] t[i]) by {
        if 2 <= i < 2 + d1.len() {
            assert(t[i] == d1[i - 2]);
        } else if 3 + d1.len() <= i < 3 + d1.len() + d2.len() {
            assert(t[i] == d2[i - 3 - d1.len()]);
        } else if i > 3 + d1.len() + d2.len() {
            match v.capability {
                Some(c) => {
                    assert(t[i] == capability_text(c)[i - 4 - d1.len() - d2.len()]);
                },
                None => {},
            }
        }
    }
}

proof fn lemma_versions_text(vs: Seq<Version>)
    requires
        vs.len() > 0,
        forall|i: int| 0 <= i < vs.len() ==> version_is_canonical(#[trigger] vs[i]),
    ensures
        versions_of(split_on(versions_text(vs), ',')) == Some(vs),
        forall|i: int| 0 <= i < versions_text(vs).len() ==> #[trigger] versions_text(vs)[i] != ' ',
    decreases vs.len(),
{
    let t0 = version_text(vs[0]);
    lemma_version_text(vs[0]);
    assert forall|j: int| 0 <= j < t0.len() implies t0[j] != ',' && t0[j] != ' ' by {
        assert(version_char(t0[j]));
    }
    if vs.len() == 1 {
        lemma_index_of_at(t0, ',', t0.len() as int);
        assert(split_on(t0, ',') =~= seq![t0]);
        assert(seq![t0].drop_first() =~= Seq::<Seq<char>>::empty());
        assert(versions_of(seq![t0].drop_first()) == Some(Seq::<Version>::empty()));
        assert(seq![vs[0]] + Seq::<Version>::empty() =~= vs);
    } else {
        let rest = vs.drop_first();
        assert forall|i: int| 0 <= i < rest.len() implies version_is_canonical(#[trigger] rest[i]) by {
            assert(rest[i] == vs[i + 1]);
        }
        lemma_versions_text(rest);
        let rt = versions_text(rest);
        let t = versions_text(vs);
        assert(t =~= t0 + seq![','] + rt);
        lemma_index_of_at(t, ',', t0.len() as int);
        assert(t.take(t0.len() as int) =~= t0);
        assert(t.skip(t0.len() + 1int) =~= rt);
        let parts = split_on(t, ',');
        assert(parts =~= seq![t0] + split_on(rt, ','));
        assert(parts.drop_first() =~= split_on(rt, ','));
        assert(seq![vs[0]] + rest =~= vs);
        assert forall|i: int| 0 <= i < t.len() implies #[trigger] t[i] != ' ' by {
            if i < t0.len() {
                assert(t[i] == t0[i]);
            } else if i > t0.len() {
                assert(t[i] == rt[i - t0.len() - 1]);
            }
        }
    }
}

/// Banner law: the line a canonical banner renders to parses back to that
/// banner (`Banner::parse(&b.to_line())` gives `b`).
pub proof fn lemma_banner_roundtrip(b: SpecBanner)
    requires
        banner_is_canonical(b),
    ensures
        banner_of(banner_text(b)) == Some(b),
{
    lemma_versions_text(b.versions);
    let vt = versions_text(b.versions);
    let imp_part = match b.implementation {
        Some(i) => seq![' '] + i,
        None => seq![],
    };
    let line = banner_text(b);
    let after = b.hostname + imp_part;
    let body = vt + seq![' '] + after;
    assert(line =~= banner_prefix() + body);
    assert(line.take(8) =~= banner_prefix());
    assert(line.skip(8) =~= body);
    lemma_index_of_at(body, ' ', vt.len() as int);
    assert(body.take(vt.len() as int) =~= vt);
    assert(body.skip(vt.len() + 1int) =~= after);
    lemma_index_of_at(after, ' ', b.hostname.len() as int);
    assert(after.take(b.hostname.len() as int) =~= b.hostname);
    match b.implementation {
        Some(i) => {
            assert(after.skip(b.hostname.len() + 1int) =~= i);
        },
        None => {},
    }
}

} // verus!
