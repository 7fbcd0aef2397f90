//! Protocol-level built-in directives (RFC 2167 §3.3): `-quit`,
//! `-rwhois`, `-holdconnect`, `-limit`, `-forward`, `-display`, `-status`,
//! `-directive`, `-class`, `-schema`, `-soa`, `-xfer`, `-register`,
//! `-security` and `-notify`.
//!
//! Each directive's decisions are verified here. Where a directive hands
//! work to a consumer-supplied provider, its `prepare` checks that the
//! provider exists and shapes the provider's arguments, and its `finish`
//! writes what follows the provider's output.

use vstd::prelude::*;

use crate::digits::{parse_uint, parse_uint_range, push_decimal};
use crate::directive::{
    keys_sorted, listing_lines, sort_by_key, Capability, DirectiveInfo, DirectiveOutcome,
};
use crate::digits::decimal;
use crate::error::Error;
use crate::session::Session;
use crate::text::{
    chars_of, eq_ignore_case, is_white_space, is_whitespace, lower_range, lower_seq, prefixed,
    range_eq, range_eq_ignore_case, string_of_range, trim, trim_bounds, Blanks, chars_range, string_from_chars,
};
use crate::wire::banner::{banner_text, Banner};
use crate::wire::code::ResponseCode;
use crate::wire::response::{tag_text, tagged_text, wire_line, ResponseWriter, Tag};

verus! {

/// The first position at or after `i` that is not white space.
pub open spec fn space_end(s: Seq<char>, i: int) -> int
    decreases s.len() - i,
{
    if i < 0 || i >= s.len() || !is_white_space(s[i]) {
        i
    } else {
        space_end(s, i + 1)
    }
}

/// The first position at or after `i` that is white space.
pub open spec fn word_end(s: Seq<char>, i: int) -> int
    decreases s.len() - i,
{
    if i < 0 || i >= s.len() || is_white_space(s[i]) {
        i
    } else {
        word_end(s, i + 1)
    }
}

/// Bounds of [`space_end`].
pub proof fn lemma_space_end(s: Seq<char>, i: int)
    requires
        0 <= i <= s.len(),
    ensures
        i <= space_end(s, i) <= s.len(),
        space_end(s, i) < s.len() ==> !is_white_space(s[space_end(s, i)]),
    decreases s.len() - i,
{
    if i < s.len() && is_white_space(s[i]) {
        lemma_space_end(s, i + 1);
    }
}

/// Bounds of [`word_end`].
pub proof fn lemma_word_end(s: Seq<char>, i: int)
    requires
        0 <= i <= s.len(),
    ensures
        i <= word_end(s, i) <= s.len(),
        i < s.len() && !is_white_space(s[i]) ==> i < word_end(s, i),
    decreases s.len() - i,
{
    if i < s.len() && !is_white_space(s[i]) {
        lemma_word_end(s, i + 1);
    }
}

/// The white-space separated words of `s[i..]`.
pub open spec fn words_from(s: Seq<char>, i: int) -> Seq<Seq<char>>
    decreases s.len() - i,
{
    if i < 0 || i > s.len() {
        Seq::empty()
    } else {
        let a = space_end(s, i);
        proof {
            lemma_space_end(s, i);
            lemma_word_end(s, a);
        }
        if a >= s.len() {
            Seq::empty()
        } else {
            let b = word_end(s, a);
            seq![s.subrange(a, b)] + words_from(s, b)
        }
    }
}

/// The white-space separated words of `s` (`str::split_whitespace`).
pub open spec fn words(s: Seq<char>) -> Seq<Seq<char>> {
    words_from(s, 0)
}

/// The texts of a list of strings.
pub open spec fn texts(v: Seq<String>) -> Seq<Seq<char>> {
    v.map_values(|w: String| w@)
}

/// Split directive arguments into white-space separated words.
pub fn split_args(args: &str) -> (r: Vec<String>)
    ensures
        texts(r@) == words(args@),
{
    let v = chars_of(args);
    let ghost s = v@;
    let mut out: Vec<String> = Vec::new();
    let mut i: usize = 0;
    while i < v.len()
        invariant
            s == v@,
            s == args@,
            i <= s.len(),
            words(s) == texts(out@) + words_from(s, i as int),
        decreases s.len() - i,
    {
        let mut a = i;
        while a < v.len() && is_whitespace(v[a])
            invariant
                i <= a <= s.len(),
                s == v@,
                space_end(s, i as int) == space_end(s, a as int),
            decreases s.len() - a,
        {
            a = a + 1;
        }
        if a >= v.len() {
            proof {
                assert(words_from(s, i as int) =~= Seq::<Seq<char>>::empty());
                assert(words_from(s, v@.len() as int) =~= Seq::<Seq<char>>::empty());
                assert(words(s) =~= texts(out@) + words_from(s, v@.len() as int));
            }
            i = a;
        } else {
            let mut b = a;
            while b < v.len() && !is_whitespace(v[b])
                invariant
                    a <= b <= s.len(),
                    s == v@,
                    word_end(s, a as int) == word_end(s, b as int),
                decreases s.len() - b,
            {
                b = b + 1;
            }
            let w = string_of_range(v.as_slice(), a, b);
            let ghost before = out@;
            out.push(w);
            proof {
                lemma_space_end(s, i as int);
                lemma_word_end(s, a as int);
                assert(words_from(s, i as int) == seq![s.subrange(a as int, b as int)] + words_from(
                    s,
                    b as int,
                ));
                assert(texts(out@) =~= texts(before).push(w@));
                assert(texts(before) + words_from(s, i as int) =~= texts(out@) + words_from(
                    s,
                    b as int,
                ));
            }
            i = b;
        }
    }
    proof {
        assert(words_from(s, s.len() as int) =~= Seq::<Seq<char>>::empty());
        assert(texts(out@) + Seq::<Seq<char>>::empty() =~= texts(out@));
    }
    out
}

/// The auth area and classes of `-class` / `-schema` arguments: the first
/// word (empty if none) and the words after it.
pub open spec fn area_classes(args: Seq<char>) -> (Seq<char>, Seq<Seq<char>>) {
    let w = words(args);
    if w.len() == 0 {
        (Seq::empty(), Seq::empty())
    } else {
        (w[0], w.drop_first())
    }
}

/// Split `-class` / `-schema` arguments into the auth area and the
/// requested classes.
pub fn parse_area_classes(args: &str) -> (r: (String, Vec<String>))
    ensures
        (r.0@, texts(r.1@)) == area_classes(args@),
{
    let parts = split_args(args);
    let mut classes: Vec<String> = Vec::new();
    if parts.len() == 0 {
        let area = "".to_owned();
        proof {
            reveal_strlit("");
        }
        assert(texts(classes@) =~= Seq::<Seq<char>>::empty());
        return (area, classes);
    }
    let area = parts[0].clone();
    assert(texts(parts@)[0] == parts@[0]@);
    assert(texts(classes@) =~= texts(parts@).subrange(1, 1));
    let mut i: usize = 1;
    while i < parts.len()
        invariant
            1 <= i <= parts@.len(),
            texts(classes@) == texts(parts@).subrange(1, i as int),
        decreases parts@.len() - i,
    {
        let c = parts[i].clone();
        let ghost before = classes@;
        classes.push(c);
        assert(texts(classes@) =~= texts(before).push(c@));
        assert(texts(parts@)[i as int] == parts@[i as int]@);
        assert(texts(classes@) =~= texts(parts@).subrange(1, i + 1));
        i = i + 1;
    }
    assert(texts(parts@).subrange(1, parts@.len() as int) =~= texts(parts@).drop_first());
    (area, classes)
}

/// `"on"` for true, `"off"` for false.
pub fn on_off(b: bool) -> (s: &'static str)
    ensures
        s@ == on_off_text(b),
{
    proof {
        reveal_strlit("on");
        reveal_strlit("off");
    }
    if b {
        "on"
    } else {
        "off"
    }
}

/// The text of [`on_off`].
pub open spec fn on_off_text(b: bool) -> Seq<char> {
    if b {
        seq!['o', 'n']
    } else {
        seq!['o', 'f', 'f']
    }
}

/// The word an on/off directive reads: its arguments trimmed and in
/// ASCII lower case.
pub open spec fn switch_word(args: Seq<char>) -> Seq<char> {
    lower_seq(trim(Blanks::Unicode, args))
}

/// The setting an on/off word asks for: empty or `on` turns it on, `off`
/// turns it off, anything else is refused.
pub open spec fn switch_of(w: Seq<char>) -> Option<bool> {
    if w.len() == 0 || w == seq!['o', 'n'] {
        Some(true)
    } else if w == seq!['o', 'f', 'f'] {
        Some(false)
    } else {
        None
    }
}

/// Read an on/off argument: the setting, and the word it was read from.
fn parse_switch(args: &str) -> (r: (Option<bool>, Vec<char>))
    ensures
        r.1@ == switch_word(args@),
        r.0 == switch_of(r.1@),
{
    let v = chars_of(args);
    let (lo, hi) = trim_bounds(Blanks::Unicode, v.as_slice());
    let w = lower_range(v.as_slice(), lo, hi);
    let on: Vec<char> = vec!['o', 'n'];
    let off: Vec<char> = vec!['o', 'f', 'f'];
    assert(on@ =~= seq!['o', 'n']);
    assert(off@ =~= seq!['o', 'f', 'f']);
    assert(w@.subrange(0, w@.len() as int) =~= w@);
    if w.len() == 0 || range_eq(w.as_slice(), 0, w.len(), on.as_slice()) {
        (Some(true), w)
    } else if range_eq(w.as_slice(), 0, w.len(), off.as_slice()) {
        (Some(false), w)
    } else {
        (None, w)
    }
}

/// `-quit`: end the connection (RFC 2167 §3.3.6).
#[derive(Debug, Default)]
pub struct Quit;

impl Quit {
    /// Directive name.
    pub fn name(&self) -> (s: &'static str)
        ensures
            s@ == "quit"@,
    {
        "quit"
    }

    /// Listing description.
    pub fn description(&self) -> (s: &'static str)
        ensures
            s@ == "close the session"@,
    {
        "close the session"
    }

    /// Capability bit contributed to the banner: none.
    pub fn capability(&self) -> (c: Capability)
        ensures
            c.0 == 0,
    {
        Capability(0)
    }

    /// Quit after the `%ok`.
    pub fn run(&self) -> (o: DirectiveOutcome)
        ensures
            o == DirectiveOutcome::Quit,
    {
        DirectiveOutcome::Quit
    }
}

/// `CAP_HOLD`.
pub const CAP_HOLD: u32 = 0x0000_0001;

/// `CAP_LIMIT`.
pub const CAP_LIMIT: u32 = 0x0000_0002;

/// `CAP_FORWARD`.
pub const CAP_FORWARD: u32 = 0x0000_0004;

/// `CAP_DISPLAY`.
pub const CAP_DISPLAY: u32 = 0x0000_0008;

/// `CAP_INFO_OFF` (status info-on/info-off framing).
pub const CAP_STATUS: u32 = 0x0000_0010;

/// The error an on/off directive gives for a word it does not know.
pub open spec fn switch_refused(r: Result<DirectiveOutcome, Error>, prefix: Seq<char>, word: Seq<char>) -> bool {
    r matches Err(Error::Protocol { code, message }) && code == ResponseCode::invalid_directive_syntax()
        && message@ == prefix + word
}

/// `-holdconnect on|off` (RFC 2167 §3.3.5).
#[derive(Debug, Default)]
pub struct HoldConnect;

impl HoldConnect {
    /// Directive name.
    pub fn name(&self) -> (s: &'static str)
        ensures
            s@ == "holdconnect"@,
    {
        "holdconnect"
    }

    /// Listing description.
    pub fn description(&self) -> (s: &'static str)
        ensures
            s@ == "hold the connection open across queries"@,
    {
        "hold the connection open across queries"
    }

    /// Capability bit contributed to the banner.
    pub fn capability(&self) -> (c: Capability)
        ensures
            c.0 == CAP_HOLD,
    {
        Capability(CAP_HOLD)
    }

    /// Turn hold-connect on (no argument or `on`) or off (`off`), any case,
    /// surrounding white space ignored; any other argument is refused with
    /// `holdconnect: <word>`.
    pub fn run(&self, s: &mut Session, args: &str) -> (r: Result<DirectiveOutcome, Error>)
        ensures
            match switch_of(switch_word(args@)) {
                Some(b) => r == Ok::<DirectiveOutcome, Error>(DirectiveOutcome::Success)
                    && *final(s) == (Session { hold_connect: b, ..*old(s) }),
                None => *final(s) == *old(s) && switch_refused(r, "holdconnect: "@, switch_word(args@)),
            },
    {
        let (setting, word) = parse_switch(args);
        match setting {
            Some(b) => {
                s.hold_connect = b;
                Ok(DirectiveOutcome::Success)
            },
            None => Err(
                Error::protocol(
                    ResponseCode::invalid_directive_syntax(),
                    prefixed("holdconnect: ", word.as_slice()),
                ),
            ),
        }
    }
}

/// `-forward on|off` (RFC 2167 §3.3.4).
#[derive(Debug, Default)]
pub struct Forward;

impl Forward {
    /// Directive name.
    pub fn name(&self) -> (s: &'static str)
        ensures
            s@ == "forward"@,
    {
        "forward"
    }

    /// Listing description.
    pub fn description(&self) -> (s: &'static str)
        ensures
            s@ == "follow referrals on behalf of the client"@,
    {
        "follow referrals on behalf of the client"
    }

    /// Capability bit contributed to the banner.
    pub fn capability(&self) -> (c: Capability)
        ensures
            c.0 == CAP_FORWARD,
    {
        Capability(CAP_FORWARD)
    }

    /// Turn forwarding on (no argument or `on`) or off (`off`), any case,
    /// surrounding white space ignored; any other argument is refused with
    /// `forward: <word>`.
    pub fn run(&self, s: &mut Session, args: &str) -> (r: Result<DirectiveOutcome, Error>)
        ensures
            match switch_of(switch_word(args@)) {
                Some(b) => r == Ok::<DirectiveOutcome, Error>(DirectiveOutcome::Success)
                    && *final(s) == (Session { forward: b, ..*old(s) }),
                None => *final(s) == *old(s) && switch_refused(r, "forward: "@, switch_word(args@)),
            },
    {
        let (setting, word) = parse_switch(args);
        match setting {
            Some(b) => {
                s.forward = b;
                Ok(DirectiveOutcome::Success)
            },
            None => Err(
                Error::protocol(
                    ResponseCode::invalid_directive_syntax(),
                    prefixed("forward: ", word.as_slice()),
                ),
            ),
        }
    }
}

/// The hit limit `-limit` reads: its trimmed argument as a decimal
/// `usize` (an optional `+`, then digits).
pub open spec fn limit_of(args: Seq<char>) -> Option<nat> {
    parse_uint(trim(Blanks::Unicode, args), 10, usize::MAX as nat)
}

/// A text of decimal digits is left whole by a trim.
proof fn lemma_trim_digits(s: Seq<char>)
    requires
        s.len() >= 1,
        forall|i: int| 0 <= i < s.len() ==> '0' <= #[trigger] s[i] <= '9',
    ensures
        trim(Blanks::Unicode, s) == s,
{
    assert(!is_white_space(s[0]));
    assert(crate::text::trim_start(Blanks::Unicode, s) == s);
    assert(!is_white_space(s[s.len() - 1]));
    assert(s.last() == s[s.len() - 1]);
    assert(crate::text::trim_end(Blanks::Unicode, s) == s);
}

/// `-limit` takes every `usize`, zero included: the decimal text of `n`
/// sets the hit limit to `n`.
pub proof fn lemma_limit_reads_every_usize(n: usize)
    ensures
        limit_of(decimal(n as nat)) == Some(n as nat),
{
    crate::digits::lemma_decimal(n as nat);
    lemma_trim_digits(decimal(n as nat));
    crate::digits::lemma_parse_decimal(n as nat, usize::MAX as nat);
}

/// `-limit N`: cap the records returned per query (RFC 2167 §3.3.7).
#[derive(Debug, Default)]
pub struct Limit;

impl Limit {
    /// Directive name.
    pub fn name(&self) -> (s: &'static str)
        ensures
            s@ == "limit"@,
    {
        "limit"
    }

    /// Listing description.
    pub fn description(&self) -> (s: &'static str)
        ensures
            s@ == "cap the number of records returned per query"@,
    {
        "cap the number of records returned per query"
    }

    /// Capability bit contributed to the banner.
    pub fn capability(&self) -> (c: Capability)
        ensures
            c.0 == CAP_LIMIT,
    {
        Capability(CAP_LIMIT)
    }

    /// Set the hit limit to the number given; an argument that is not a
    /// `usize` is refused with `limit: <args>` (as given, untrimmed).
    pub fn run(&self, s: &mut Session, args: &str) -> (r: Result<DirectiveOutcome, Error>)
        ensures
            match limit_of(args@) {
                Some(n) => r == Ok::<DirectiveOutcome, Error>(DirectiveOutcome::Success)
                    && *final(s) == (Session { hit_limit: n as usize, ..*old(s) }),
                None => *final(s) == *old(s) && switch_refused(r, "limit: "@, args@),
            },
    {
        let v = chars_of(args);
        let (lo, hi) = trim_bounds(Blanks::Unicode, v.as_slice());
        match parse_uint_range(v.as_slice(), lo, hi, 10, usize::MAX as u64) {
            Some(n) => {
                s.hit_limit = n as usize;
                Ok(DirectiveOutcome::Success)
            },
            None => Err(
                Error::protocol(
                    ResponseCode::invalid_directive_syntax(),
                    prefixed("limit: ", v.as_slice()),
                ),
            ),
        }
    }
}

/// `name:<display>`.
pub open spec fn display_body(display: Seq<char>) -> Seq<char> {
    seq!['n', 'a', 'm', 'e', ':'] + display
}

/// What `-display` with no name writes: the current display, then the
/// end of the block.
pub open spec fn display_echo(display: Seq<char>) -> Seq<u8> {
    wire_line(tagged_text(Tag::Display, display_body(display))) + wire_line(tag_text(Tag::Display))
}

/// `-display NAME` (RFC 2167 §3.3.3).
#[derive(Debug, Default)]
pub struct Display;

impl Display {
    /// Directive name.
    pub fn name(&self) -> (s: &'static str)
        ensures
            s@ == "display"@,
    {
        "display"
    }

    /// Listing description.
    pub fn description(&self) -> (s: &'static str)
        ensures
            s@ == "select an output display format"@,
    {
        "select an output display format"
    }

    /// Capability bit contributed to the banner.
    pub fn capability(&self) -> (c: Capability)
        ensures
            c.0 == CAP_DISPLAY,
    {
        Capability(CAP_DISPLAY)
    }

    /// With no name, report the current display; with `dump` (any case),
    /// select it; any other name is refused with `display: <name>`.
    pub fn run(&self, s: &mut Session, args: &str, out: &mut ResponseWriter) -> (r: Result<
        DirectiveOutcome,
        Error,
    >)
        requires
            trim(Blanks::Unicode, args@).len() == 0 ==> old(out)@.len() + display_echo(
                old(s).display@,
            ).len() <= usize::MAX,
        ensures
            ({
                let name = trim(Blanks::Unicode, args@);
                if name.len() == 0 {
                    &&& r == Ok::<DirectiveOutcome, Error>(DirectiveOutcome::Success)
                    &&& *final(s) == *old(s)
                    &&& final(out)@ == old(out)@ + display_echo(old(s).display@)
                } else if eq_ignore_case(name, seq!['d', 'u', 'm', 'p']) {
                    &&& r == Ok::<DirectiveOutcome, Error>(DirectiveOutcome::Success)
                    &&& final(s).display@ == seq!['d', 'u', 'm', 'p']
                    &&& *final(s) == (Session { display: final(s).display, ..*old(s) })
                    &&& final(out)@ == old(out)@
                } else {
                    &&& *final(s) == *old(s)
                    &&& final(out)@ == old(out)@
                    &&& switch_refused(r, "display: "@, name)
                }
            }),
    {
        let v = chars_of(args);
        let (lo, hi) = trim_bounds(Blanks::Unicode, v.as_slice());
        if lo == hi {
            let cur = chars_of(s.display.as_str());
            let body = prefixed("name:", cur.as_slice());
            proof {
                reveal_strlit("name:");
                assert(body@ =~= display_body(old(s).display@));
            }
            out.tagged(Tag::Display, body.as_str());
            out.end_block(Tag::Display);
            proof {
                assert(final(out)@ =~= old(out)@ + display_echo(old(s).display@));
            }
            return Ok(DirectiveOutcome::Success);
        }
        let dump: Vec<char> = vec!['d', 'u', 'm', 'p'];
        assert(dump@ =~= seq!['d', 'u', 'm', 'p']);
        if range_eq_ignore_case(v.as_slice(), lo, hi, dump.as_slice()) {
            let d = "dump".to_owned();
            proof {
                reveal_strlit("dump");
            }
            s.display = d;
            Ok(DirectiveOutcome::Success)
        } else {
            let name = chars_range(v.as_slice(), lo, hi);
            Err(
                Error::protocol(
                    ResponseCode::invalid_directive_syntax(),
                    prefixed("display: ", name.as_slice()),
                ),
            )
        }
    }
}

/// The client's vendor id as `-status` reports it (empty if unknown).
pub open spec fn contact_text(v: Option<String>) -> Seq<char> {
    match v {
        Some(c) => c@,
        None => Seq::empty(),
    }
}

/// The bodies of the `%status` lines for a session.
pub open spec fn status_bodies(s: Session) -> Seq<Seq<char>> {
    seq![
        seq!['l', 'i', 'm', 'i', 't', ':'] + decimal(s.hit_limit as nat),
        seq!['h', 'o', 'l', 'd', ':'] + on_off_text(s.hold_connect),
        seq!['f', 'o', 'r', 'w', 'a', 'r', 'd', ':'] + on_off_text(s.forward),
        seq!['d', 'i', 's', 'p', 'l', 'a', 'y', ':'] + s.display@,
        seq!['c', 'o', 'n', 't', 'a', 'c', 't', ':'] + contact_text(s.client_vendor_id),
    ]
}

/// Tagged lines with the given bodies, in order.
pub open spec fn tagged_lines(tag: Tag, bodies: Seq<Seq<char>>) -> Seq<u8>
    decreases bodies.len(),
{
    if bodies.len() == 0 {
        Seq::empty()
    } else {
        tagged_lines(tag, bodies.drop_last()) + wire_line(tagged_text(tag, bodies.last()))
    }
}

/// What `-status` writes: the status lines, then the end of the block.
pub open spec fn status_block(s: Session) -> Seq<u8> {
    tagged_lines(Tag::Status, status_bodies(s)) + wire_line(tag_text(Tag::Status))
}

/// Append a tagged line whose body is `prefix` followed by `rest`.
fn put_tagged(out: &mut ResponseWriter, tag: Tag, prefix: &str, rest: &[char])
    requires
        old(out)@.len() + wire_line(tagged_text(tag, prefix@ + rest@)).len() <= usize::MAX,
    ensures
        final(out)@ == old(out)@ + wire_line(tagged_text(tag, prefix@ + rest@)),
{
    let body = prefixed(prefix, rest);
    out.tagged(tag, body.as_str());
}

/// `-status`: report the session's settings (RFC 2167 §3.3.13).
#[derive(Debug, Default)]
pub struct Status;

impl Status {
    /// Directive name.
    pub fn name(&self) -> (s: &'static str)
        ensures
            s@ == "status"@,
    {
        "status"
    }

    /// Listing description.
    pub fn description(&self) -> (s: &'static str)
        ensures
            s@ == "report current session settings"@,
    {
        "report current session settings"
    }

    /// Capability bit contributed to the banner.
    pub fn capability(&self) -> (c: Capability)
        ensures
            c.0 == CAP_STATUS,
    {
        Capability(CAP_STATUS)
    }

    /// Write `limit:`, `hold:`, `forward:`, `display:` and `contact:` status
    /// lines and end the block.
    pub fn run(&self, s: &Session, out: &mut ResponseWriter) -> (o: DirectiveOutcome)
        requires
            old(out)@.len() + status_block(*s).len() <= usize::MAX,
        ensures
            o == DirectiveOutcome::Success,
            final(out)@ == old(out)@ + status_block(*s),
    {
        let ghost start = out@;
        let ghost b = status_bodies(*s);
        proof {
            reveal_strlit("limit:");
            reveal_strlit("hold:");
            reveal_strlit("forward:");
            reveal_strlit("display:");
            reveal_strlit("contact:");
            assert(b.take(0) =~= Seq::<Seq<char>>::empty());
            assert(b.take(1).drop_last() =~= b.take(0));
            assert(b.take(2).drop_last() =~= b.take(1));
            assert(b.take(3).drop_last() =~= b.take(2));
            assert(b.take(4).drop_last() =~= b.take(3));
            assert(b.take(5).drop_last() =~= b.take(4));
            assert(b.take(5) =~= b);
            assert(b.take(1).last() == b[0]);
            assert(b.take(2).last() == b[1]);
            assert(b.take(3).last() == b[2]);
            assert(b.take(4).last() == b[3]);
            assert(b.take(5).last() == b[4]);
            let t = Tag::Status;
            assert(tagged_lines(t, b.take(0)) == Seq::<u8>::empty());
            assert(tagged_lines(t, b.take(1)) == tagged_lines(t, b.take(0)) + wire_line(tagged_text(t, b[0])));
            assert(tagged_lines(t, b.take(2)) == tagged_lines(t, b.take(1)) + wire_line(tagged_text(t, b[1])));
            assert(tagged_lines(t, b.take(3)) == tagged_lines(t, b.take(2)) + wire_line(tagged_text(t, b[2])));
            assert(tagged_lines(t, b.take(4)) == tagged_lines(t, b.take(3)) + wire_line(tagged_text(t, b[3])));
            assert(tagged_lines(t, b.take(5)) == tagged_lines(t, b.take(4)) + wire_line(tagged_text(t, b[4])));
        }
        let mut limit: Vec<char> = Vec::new();
        push_decimal(&mut limit, s.hit_limit as u64);
        assert(limit@ =~= decimal(s.hit_limit as nat));
        assert("limit:"@ =~= seq!['l', 'i', 'm', 'i', 't', ':']);
        assert("limit:"@ + limit@ =~= b[0]);
        put_tagged(out, Tag::Status, "limit:", limit.as_slice());
        assert(out@ =~= start + tagged_lines(Tag::Status, b.take(1)));
        let hold = chars_of(on_off(s.hold_connect));
        assert("hold:"@ =~= seq!['h', 'o', 'l', 'd', ':']);
        assert("hold:"@ + hold@ =~= b[1]);
        put_tagged(out, Tag::Status, "hold:", hold.as_slice());
        assert(out@ =~= start + tagged_lines(Tag::Status, b.take(2)));
        let fwd = chars_of(on_off(s.forward));
        assert("forward:"@ =~= seq!['f', 'o', 'r', 'w', 'a', 'r', 'd', ':']);
        assert("forward:"@ + fwd@ =~= b[2]);
        put_tagged(out, Tag::Status, "forward:", fwd.as_slice());
        assert(out@ =~= start + tagged_lines(Tag::Status, b.take(3)));
        let disp = chars_of(s.display.as_str());
        assert("display:"@ =~= seq!['d', 'i', 's', 'p', 'l', 'a', 'y', ':']);
        assert("display:"@ + disp@ =~= b[3]);
        put_tagged(out, Tag::Status, "display:", disp.as_slice());
        assert(out@ =~= start + tagged_lines(Tag::Status, b.take(4)));
        let contact: Vec<char> = match &s.client_vendor_id {
            Some(c) => chars_of(c.as_str()),
            None => Vec::new(),
        };
        assert(contact@ =~= contact_text(s.client_vendor_id));
        assert("contact:"@ =~= seq!['c', 'o', 'n', 't', 'a', 'c', 't', ':']);
        assert("contact:"@ + contact@ =~= b[4]);
        put_tagged(out, Tag::Status, "contact:", contact.as_slice());
        assert(out@ =~= start + tagged_lines(Tag::Status, b.take(5)));
        out.end_block(Tag::Status);
        assert(out@ =~= start + status_block(*s));
        DirectiveOutcome::Success
    }
}

/// The vendor id `-rwhois` records: its trimmed argument, unless empty.
pub open spec fn vendor_of(args: Seq<char>, before: Option<String>) -> Option<Seq<char>> {
    let v = trim(Blanks::Unicode, args);
    if v.len() > 0 {
        Some(v)
    } else {
        match before {
            Some(c) => Some(c@),
            None => None,
        }
    }
}

/// `-rwhois <vendor-id>`: record the client's identifier and send the
/// banner again (RFC 2167 §3.3.8).
#[derive(Debug, Default)]
pub struct Rwhois;

impl Rwhois {
    /// Directive name.
    pub fn name(&self) -> (s: &'static str)
        ensures
            s@ == "rwhois"@,
    {
        "rwhois"
    }

    /// Listing description.
    pub fn description(&self) -> (s: &'static str)
        ensures
            s@ == "negotiate version / record client identifier"@,
    {
        "negotiate version / record client identifier"
    }

    /// Capability bit contributed to the banner: none.
    pub fn capability(&self) -> (c: Capability)
        ensures
            c.0 == 0,
    {
        Capability(0)
    }

    /// Keep the trimmed argument, if any, as the client's vendor id, and
    /// write the server's banner line.
    pub fn run(&self, banner: &Banner, s: &mut Session, args: &str, out: &mut ResponseWriter) -> (o:
        DirectiveOutcome)
        requires
            old(out)@.len() + wire_line(banner_text(banner@)).len() <= usize::MAX,
        ensures
            o == DirectiveOutcome::Success,
            final(out)@ == old(out)@ + wire_line(banner_text(banner@)),
            match final(s).client_vendor_id {
                Some(c) => vendor_of(args@, old(s).client_vendor_id) == Some(c@),
                None => vendor_of(args@, old(s).client_vendor_id) is None,
            },
            *final(s) == (Session { client_vendor_id: final(s).client_vendor_id, ..*old(s) }),
    {
        let v = chars_of(args);
        let (lo, hi) = trim_bounds(Blanks::Unicode, v.as_slice());
        if lo < hi {
            s.client_vendor_id = Some(string_of_range(v.as_slice(), lo, hi));
        }
        let line = banner.to_line();
        out.raw_line(line.as_str());
        DirectiveOutcome::Success
    }
}

/// What `-directive` writes for the given entries: each entry in some
/// ascending order of keys, then the end of the block.
pub open spec fn listing_written(entries: Seq<DirectiveInfo>, written: Seq<u8>) -> bool {
    exists|order: Seq<DirectiveInfo>|
        #![trigger listing_lines(order)]
        order.to_multiset() == entries.to_multiset() && keys_sorted(order) && written
            == listing_lines(order) + wire_line(tag_text(Tag::Directive))
}

/// A prefix of a listing is no longer than the listing.
proof fn lemma_listing_prefix_len(s: Seq<DirectiveInfo>, i: int)
    requires
        0 <= i <= s.len(),
    ensures
        listing_lines(s.take(i)).len() <= listing_lines(s).len(),
    decreases s.len(),
{
    if i < s.len() {
        assert(s.take(i) =~= s.drop_last().take(i));
        lemma_listing_prefix_len(s.drop_last(), i);
    } else {
        assert(s.take(i) =~= s);
    }
}

/// `-directive`: list the registered directives (RFC 2167 §3.3.2).
#[derive(Debug, Default)]
pub struct DirectiveList;

impl DirectiveList {
    /// Directive name.
    pub fn name(&self) -> (s: &'static str)
        ensures
            s@ == "directive"@,
    {
        "directive"
    }

    /// Listing description.
    pub fn description(&self) -> (s: &'static str)
        ensures
            s@ == "list directives supported by this server"@,
    {
        "list directives supported by this server"
    }

    /// Capability bit contributed to the banner: none.
    pub fn capability(&self) -> (c: Capability)
        ensures
            c.0 == 0,
    {
        Capability(0)
    }

    /// For each registered directive in ascending order of its key, write
    /// `Directive:<name>` and, unless its description is empty,
    /// `Description:<description>`; then end the block.
    pub fn run(&self, entries: Vec<DirectiveInfo>, out: &mut ResponseWriter) -> (o: DirectiveOutcome)
        requires
            old(out)@.len() + listing_lines(entries@).len() + wire_line(tag_text(Tag::Directive)).len()
                <= usize::MAX,
        ensures
            o == DirectiveOutcome::Success,
            exists|w: Seq<u8>| final(out)@ == old(out)@ + w && listing_written(entries@, w),
    {
        let ghost start = out@;
        let ghost all = entries@;
        let sorted = sort_by_key(entries);
        proof {
            reveal_strlit("Directive:");
            reveal_strlit("Description:");
            assert(sorted@.take(0) =~= Seq::<DirectiveInfo>::empty());
        }
        let mut i: usize = 0;
        while i < sorted.len()
            invariant
                i <= sorted@.len(),
                out@ == start + listing_lines(sorted@.take(i as int)),
                start.len() + listing_lines(sorted@).len() + wire_line(tag_text(Tag::Directive)).len()
                    <= usize::MAX,
            decreases sorted@.len() - i,
        {
            let e = &sorted[i];
            proof {
                assert(sorted@.take(i + 1).drop_last() =~= sorted@.take(i as int));
                assert(sorted@.take(i + 1).last() == sorted@[i as int]);
                lemma_listing_prefix_len(sorted@, i + 1);
            }
            let name = chars_of(e.name);
            proof {
                reveal_strlit("Directive:");
                reveal_strlit("Description:");
            }
            assert("Directive:"@ + name@ =~= seq!['D', 'i', 'r', 'e', 'c', 't', 'i', 'v', 'e', ':'] + e.name@);
            put_tagged(out, Tag::Directive, "Directive:", name.as_slice());
            let desc = chars_of(e.description);
            if desc.len() > 0 {
                assert("Description:"@ + desc@ =~= seq!['D', 'e', 's', 'c', 'r', 'i', 'p', 't', 'i', 'o', 'n', ':'] + e.description@);
                put_tagged(out, Tag::Directive, "Description:", desc.as_slice());
            }
            i = i + 1;
            assert(out@ =~= start + listing_lines(sorted@.take(i as int)));
        }
        assert(sorted@.take(sorted@.len() as int) =~= sorted@);
        out.end_block(Tag::Directive);
        proof {
            let w = listing_lines(sorted@) + wire_line(tag_text(Tag::Directive));
            assert(out@ =~= start + w);
            assert(listing_written(all, w));
        }
        DirectiveOutcome::Success
    }
}

/// The refusal of a provider-backed directive whose provider is missing:
/// `400 Directive Not Available`, with the directive's name.
pub open spec fn unavailable<T>(r: Result<T, Error>, name: Seq<char>) -> bool {
    r matches Err(Error::Protocol { code, message }) && code == ResponseCode::directive_not_available()
        && message@ == name
}

/// Refuse a directive whose provider is missing.
fn not_available(name: &str) -> (e: Error)
    ensures
        e matches Error::Protocol { code, message } && code == ResponseCode::directive_not_available()
            && message@ == name@,
{
    Error::protocol(ResponseCode::directive_not_available(), name.to_owned())
}

/// `-class <auth-area> [class …]` (RFC 2167 §3.3.1), answered by the class
/// provider.
#[derive(Debug, Default)]
pub struct Class;

impl Class {
    /// Directive name.
    pub fn name(&self) -> (s: &'static str)
        ensures
            s@ == "class"@,
    {
        "class"
    }

    /// Listing description.
    pub fn description(&self) -> (s: &'static str)
        ensures
            s@ == "list class metadata for an authority area"@,
    {
        "list class metadata for an authority area"
    }

    /// Capability bit contributed to the banner: none.
    pub fn capability(&self) -> (c: Capability)
        ensures
            c.0 == 0,
    {
        Capability(0)
    }

    /// With a class provider, the auth area and classes to hand it;
    /// without one, `400 Directive Not Available`.
    pub fn prepare(&self, available: bool, args: &str) -> (r: Result<(String, Vec<String>), Error>)
        ensures
            !available ==> unavailable(r, "class"@),
            available ==> (r matches Ok((a, cs)) && (a@, texts(cs@)) == area_classes(args@)),
    {
        if !available {
            return Err(not_available("class"));
        }
        Ok(parse_area_classes(args))
    }

    /// After the provider's lines: end the block.
    pub fn finish(&self, out: &mut ResponseWriter) -> (o: DirectiveOutcome)
        requires
            old(out)@.len() + wire_line(tag_text(Tag::Class)).len() <= usize::MAX,
        ensures
            o == DirectiveOutcome::Success,
            final(out)@ == old(out)@ + wire_line(tag_text(Tag::Class)),
    {
        out.end_block(Tag::Class);
        DirectiveOutcome::Success
    }
}

/// `-schema <auth-area> [class …]` (RFC 2167 §3.3.10), answered by the
/// schema provider.
#[derive(Debug, Default)]
pub struct Schema;

impl Schema {
    /// Directive name.
    pub fn name(&self) -> (s: &'static str)
        ensures
            s@ == "schema"@,
    {
        "schema"
    }

    /// Listing description.
    pub fn description(&self) -> (s: &'static str)
        ensures
            s@ == "fetch attribute schema for a class"@,
    {
        "fetch attribute schema for a class"
    }

    /// Capability bit contributed to the banner: none.
    pub fn capability(&self) -> (c: Capability)
        ensures
            c.0 == 0,
    {
        Capability(0)
    }

    /// With a schema provider, the auth area and classes to hand it;
    /// without one, `400 Directive Not Available`.
    pub fn prepare(&self, available: bool, args: &str) -> (r: Result<(String, Vec<String>), Error>)
        ensures
            !available ==> unavailable(r, "schema"@),
            available ==> (r matches Ok((a, cs)) && (a@, texts(cs@)) == area_classes(args@)),
    {
        if !available {
            return Err(not_available("schema"));
        }
        Ok(parse_area_classes(args))
    }

    /// After the provider's lines: end the block.
    pub fn finish(&self, out: &mut ResponseWriter) -> (o: DirectiveOutcome)
        requires
            old(out)@.len() + wire_line(tag_text(Tag::Schema)).len() <= usize::MAX,
        ensures
            o == DirectiveOutcome::Success,
            final(out)@ == old(out)@ + wire_line(tag_text(Tag::Schema)),
    {
        out.end_block(Tag::Schema);
        DirectiveOutcome::Success
    }
}

/// `-soa [auth-area …]` (RFC 2167 §3.3.12), answered by the SOA provider.
#[derive(Debug, Default)]
pub struct Soa;

impl Soa {
    /// Directive name.
    pub fn name(&self) -> (s: &'static str)
        ensures
            s@ == "soa"@,
    {
        "soa"
    }

    /// Listing description.
    pub fn description(&self) -> (s: &'static str)
        ensures
            s@ == "fetch start-of-authority records"@,
    {
        "fetch start-of-authority records"
    }

    /// Capability bit contributed to the banner: none.
    pub fn capability(&self) -> (c: Capability)
        ensures
            c.0 == 0,
    {
        Capability(0)
    }

    /// With an SOA provider, the auth areas to hand it (the argument
    /// words); without one, `400 Directive Not Available`.
    pub fn prepare(&self, available: bool, args: &str) -> (r: Result<Vec<String>, Error>)
        ensures
            !available ==> unavailable(r, "soa"@),
            available ==> (r matches Ok(areas) && texts(areas@) == words(args@)),
    {
        if !available {
            return Err(not_available("soa"));
        }
        Ok(split_args(args))
    }

    /// After the provider's lines: end the block.
    pub fn finish(&self, out: &mut ResponseWriter) -> (o: DirectiveOutcome)
        requires
            old(out)@.len() + wire_line(tag_text(Tag::Soa)).len() <= usize::MAX,
        ensures
            o == DirectiveOutcome::Success,
            final(out)@ == old(out)@ + wire_line(tag_text(Tag::Soa)),
    {
        out.end_block(Tag::Soa);
        DirectiveOutcome::Success
    }
}

/// `-xfer …` (RFC 2167 §3.3.14), answered by the transfer provider.
#[derive(Debug, Default)]
pub struct Xfer;

impl Xfer {
    /// Directive name.
    pub fn name(&self) -> (s: &'static str)
        ensures
            s@ == "xfer"@,
    {
        "xfer"
    }

    /// Listing description.
    pub fn description(&self) -> (s: &'static str)
        ensures
            s@ == "bulk transfer of records"@,
    {
        "bulk transfer of records"
    }

    /// Capability bit contributed to the banner: none.
    pub fn capability(&self) -> (c: Capability)
        ensures
            c.0 == 0,
    {
        Capability(0)
    }

    /// Without a transfer provider, `400 Directive Not Available`; with
    /// one, the arguments go to it as given.
    pub fn prepare(&self, available: bool) -> (r: Result<(), Error>)
        ensures
            !available ==> unavailable(r, "xfer"@),
            available ==> r is Ok,
    {
        if !available {
            return Err(not_available("xfer"));
        }
        Ok(())
    }

    /// After the provider's lines: end the block.
    pub fn finish(&self, out: &mut ResponseWriter) -> (o: DirectiveOutcome)
        requires
            old(out)@.len() + wire_line(tag_text(Tag::Xfer)).len() <= usize::MAX,
        ensures
            o == DirectiveOutcome::Success,
            final(out)@ == old(out)@ + wire_line(tag_text(Tag::Xfer)),
    {
        out.end_block(Tag::Xfer);
        DirectiveOutcome::Success
    }
}

/// `-security …` (RFC 2167 §3.3.11), answered by the authentication
/// handler.
#[derive(Debug, Default)]
pub struct Security;

impl Security {
    /// Directive name.
    pub fn name(&self) -> (s: &'static str)
        ensures
            s@ == "security"@,
    {
        "security"
    }

    /// Listing description.
    pub fn description(&self) -> (s: &'static str)
        ensures
            s@ == "negotiate authentication / security"@,
    {
        "negotiate authentication / security"
    }

    /// Capability bit contributed to the banner: none.
    pub fn capability(&self) -> (c: Capability)
        ensures
            c.0 == 0,
    {
        Capability(0)
    }

    /// Without an authentication handler, `400 Directive Not Available`;
    /// with one, the arguments go to it as given.
    pub fn prepare(&self, available: bool) -> (r: Result<(), Error>)
        ensures
            !available ==> unavailable(r, "security"@),
            available ==> r is Ok,
    {
        if !available {
            return Err(not_available("security"));
        }
        Ok(())
    }
}

/// `-notify`: record-update notification (RFC 2167 §3.3.15); accepted and
/// otherwise ignored.
#[derive(Debug, Default)]
pub struct Notify;

impl Notify {
    /// Directive name.
    pub fn name(&self) -> (s: &'static str)
        ensures
            s@ == "notify"@,
    {
        "notify"
    }

    /// Listing description.
    pub fn description(&self) -> (s: &'static str)
        ensures
            s@ == "post a record-update notification (default no-op)"@,
    {
        "post a record-update notification (default no-op)"
    }

    /// Capability bit contributed to the banner: none.
    pub fn capability(&self) -> (c: Capability)
        ensures
            c.0 == 0,
    {
        Capability(0)
    }

    /// Accept and do nothing.
    pub fn run(&self) -> (o: DirectiveOutcome)
        ensures
            o == DirectiveOutcome::Success,
    {
        DirectiveOutcome::Success
    }
}

/// The words joined with single spaces.
pub open spec fn join_words(ws: Seq<Seq<char>>) -> Seq<char>
    decreases ws.len(),
{
    if ws.len() == 0 {
        Seq::empty()
    } else if ws.len() == 1 {
        ws[0]
    } else {
        join_words(ws.drop_last()) + seq![' '] + ws.last()
    }
}

/// Word `i` of `w`, or the empty text.
pub open spec fn word_or_empty(w: Seq<Seq<char>>, i: int) -> Seq<char> {
    if 0 <= i < w.len() {
        w[i]
    } else {
        Seq::empty()
    }
}

/// What `-register` goes on to do once accepted.
#[derive(Debug)]
pub enum RegisterStep {
    /// `-register on <action> <email> [more]`: begin a registration and
    /// spool the lines that follow.
    Begin {
        /// Registration action (`add`, `mod`, `del`).
        action: String,
        /// Contact email.
        email: String,
        /// The remaining words, joined by single spaces.
        extra: String,
    },
    /// `-register off`: finish the registration.
    Finish,
}

/// A registration step as values.
pub enum SpecRegisterStep {
    Begin { action: Seq<char>, email: Seq<char>, extra: Seq<char> },
    Finish,
}

/// What `-register` decides for its arguments, given whether a
/// registration handler exists: the step, or the error code and detail.
pub open spec fn register_plan(available: bool, args: Seq<char>) -> Result<
    SpecRegisterStep,
    (ResponseCode, Seq<char>),
> {
    let w = words(args);
    if !available {
        Err((ResponseCode::registration_not_authorized(), "register"@))
    } else if w.len() > 0 && lower_seq(w[0]) == seq!['o', 'n'] {
        let action = word_or_empty(w, 1);
        let email = word_or_empty(w, 2);
        if action.len() == 0 || email.len() == 0 {
            Err((ResponseCode::invalid_directive_syntax(), "register on requires <action> <email>"@))
        } else {
            Ok(
                SpecRegisterStep::Begin {
                    action,
                    email,
                    extra: if w.len() > 3 {
                        join_words(w.skip(3))
                    } else {
                        Seq::empty()
                    },
                },
            )
        }
    } else if w.len() > 0 && lower_seq(w[0]) == seq!['o', 'f', 'f'] {
        Ok(SpecRegisterStep::Finish)
    } else {
        Err((ResponseCode::invalid_directive_syntax(), "register on|off"@))
    }
}

/// An executable registration decision matches a spec one.
pub open spec fn register_matches(
    r: Result<RegisterStep, Error>,
    s: Result<SpecRegisterStep, (ResponseCode, Seq<char>)>,
) -> bool {
    match (r, s) {
        (
            Ok(RegisterStep::Begin { action, email, extra }),
            Ok(SpecRegisterStep::Begin { action: a, email: e, extra: x }),
        ) => action@ == a && email@ == e && extra@ == x,
        (Ok(RegisterStep::Finish), Ok(SpecRegisterStep::Finish)) => true,
        (Err(Error::Protocol { code, message }), Err((c, m))) => code == c && message@ == m,
        _ => false,
    }
}

/// `ws[3..]` joined by single spaces.
fn join_from_third(ws: &Vec<String>) -> (s: String)
    requires
        ws@.len() > 3,
    ensures
        s@ == join_words(texts(ws@).skip(3)),
{
    let ghost t = texts(ws@);
    let mut acc = chars_of(ws[3].as_str());
    let mut i: usize = 4;
    proof {
        assert(t.subrange(3, 4) =~= seq![t[3]]);
    }
    while i < ws.len()
        invariant
            4 <= i <= ws@.len(),
            t == texts(ws@),
            acc@ == join_words(t.subrange(3, i as int)),
        decreases ws@.len() - i,
    {
        let w = chars_of(ws[i].as_str());
        acc.push(' ');
        let mut k: usize = 0;
        let ghost base = acc@;
        while k < w.len()
            invariant
                k <= w@.len(),
                acc@ == base + w@.take(k as int),
            decreases w@.len() - k,
        {
            acc.push(w[k]);
            k = k + 1;
            assert(acc@ =~= base + w@.take(k as int));
        }
        proof {
            assert(w@.take(w@.len() as int) =~= w@);
            assert(t.subrange(3, i + 1).drop_last() =~= t.subrange(3, i as int));
            assert(t.subrange(3, i + 1).last() == t[i as int]);
        }
        i = i + 1;
    }
    assert(t.subrange(3, ws@.len() as int) =~= t.skip(3));
    string_from_chars(acc.as_slice())
}

/// Every word is non-empty.
pub proof fn lemma_words_nonempty(s: Seq<char>, i: int)
    ensures
        forall|k: int| 0 <= k < words_from(s, i).len() ==> (#[trigger] words_from(s, i)[k]).len() > 0,
    decreases s.len() - i,
{
    if 0 <= i <= s.len() {
        let a = space_end(s, i);
        lemma_space_end(s, i);
        lemma_word_end(s, a);
        if a < s.len() {
            let b = word_end(s, a);
            lemma_words_nonempty(s, b);
            let w = words_from(s, i);
            assert forall|k: int| 0 <= k < w.len() implies (#[trigger] w[k]).len() > 0 by {
                if k > 0 {
                    assert(w[k] == words_from(s, b)[k - 1]);
                }
            }
        }
    }
}

/// A word equal to `target` ignoring ASCII case lowers to `target` when
/// `target` is lower case.
proof fn lemma_lower_matches(a: Seq<char>, target: Seq<char>)
    requires
        eq_ignore_case(a, target),
        lower_seq(target) == target,
    ensures
        lower_seq(a) == target,
{
    assert forall|i: int| 0 <= i < a.len() implies lower_seq(a)[i] == target[i] by {
        assert(crate::text::ascii_lower(target[i]) == lower_seq(target)[i]);
    }
    assert(lower_seq(a) =~= target);
}

/// `-register` reads its `on` / `off` word in any ASCII case: with a
/// registration handler, a first word equal to `off` ignoring case
/// finishes the registration, and a first word equal to `on` ignoring case,
/// followed by an action and an email, begins one with that action and
/// email.
pub proof fn lemma_register_mode_any_case(args: Seq<char>)
    ensures
        words(args).len() > 0 && eq_ignore_case(words(args)[0], seq!['o', 'f', 'f'])
            ==> register_plan(true, args) == Ok::<SpecRegisterStep, (ResponseCode, Seq<char>)>(
            SpecRegisterStep::Finish,
        ),
        words(args).len() >= 3 && eq_ignore_case(words(args)[0], seq!['o', 'n']) ==> (register_plan(
            true,
            args,
        ) matches Ok(SpecRegisterStep::Begin { action, email, .. }) && action == words(args)[1]
            && email == words(args)[2]),
{
    let w = words(args);
    lemma_words_nonempty(args, 0);
    let on = seq!['o', 'n'];
    let off = seq!['o', 'f', 'f'];
    assert(lower_seq(on) =~= on);
    assert(lower_seq(off) =~= off);
    if w.len() > 0 && eq_ignore_case(w[0], off) {
        lemma_lower_matches(w[0], off);
        assert(lower_seq(w[0]) != on);
    }
    if w.len() >= 3 && eq_ignore_case(w[0], on) {
        lemma_lower_matches(w[0], on);
        assert(w[1].len() > 0);
        assert(w[2].len() > 0);
    }
}

/// `-register on|off [args]` (RFC 2167 §3.3.9): `-register on <action>
/// <email> [more]` switches the session to spooling registration lines
/// until `-register off`.
#[derive(Debug, Default)]
pub struct Register;

impl Register {
    /// Directive name.
    pub fn name(&self) -> (s: &'static str)
        ensures
            s@ == "register"@,
    {
        "register"
    }

    /// Listing description.
    pub fn description(&self) -> (s: &'static str)
        ensures
            s@ == "submit object registration / modification"@,
    {
        "submit object registration / modification"
    }

    /// Capability bit contributed to the banner: none.
    pub fn capability(&self) -> (c: Capability)
        ensures
            c.0 == 0,
    {
        Capability(0)
    }

    /// Decide what `-register` does: without a registration handler,
    /// `Registration Not Authorized`; `on` (any case) with an action and an
    /// email begins a registration; `off` finishes it; anything else is
    /// refused with `Invalid Directive Syntax`.
    pub fn plan(&self, available: bool, args: &str) -> (r: Result<RegisterStep, Error>)
        ensures
            register_matches(r, register_plan(available, args@)),
    {
        let parts = split_args(args);
        let ghost w = words(args@);
        proof {
            reveal_strlit("register");
            reveal_strlit("register on requires <action> <email>");
            reveal_strlit("register on|off");
        }
        if !available {
            return Err(
                Error::protocol(ResponseCode::registration_not_authorized(), "register".to_owned()),
            );
        }
        let on: Vec<char> = vec!['o', 'n'];
        let off: Vec<char> = vec!['o', 'f', 'f'];
        assert(on@ =~= seq!['o', 'n']);
        assert(off@ =~= seq!['o', 'f', 'f']);
        let (is_on, is_off) = if parts.len() > 0 {
            let m = chars_of(parts[0].as_str());
            let lm = lower_range(m.as_slice(), 0, m.len());
            assert(m@.subrange(0, m@.len() as int) =~= m@);
            assert(lm@.subrange(0, lm@.len() as int) =~= lm@);
            assert(texts(parts@)[0] == parts@[0]@);
            (
                range_eq(lm.as_slice(), 0, lm.len(), on.as_slice()),
                range_eq(lm.as_slice(), 0, lm.len(), off.as_slice()),
            )
        } else {
            (false, false)
        };
        assert(texts(parts@) == w);
        assert(is_on == (w.len() > 0 && lower_seq(w[0]) == seq!['o', 'n']));
        assert(is_off == (w.len() > 0 && lower_seq(w[0]) == seq!['o', 'f', 'f']));
        if is_on {
            let action = if parts.len() > 1 {
                parts[1].clone()
            } else {
                "".to_owned()
            };
            let email = if parts.len() > 2 {
                parts[2].clone()
            } else {
                "".to_owned()
            };
            proof {
                reveal_strlit("");
                if parts@.len() > 1 {
                    assert(texts(parts@)[1] == parts@[1]@);
                }
                if parts@.len() > 2 {
                    assert(texts(parts@)[2] == parts@[2]@);
                }
            }
            let extra = if parts.len() > 3 {
                join_from_third(&parts)
            } else {
                "".to_owned()
            };
            if action.as_str().is_empty() || email.as_str().is_empty() {
                return Err(
                    Error::protocol(
                        ResponseCode::invalid_directive_syntax(),
                        "register on requires <action> <email>".to_owned(),
                    ),
                );
            }
            assert(action@ == word_or_empty(w, 1));
            assert(email@ == word_or_empty(w, 2));
            assert(extra@ == (if w.len() > 3 { join_words(w.skip(3)) } else { Seq::<char>::empty() }));
            let r = Ok(RegisterStep::Begin { action, email, extra });
            assert(register_matches(r, register_plan(available, args@)));
            r
        } else if is_off {
            let r = Ok(RegisterStep::Finish);
            assert(register_matches(r, register_plan(available, args@)));
            r
        } else {
            Err(
                Error::protocol(
                    ResponseCode::invalid_directive_syntax(),
                    "register on|off".to_owned(),
                ),
            )
        }
    }
}

} // verus!
