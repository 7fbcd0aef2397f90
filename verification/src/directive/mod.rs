//! Directive outcomes, capability bits, directive keys and the ordered
//! listing of registered directives.
//!
//! See [`builtin`] for the protocol-level built-ins.

pub mod builtin;

use vstd::prelude::*;
use vstd::multiset::Multiset;

use crate::text::{chars_of, lemma_lex_total, lemma_lex_trans, lex_le, lex_le_chars, lower_seq, to_ascii_lower, string_from_chars};
use crate::wire::response::{tagged_text, wire_line, Tag};

verus! {

broadcast use vstd::multiset::group_multiset_axioms, vstd::seq_lib::group_to_multiset_ensures;

/// Outcome of running a directive.
#[derive(Debug, Clone, Copy, PartialEq, Eq)]
#[non_exhaustive]
pub enum DirectiveOutcome {
    /// Success: the session writes `%ok` after flushing.
    Success,
    /// Success, and the session ends after flushing (used by `-quit`).
    Quit,
    /// The directive wrote its own terminator; the session appends neither
    /// `%ok` nor `%error`.
    Handled,
}

/// Capability bit advertised in the banner.
#[derive(Debug, Clone, Copy, PartialEq, Eq)]
pub struct Capability(pub u32);

/// The bitwise OR of the capability bits of `caps`.
pub open spec fn mask_of(caps: Seq<Capability>) -> u32
    decreases caps.len(),
{
    if caps.len() == 0 {
        0
    } else {
        mask_of(caps.drop_last()) | caps.last().0
    }
}

/// OR'd capability bitmask of the given directives' capabilities: the
/// banner's capability field.
pub fn capability_mask(caps: &[Capability]) -> (m: u32)
    ensures
        m == mask_of(caps@),
{
    let mut m: u32 = 0;
    let mut i: usize = 0;
    while i < caps.len()
        invariant
            i <= caps@.len(),
            m == mask_of(caps@.take(i as int)),
        decreases caps@.len() - i,
    {
        assert(caps@.take(i + 1).drop_last() =~= caps@.take(i as int));
        m = m | caps[i].0;
        i = i + 1;
    }
    assert(caps@.take(caps@.len() as int) =~= caps@);
    m
}

/// Every directive's capability bits are set in the mask, and the mask
/// sets no bit that none of them sets.
pub proof fn lemma_mask_covers(caps: Seq<Capability>, bit: u32)
    ensures
        forall|i: int| 0 <= i < caps.len() ==> mask_of(caps) & #[trigger] caps[i].0 == caps[i].0,
        (forall|i: int| 0 <= i < caps.len() ==> #[trigger] caps[i].0 & bit == 0) ==> mask_of(caps)
            & bit == 0,
    decreases caps.len(),
{
    if caps.len() > 0 {
        let rest = caps.drop_last();
        lemma_mask_covers(rest, bit);
        let m = mask_of(rest);
        let x = caps.last().0;
        assert forall|i: int| 0 <= i < caps.len() implies mask_of(caps) & #[trigger] caps[i].0
            == caps[i].0 by {
            let y = caps[i].0;
            if i == caps.len() - 1 {
                assert((m | y) & y == y) by (bit_vector);
            } else {
                assert(rest[i] == caps[i]);
                assert(m & y == y);
                assert(m & y == y ==> (m | x) & y == y) by (bit_vector);
            }
        }
        if forall|i: int| 0 <= i < caps.len() ==> #[trigger] caps[i].0 & bit == 0 {
            assert forall|i: int| 0 <= i < rest.len() implies #[trigger] rest[i].0 & bit == 0 by {
                assert(rest[i] == caps[i]);
            }
            assert(caps[caps.len() - 1].0 & bit == 0);
            assert(m & bit == 0 && x & bit == 0 ==> (m | x) & bit == 0) by (bit_vector);
        }
    } else {
        assert(0u32 & bit == 0) by (bit_vector);
    }
}

/// The key a directive is registered under: its name in ASCII lower case.
pub fn directive_key(name: &str) -> (k: String)
    ensures
        k@ == lower_seq(name@),
{
    let v = chars_of(name);
    let mut w: Vec<char> = Vec::new();
    let mut i: usize = 0;
    while i < v.len()
        invariant
            i <= v@.len(),
            w@ == lower_seq(v@.take(i as int)),
        decreases v@.len() - i,
    {
        w.push(to_ascii_lower(v[i]));
        i = i + 1;
        assert(w@ =~= lower_seq(v@.take(i as int)));
    }
    assert(v@.take(v@.len() as int) =~= v@);
    string_from_chars(w.as_slice())
}

/// One registered directive as the `-directive` listing shows it: the
/// key it is registered under, its name and its description.
#[derive(Debug, Clone)]
pub struct DirectiveInfo {
    /// Registry key (the lowercased name).
    pub key: String,
    /// The directive's own name.
    pub name: &'static str,
    /// Human-readable description; empty for none.
    pub description: &'static str,
}

/// Entries in ascending order of their keys.
pub open spec fn keys_sorted(s: Seq<DirectiveInfo>) -> bool {
    forall|i: int, j: int| 0 <= i < j < s.len() ==> lex_le(#[trigger] s[i].key@, #[trigger] s[j].key@)
}

/// `Directive:<name>`.
pub open spec fn directive_line(name: Seq<char>) -> Seq<char> {
    tagged_text(Tag::Directive, seq!['D', 'i', 'r', 'e', 'c', 't', 'i', 'v', 'e', ':'] + name)
}

/// `Description:<text>`.
pub open spec fn description_line(desc: Seq<char>) -> Seq<char> {
    tagged_text(
        Tag::Directive,
        seq!['D', 'e', 's', 'c', 'r', 'i', 'p', 't', 'i', 'o', 'n', ':'] + desc,
    )
}

/// The lines of one entry: its name, and its description unless empty.
pub open spec fn entry_lines(e: DirectiveInfo) -> Seq<u8> {
    wire_line(directive_line(e.name@)) + if e.description@.len() > 0 {
        wire_line(description_line(e.description@))
    } else {
        Seq::empty()
    }
}

/// The lines of the entries, in order.
pub open spec fn listing_lines(s: Seq<DirectiveInfo>) -> Seq<u8>
    decreases s.len(),
{
    if s.len() == 0 {
        Seq::empty()
    } else {
        listing_lines(s.drop_last()) + entry_lines(s.last())
    }
}

/// Inserting an entry anywhere adds its lines' length to the listing's.
proof fn lemma_listing_insert_len(s: Seq<DirectiveInfo>, j: int, x: DirectiveInfo)
    requires
        0 <= j <= s.len(),
    ensures
        listing_lines(s.insert(j, x)).len() == listing_lines(s).len() + entry_lines(x).len(),
    decreases s.len(),
{
    let t = s.insert(j, x);
    if j == s.len() {
        assert(t.drop_last() =~= s);
    } else {
        assert(t.drop_last() =~= s.drop_last().insert(j, x));
        assert(t.last() == s.last());
        lemma_listing_insert_len(s.drop_last(), j, x);
    }
}

/// Sort entries by key (insertion sort). The result holds the same
/// entries, in ascending key order.
pub fn sort_by_key(entries: Vec<DirectiveInfo>) -> (r: Vec<DirectiveInfo>)
    ensures
        r@.to_multiset() == entries@.to_multiset(),
        keys_sorted(r@),
        listing_lines(r@).len() == listing_lines(entries@).len(),
{
    let ghost all = entries@;
    let mut rest = entries;
    let mut out: Vec<DirectiveInfo> = Vec::new();
    assert(out@.to_multiset() =~= Multiset::<DirectiveInfo>::empty());
    while rest.len() > 0
        invariant
            out@.to_multiset().add(rest@.to_multiset()) == all.to_multiset(),
            keys_sorted(out@),
            listing_lines(out@).len() + listing_lines(rest@).len() == listing_lines(all).len(),
        decreases rest@.len(),
    {
        let ghost before = rest@;
        let e = rest.pop().unwrap();
        proof {
            assert(rest@ =~= before.drop_last());
            assert(before =~= rest@.push(e));
        }
        let ek = chars_of(e.key.as_str());
        let mut j: usize = 0;
        while j < out.len() && lex_le_chars(chars_of(out[j].key.as_str()).as_slice(), ek.as_slice())
            invariant
                j <= out@.len(),
                ek@ == e.key@,
                forall|k: int| 0 <= k < j ==> lex_le(#[trigger] out@[k].key@, e.key@),
            decreases out@.len() - j,
        {
            j = j + 1;
        }
        proof {
            if j < out@.len() {
                lemma_lex_total(out@[j as int].key@, e.key@);
                assert forall|k: int| j <= k < out@.len() implies lex_le(e.key@, #[trigger] out@[k].key@) by {
                    if k > j {
                        lemma_lex_trans(e.key@, out@[j as int].key@, out@[k].key@);
                    }
                }
            }
            lemma_listing_insert_len(out@, j as int, e);
        }
        let ghost old_out = out@;
        out.insert(j, e);
        proof {
            assert(out@ == old_out.insert(j as int, e));
            assert forall|a: int, b: int| 0 <= a < b < out@.len() implies lex_le(
                #[trigger] out@[a].key@,
                #[trigger] out@[b].key@,
            ) by {
                if b < j {
                } else if b == j {
                    assert(out@[a] == old_out[a]);
                } else if a < j {
                    assert(out@[b] == old_out[b - 1]);
                    assert(lex_le(e.key@, old_out[b - 1].key@));
                    lemma_lex_trans(old_out[a].key@, e.key@, old_out[b - 1].key@);
                } else if a == j {
                    assert(out@[b] == old_out[b - 1]);
                } else {
                    assert(out@[a] == old_out[a - 1]);
                    assert(out@[b] == old_out[b - 1]);
                }
            }
            vstd::seq_lib::to_multiset_insert(old_out, j as int, e);
            vstd::seq_lib::to_multiset_build(rest@, e);
            assert(listing_lines(before).len() == listing_lines(rest@).len() + entry_lines(e).len());
        }
    }
    proof {
        assert(rest@.to_multiset() =~= Multiset::<DirectiveInfo>::empty());
        assert(out@.to_multiset().add(Multiset::<DirectiveInfo>::empty()) =~= out@.to_multiset());
    }
    out
}

} // verus!
