//! Server-wide values derived from the server's configuration.

use vstd::prelude::*;

use crate::wire::banner::{Banner, Capability, SpecBanner, Version};

verus! {

/// The implementation text advertised in the banner.
pub open spec fn implementation_text() -> Seq<char> {
    "(rwhois rust server)"@
}

/// The banner a server sends: version 1.5, with the capability mask of
/// its directives (low 24 bits) and no extra bits, its host name and the
/// implementation text.
pub open spec fn server_banner_of(mask: u32, hostname: Seq<char>) -> SpecBanner {
    SpecBanner {
        versions: seq![
            Version {
                major: 1,
                minor: 5,
                capability: Some(Capability { response_id: mask & 0x00ff_ffff, extra_id: 0 }),
            },
        ],
        hostname,
        implementation: Some(implementation_text()),
    }
}

/// The `%rwhois` greeting banner for a server whose registered directives
/// have the capability mask `mask`; sent to each new peer and again in
/// reply to `-rwhois`.
pub fn server_banner(mask: u32, hostname: String) -> (b: Banner)
    ensures
        b@ == server_banner_of(mask, hostname@),
{
    Banner::single(
        1,
        5,
        Capability::new(mask & 0x00ff_ffff, 0),
        hostname,
        Some("(rwhois rust server)".to_owned()),
    )
}

} // verus!
