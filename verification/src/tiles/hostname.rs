//! The hostname tile: the name that systemd-hostnamed reports.
use vstd::prelude::*;

use crate::tile::Block;

verus! {

broadcast use vstd::string::group_string_axioms;

/// The hostname block for the `Hostname` property of `org.freedesktop.hostname1`.
pub fn hostname_block(hostname: String) -> (b: Block)
    ensures
        b.shows(hostname@, None, "hostname"@),
{
    Block::with_text(hostname, None, "hostname".to_string())
}

} // verus!
