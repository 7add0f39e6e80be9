//! What the window asks of the machine it runs on.

use vstd::prelude::*;

use crate::number;
use crate::text;

verus! {

/// Shown where the process may not do what is asked of it.
pub const PRIVILEGES_MSG: &'static str =
    "Insufficient privileges. Run as root or grant CAP_NET_RAW and CAP_NET_ADMIN to this binary.";

/// Shown on a virtual machine.
pub const VIRTUALBOX_MSG: &'static str =
    "Warning: Running inside VirtualBox; promiscuous capture may be limited.";

// ---------------------------------------------------------------------------
// Virtual machines
// ---------------------------------------------------------------------------

/// `s` in lower case, as `str::to_lowercase` gives it.
pub uninterp spec fn lowercase_of(s: Seq<char>) -> Seq<char>;

/// Calls `str::to_lowercase`. The result depends on the text alone; how each
/// character is lowered is left to Unicode and is not stated here.
#[verifier::external_body]
fn to_lowercase(s: &str) -> (lowered: String)
    ensures
        lowered@ == lowercase_of(s@),
{
    s.to_lowercase()
}

/// The names, in lower case, are those of a VirtualBox machine.
pub open spec fn virtualbox_names(host: Seq<char>, product: Seq<char>) -> bool {
    text::occurs(host, "vbox"@) || text::occurs(product, "virtualbox"@)
}

/// The text of a file; nothing if it could not be read.
pub open spec fn file_text(content: Option<String>) -> Seq<char> {
    match content {
        Some(content) => content@,
        None => Seq::empty(),
    }
}

/// Decides by the names of host and product, in lower case, whether the machine
/// is a VirtualBox machine.
pub fn is_virtualbox(host: &str, product: &str) -> (found: bool)
    ensures
        found == virtualbox_names(host@, product@),
{
    let host_chars = text::chars_of(host);
    let host_word = text::chars_of("vbox");
    let product_chars = text::chars_of(product);
    let product_word = text::chars_of("virtualbox");
    text::contains_chars(host_chars.as_slice(), host_word.as_slice()) || text::contains_chars(
        product_chars.as_slice(),
        product_word.as_slice(),
    )
}

/// Decides by the files that name host and product whether the machine is a
/// VirtualBox machine.
pub fn detect_virtualbox(hostname: &Option<String>, product_name: &Option<String>) -> (found: bool)
    ensures
        found == virtualbox_names(
            lowercase_of(file_text(*hostname)),
            lowercase_of(file_text(*product_name)),
        ),
{
    let host = match hostname {
        Some(content) => content.clone(),
        None => String::new(),
    };
    let product = match product_name {
        Some(content) => content.clone(),
        None => String::new(),
    };
    assert(host@ =~= file_text(*hostname));
    assert(product@ =~= file_text(*product_name));
    let lowered_host = to_lowercase(host.as_str());
    let lowered_product = to_lowercase(product.as_str());
    is_virtualbox(lowered_host.as_str(), lowered_product.as_str())
}

// ---------------------------------------------------------------------------
// Privileges
// ---------------------------------------------------------------------------

/// Bit of the capability to administer the network.
pub const CAP_NET_ADMIN_BIT: u32 = 12;

/// Bit of the capability to use raw sockets.
pub const CAP_NET_RAW_BIT: u32 = 13;

/// The effective capabilities that a status text gives: the second word of the
/// first line for them, in hexadecimal.
pub open spec fn effective_capabilities(lines: Seq<Seq<char>>) -> Option<u64>
    decreases lines.len(),
{
    if lines.len() == 0 {
        None
    } else if text::begins_with(lines.first(), "CapEff:"@) {
        let words = text::words(lines.first());
        if words.len() < 2 {
            None
        } else {
            match number::numeral(words[1], 16, u64::MAX as nat) {
                Some(capabilities) => Some(capabilities as u64),
                None => None,
            }
        }
    } else {
        effective_capabilities(lines.drop_first())
    }
}

/// The bits of both capabilities are set.
pub open spec fn network_capable(capabilities: u64) -> bool {
    &&& capabilities & (1u64 << CAP_NET_ADMIN_BIT) != 0
    &&& capabilities & (1u64 << CAP_NET_RAW_BIT) != 0
}

/// The status text gives both capabilities.
pub open spec fn status_capable(status: Option<String>) -> bool {
    match status {
        Some(status) => match effective_capabilities(text::lines(status@)) {
            Some(capabilities) => network_capable(capabilities),
            None => false,
        },
        None => false,
    }
}

/// Reads the effective capabilities out of a status text.
fn read_effective_capabilities(status: &str) -> (capabilities: Option<u64>)
    ensures
        capabilities == effective_capabilities(text::lines(status@)),
{
    let chars = text::chars_of(status);
    let lines = text::lines_of(chars.as_slice());
    let prefix = text::chars_of("CapEff:");
    let ghost all = text::lines(status@);
    assert(all =~= text::texts(lines@));
    let mut i: usize = 0;
    assert(all.skip(0) =~= all);
    while i < lines.len()
        invariant
            i <= lines@.len(),
            all == text::texts(lines@),
            all == text::lines(status@),
            prefix@ == "CapEff:"@,
            effective_capabilities(all) == effective_capabilities(all.skip(i as int)),
        decreases lines@.len() - i,
    {
        let line = lines[i].as_slice();
        assert(all.skip(i as int).first() == line@);
        assert(all.skip(i as int).drop_first() =~= all.skip(i + 1));
        if text::starts_with_chars(line, prefix.as_slice()) {
            let words = text::words_of(line);
            assert(forall|j: int| 0 <= j < words@.len() ==> text::texts(words@)[j] == words@[j]@);
            if words.len() < 2 {
                return None;
            }
            return number::read_numeral(words[1].as_slice(), 16, u64::MAX);
        }
        i += 1;
    }
    assert(all.skip(all.len() as int) =~= Seq::empty());
    None
}

/// Decides by the text of the process's own status whether it has the
/// capabilities that it needs.
pub fn has_required_capabilities(status: &Option<String>) -> (capable: bool)
    ensures
        capable == status_capable(*status),
{
    match status {
        Some(status) => match read_effective_capabilities(status.as_str()) {
            Some(capabilities) => (capabilities & (1u64 << CAP_NET_ADMIN_BIT)) != 0 && (capabilities
                & (1u64 << CAP_NET_RAW_BIT)) != 0,
            None => false,
        },
        None => false,
    }
}

/// Decides whether the process may run: as root, or with the capabilities that
/// it needs.
pub fn may_run(is_root: bool, status: &Option<String>) -> (may: bool)
    ensures
        may == (is_root || status_capable(*status)),
{
    is_root || has_required_capabilities(status)
}

} // verus!
