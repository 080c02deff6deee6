//! IPv6 addresses: read from text, written as text, and sorted into
//! categories.

use crate::ipv6::types::{network_address_of, Ipv6Network};
use crate::text::{hex4_text, push_hex4, trim, trimmed};
use vstd::prelude::*;
use vstd::string::StringExecFns;

verus! {

/// The network that `ipnet` reads from `s`, as its address and its prefix
/// length, or `None` where `ipnet` refuses `s`.
pub uninterp spec fn ipv6_net_value(s: Seq<char>) -> Option<(u128, u8)>;

/// `ipnet`'s parser for `Ipv6Net`: an address, a slash and a prefix
/// length. What it reads is a function of the text alone; the contract
/// gives that function the name `ipv6_net_value`.
#[verifier::external_body]
pub(crate) fn parse_net(s: &str) -> (r: Option<(u128, u8)>)
    ensures
        r == ipv6_net_value(s@),
{
    match s.parse::<ipnet::Ipv6Net>() {
        Ok(net) => Some((u128::from(net.addr()), net.prefix_len())),
        Err(_) => None,
    }
}

/// The text that the standard library writes for the address `addr`: the
/// address in its short form.
pub uninterp spec fn compressed_text(addr: u128) -> Seq<char>;

/// The standard library's `to_string` of an IPv6 address, which `ipnet`
/// hands out for the number `addr`. The text is a function of the address
/// alone; the contract gives that function the name `compressed_text`.
#[verifier::external_body]
pub(crate) fn format_compressed(addr: u128) -> (r: String)
    ensures
        r@ == compressed_text(addr),
{
    match ipnet::Ipv6Net::new(addr.into(), 128) {
        Ok(net) => net.addr().to_string(),
        Err(_) => String::new(),
    }
}

/// The address that `s` writes, if it writes one: what `ipnet` reads from
/// `s` as the address of a network of full prefix length.
pub open spec fn address_value(s: Seq<char>) -> Option<u128> {
    match ipv6_net_value(s + seq!['/', '1', '2', '8']) {
        Some((addr, _)) => Some(addr),
        None => None,
    }
}

/// Reads an address, white space around it left aside.
pub fn parse_addr(text: &str) -> (r: Option<u128>)
    ensures
        r == address_value(trimmed(text@)),
{
    let mut net_text = String::from_str(trim(text));
    net_text.push('/');
    net_text.push('1');
    net_text.push('2');
    net_text.push('8');
    assert(net_text@ =~= trimmed(text@) + seq!['/', '1', '2', '8']);
    match parse_net(net_text.as_str()) {
        Some((addr, _)) => Some(addr),
        None => None,
    }
}

/// The eight groups of 16 bits of `addr`, first to last.
pub open spec fn groups_of(addr: u128) -> Seq<nat> {
    seq![
        (addr / 0x1_0000_0000_0000_0000_0000_0000_0000) as nat,
        ((addr / 0x1_0000_0000_0000_0000_0000_0000) % 0x1_0000) as nat,
        ((addr / 0x1_0000_0000_0000_0000_0000) % 0x1_0000) as nat,
        ((addr / 0x1_0000_0000_0000_0000) % 0x1_0000) as nat,
        ((addr / 0x1_0000_0000_0000) % 0x1_0000) as nat,
        ((addr / 0x1_0000_0000) % 0x1_0000) as nat,
        ((addr / 0x1_0000) % 0x1_0000) as nat,
        (addr % 0x1_0000) as nat,
    ]
}

/// The first `n` of the groups `g`, each as four hexadecimal digits, with
/// a colon between each two.
pub open spec fn groups_text(g: Seq<nat>, n: nat) -> Seq<char>
    decreases n,
{
    if n == 0 {
        Seq::empty()
    } else if n == 1 {
        hex4_text(g[0])
    } else {
        groups_text(g, (n - 1) as nat) + seq![':'] + hex4_text(g[n - 1])
    }
}

/// `addr` written in full: its eight groups, each as four hexadecimal
/// digits, with a colon between each two.
pub open spec fn expanded_text(addr: u128) -> Seq<char> {
    groups_text(groups_of(addr), 8)
}

/// The eight groups of 16 bits of `addr`, first to last.
pub fn groups(addr: u128) -> (g: Vec<u16>)
    ensures
        g@.len() == 8,
        forall|i: int| 0 <= i < 8 ==> g@[i] as nat == #[trigger] groups_of(addr)[i],
{
    let mut g: Vec<u16> = Vec::new();
    g.push((addr / 0x1_0000_0000_0000_0000_0000_0000_0000) as u16);
    g.push(((addr / 0x1_0000_0000_0000_0000_0000_0000) % 0x1_0000) as u16);
    g.push(((addr / 0x1_0000_0000_0000_0000_0000) % 0x1_0000) as u16);
    g.push(((addr / 0x1_0000_0000_0000_0000) % 0x1_0000) as u16);
    g.push(((addr / 0x1_0000_0000_0000) % 0x1_0000) as u16);
    g.push(((addr / 0x1_0000_0000) % 0x1_0000) as u16);
    g.push(((addr / 0x1_0000) % 0x1_0000) as u16);
    g.push((addr % 0x1_0000) as u16);
    g
}

/// `addr` written in full: eight groups of four hexadecimal digits.
pub fn expand_ipv6(addr: u128) -> (r: String)
    ensures
        r@ == expanded_text(addr),
{
    let g = groups(addr);
    let mut out = String::new();
    let mut i: usize = 0;
    while i < 8
        invariant
            i <= 8,
            g@.len() == 8,
            forall|j: int| 0 <= j < 8 ==> g@[j] as nat == #[trigger] groups_of(addr)[j],
            out@ == groups_text(groups_of(addr), i as nat),
        decreases 8 - i,
    {
        if i > 0 {
            out.push(':');
        }
        push_hex4(&mut out, g[i]);
        i = i + 1;
    }
    out
}

/// What an address is for.
#[derive(Clone, Copy, Debug, PartialEq, Eq, Structural)]
pub enum AddressCategory {
    Unspecified,
    Loopback,
    UniqueLocal,
    LinkLocal,
    Multicast,
    GlobalUnicast,
    Other,
}

/// `fc00::`, the first unique local address; the block is `fc00::/7`.
pub const UNIQUE_LOCAL: u128 = 0xfc00_0000_0000_0000_0000_0000_0000_0000;

/// `fe80::`, the first link-local unicast address; the block is
/// `fe80::/10`.
pub const LINK_LOCAL: u128 = 0xfe80_0000_0000_0000_0000_0000_0000_0000;

/// `ff00::`, the first multicast address; the block is `ff00::/8`.
pub const MULTICAST: u128 = 0xff00_0000_0000_0000_0000_0000_0000_0000;

/// `2001:db8::`, for documentation; the block is `2001:db8::/32`.
pub const DOCUMENTATION: u128 = 0x2001_0db8_0000_0000_0000_0000_0000_0000;

/// `3fff::`, for documentation; the block is `3fff::/20`.
pub const DOCUMENTATION_3FFF: u128 = 0x3fff_0000_0000_0000_0000_0000_0000_0000;

/// `2001:2::`, for benchmarking; the block is `2001:2::/48`.
pub const BENCHMARKING: u128 = 0x2001_0002_0000_0000_0000_0000_0000_0000;

/// `2002::`, for 6to4; the block is `2002::/16`.
pub const SIX_TO_FOUR: u128 = 0x2002_0000_0000_0000_0000_0000_0000_0000;

/// `2001::`, for Teredo; the block is `2001::/32`.
pub const TEREDO: u128 = 0x2001_0000_0000_0000_0000_0000_0000_0000;

/// `2000::`, the first global unicast address; the block is `2000::/3`.
pub const GLOBAL_UNICAST: u128 = 0x2000_0000_0000_0000_0000_0000_0000_0000;

/// `addr` lies in the block of prefix length `prefix` that `first` lies
/// in.
pub open spec fn in_block(addr: u128, first: u128, prefix: u8) -> bool {
    (Ipv6Network {
        addr: network_address_of(first as nat, prefix as nat) as u128,
        prefix,
    }).holds(addr)
}

/// `addr` lies in one of the blocks inside `2000::/3` that are set aside:
/// documentation, benchmarking, 6to4, Teredo.
pub open spec fn is_set_aside(addr: u128) -> bool {
    ||| in_block(addr, DOCUMENTATION, 32)
    ||| in_block(addr, DOCUMENTATION_3FFF, 20)
    ||| in_block(addr, BENCHMARKING, 48)
    ||| in_block(addr, SIX_TO_FOUR, 16)
    ||| in_block(addr, TEREDO, 32)
}

/// `addr` is a global unicast address: in `2000::/3` and in none of the
/// blocks set aside.
pub open spec fn is_global_unicast(addr: u128) -> bool {
    !is_set_aside(addr) && in_block(addr, GLOBAL_UNICAST, 3)
}

/// The category of `addr`: the first that applies of unspecified,
/// loopback, unique local, link-local, multicast, global unicast; and
/// other where none does.
pub open spec fn category_of(addr: u128) -> AddressCategory {
    if addr == 0 {
        AddressCategory::Unspecified
    } else if addr == 1 {
        AddressCategory::Loopback
    } else if in_block(addr, UNIQUE_LOCAL, 7) {
        AddressCategory::UniqueLocal
    } else if in_block(addr, LINK_LOCAL, 10) {
        AddressCategory::LinkLocal
    } else if in_block(addr, MULTICAST, 8) {
        AddressCategory::Multicast
    } else if is_global_unicast(addr) {
        AddressCategory::GlobalUnicast
    } else {
        AddressCategory::Other
    }
}

/// The name of a category.
pub open spec fn category_name(category: AddressCategory) -> Seq<char> {
    match category {
        AddressCategory::Unspecified => "Unspecified"@,
        AddressCategory::Loopback => "Loopback"@,
        AddressCategory::UniqueLocal => "Unique Local"@,
        AddressCategory::LinkLocal => "Link-Local"@,
        AddressCategory::Multicast => "Multicast"@,
        AddressCategory::GlobalUnicast => "Global Unicast"@,
        AddressCategory::Other => "Other"@,
    }
}

/// Whether `addr` lies in the block of prefix length `prefix` that `first`
/// lies in.
pub fn is_in_block(addr: u128, first: u128, prefix: u8) -> (r: bool)
    requires
        prefix <= 128,
    ensures
        r == in_block(addr, first, prefix),
{
    match Ipv6Network::new(first, prefix) {
        Ok(block) => block.contains(addr),
        Err(_) => false,
    }
}

/// Whether `addr` is a global unicast address.
pub fn is_unicast_global(addr: u128) -> (r: bool)
    ensures
        r == is_global_unicast(addr),
{
    if is_in_block(addr, DOCUMENTATION, 32) {
        return false;
    }
    if is_in_block(addr, DOCUMENTATION_3FFF, 20) {
        return false;
    }
    if is_in_block(addr, BENCHMARKING, 48) {
        return false;
    }
    if is_in_block(addr, SIX_TO_FOUR, 16) {
        return false;
    }
    if is_in_block(addr, TEREDO, 32) {
        return false;
    }
    is_in_block(addr, GLOBAL_UNICAST, 3)
}

/// The category of `addr`.
pub fn classify(addr: u128) -> (r: AddressCategory)
    ensures
        r == category_of(addr),
{
    if addr == 0 {
        AddressCategory::Unspecified
    } else if addr == 1 {
        AddressCategory::Loopback
    } else if is_in_block(addr, UNIQUE_LOCAL, 7) {
        AddressCategory::UniqueLocal
    } else if is_in_block(addr, LINK_LOCAL, 10) {
        AddressCategory::LinkLocal
    } else if is_in_block(addr, MULTICAST, 8) {
        AddressCategory::Multicast
    } else if is_unicast_global(addr) {
        AddressCategory::GlobalUnicast
    } else {
        AddressCategory::Other
    }
}

impl AddressCategory {
    /// The name of the category.
    pub fn name(&self) -> (r: String)
        ensures
            r@ == category_name(*self),
    {
        match self {
            AddressCategory::Unspecified => String::from_str("Unspecified"),
            AddressCategory::Loopback => String::from_str("Loopback"),
            AddressCategory::UniqueLocal => String::from_str("Unique Local"),
            AddressCategory::LinkLocal => String::from_str("Link-Local"),
            AddressCategory::Multicast => String::from_str("Multicast"),
            AddressCategory::GlobalUnicast => String::from_str("Global Unicast"),
            AddressCategory::Other => String::from_str("Other"),
        }
    }
}

/// The name of the category of `addr`.
pub fn get_addr_type(addr: u128) -> (r: String)
    ensures
        r@ == category_name(category_of(addr)),
{
    classify(addr).name()
}

} // verus!
