//! The values of the IPv4 calculator: networks, subnet records, results.

use crate::arith::{
    lemma_aligned_block_fits, lemma_pow2_monotone, lemma_round_down, lemma_subnet_in_block,
    pow2_u64,
};
use crate::ipv4::address::{dotted_quad_text, format_addr};
use crate::text::{prefix_label, prefix_label_of, push_decimal};
use vstd::arithmetic::div_mod::lemma_fundamental_div_mod;
use vstd::arithmetic::power2::{lemma2_to64, lemma_pow2_pos, pow2};
use vstd::bits::{lemma_u64_shl_is_mul, lemma_u64_shr_is_div};
use vstd::prelude::*;

verus! {

/// Why an IPv4 calculation was refused.
#[derive(Clone, Copy, Debug, PartialEq, Eq, Structural)]
pub enum Ipv4InputError {
    /// The address is not four decimal octets separated by dots.
    MalformedAddress,
    /// The mask is neither a prefix length nor a run of one bits followed
    /// by zero bits in dotted decimal.
    InvalidMask,
    /// The prefix length is larger than 32.
    InvalidPrefix,
    /// A count of subnets of zero.
    InvalidCount,
    /// The base network cannot hold the hosts or subnets asked for.
    CapacityExceeded,
}

/// An IPv4 network: its first address and the length of its prefix.
///
/// A well-formed network has a prefix of at most 32 bits and an address
/// whose bits behind the prefix are zero.
#[derive(Clone, Copy, Debug, PartialEq, Eq, Structural)]
pub struct Ipv4Network {
    pub addr: u32,
    pub prefix: u8,
}

/// The number of addresses in a network of prefix length `prefix`.
pub open spec fn block_size(prefix: nat) -> nat {
    pow2((32 - prefix) as nat)
}

/// The netmask of a prefix length as a number: `prefix` one bits, then
/// zero bits.
pub open spec fn netmask_of(prefix: nat) -> nat {
    (pow2(32) - block_size(prefix)) as nat
}

/// The wildcard (host) mask of a prefix length as a number: the bits that
/// the netmask leaves clear.
pub open spec fn wildcard_of(prefix: nat) -> nat {
    (block_size(prefix) - 1) as nat
}

/// The number of addresses of a network that hosts can have: all but its
/// first and its last, and none where the network has fewer than two.
pub open spec fn usable_hosts_of(prefix: nat) -> nat {
    if prefix < 32 {
        (block_size(prefix) - 2) as nat
    } else {
        0
    }
}

/// `addr` with the bits behind the first `prefix` ones cleared.
pub open spec fn network_address_of(addr: nat, prefix: nat) -> nat {
    (addr - addr % block_size(prefix)) as nat
}

impl Ipv4Network {
    /// The prefix is at most 32 bits long and the address has no bit set
    /// behind it.
    pub open spec fn wf(&self) -> bool {
        &&& self.prefix <= 32
        &&& self.addr as nat % block_size(self.prefix as nat) == 0
    }

    /// The last address of the network.
    pub open spec fn broadcast_of(&self) -> nat {
        (self.addr + block_size(self.prefix as nat) - 1) as nat
    }

    /// The first address of the host range. The range leaves out the
    /// network's first and last address where the prefix is shorter than
    /// 31 bits, and is the whole network otherwise.
    pub open spec fn first_host_of(&self) -> nat {
        if self.prefix < 31 {
            self.addr as nat + 1
        } else {
            self.addr as nat
        }
    }

    /// The last address of the host range, where the range holds more than
    /// one address.
    pub open spec fn last_host_of(&self) -> Option<nat> {
        if self.prefix < 31 {
            Some((self.broadcast_of() - 1) as nat)
        } else if self.prefix == 31 {
            Some(self.broadcast_of())
        } else {
            None
        }
    }

    /// The network at index `index` among the subnets of prefix length
    /// `new_prefix`, counted from 0 in ascending order of address.
    pub open spec fn subnet_at(&self, new_prefix: nat, index: nat) -> Ipv4Network {
        Ipv4Network {
            addr: (self.addr + index * block_size(new_prefix)) as u32,
            prefix: new_prefix as u8,
        }
    }
}

/// For every prefix length, the netmask and the wildcard mask are bitwise
/// complements of each other: each has exactly the bits that the other
/// lacks.
pub proof fn lemma_netmask_wildcard_complement(prefix: nat)
    requires
        prefix <= 32,
    ensures
        netmask_of(prefix) + wildcard_of(prefix) == u32::MAX,
        netmask_of(prefix) as u32 == !(wildcard_of(prefix) as u32),
        wildcard_of(prefix) as u32 == !(netmask_of(prefix) as u32),
{
    lemma2_to64();
    lemma_pow2_pos((32 - prefix) as nat);
    lemma_pow2_monotone((32 - prefix) as nat, 32);
    let mask = netmask_of(prefix) as u32;
    let wild = wildcard_of(prefix) as u32;
    assert(mask == !wild && wild == !mask) by (bit_vector)
        requires
            mask == 0xffff_ffffu32 - wild,
    ;
}

/// Cutting an address to a prefix clears the bits behind the prefix and
/// keeps the others: the network address is the address and-ed with the
/// netmask.
pub proof fn lemma_network_address_is_masked(addr: u32, prefix: nat)
    requires
        prefix <= 32,
    ensures
        network_address_of(addr as nat, prefix) == addr & (netmask_of(prefix) as u32),
{
    let k: u64 = (32 - prefix) as u64;
    let a: u64 = addr as u64;
    let mask: u32 = netmask_of(prefix) as u32;
    let size = pow2(k as nat);
    lemma2_to64();
    lemma_pow2_pos(k as nat);
    lemma_pow2_monotone(k as nat, 32);
    let q: u64 = a >> k;
    lemma_u64_shr_is_div(a, k);
    lemma_fundamental_div_mod(a as int, size as int);
    let rem: int = (a as int) % (size as int);
    assert(q * size <= a) by (nonlinear_arith)
        requires
            a == size * q + rem,
            rem >= 0,
    ;
    lemma_u64_shl_is_mul(q, k);
    lemma_u64_shl_is_mul(1, k);
    assert(q * size == size * q) by (nonlinear_arith);
    let m64: u64 = (0x1_0000_0000u64 - (1u64 << k)) as u64;
    assert(a & m64 == (a >> k) << k) by (bit_vector)
        requires
            k <= 32,
            m64 == 0x1_0000_0000u64 - (1u64 << k),
            a <= 0xffff_ffffu64,
    ;
    assert((addr & mask) as u64 == a & m64) by (bit_vector)
        requires
            a == addr as u64,
            m64 == mask as u64,
    ;
}

/// The subnets of one prefix length tile the network they are cut from.
/// Each is well formed; the first starts where the network starts, each
/// next one starts right after the one before it ends, and the last ends
/// where the network ends.
pub proof fn lemma_subnets_tile(base: Ipv4Network, new_prefix: nat, i: nat)
    requires
        base.wf(),
        base.prefix <= new_prefix <= 32,
        i < pow2((new_prefix - base.prefix) as nat),
    ensures
        base.subnet_at(new_prefix, i).wf(),
        base.subnet_at(new_prefix, i).addr == base.addr + i * block_size(new_prefix),
        base.subnet_at(new_prefix, 0).addr == base.addr,
        i + 1 < pow2((new_prefix - base.prefix) as nat) ==> base.subnet_at(new_prefix, i + 1).addr
            == base.subnet_at(new_prefix, i).broadcast_of() + 1,
        i + 1 == pow2((new_prefix - base.prefix) as nat) ==> base.subnet_at(
            new_prefix,
            i,
        ).broadcast_of() == base.broadcast_of(),
{
    let small = block_size(new_prefix);
    let count = pow2((new_prefix - base.prefix) as nat);
    lemma2_to64();
    lemma_pow2_pos((32 - new_prefix) as nat);
    lemma_subnet_in_block(base.addr as nat, 32, base.prefix as nat, new_prefix, i);
    lemma_subnet_in_block(base.addr as nat, 32, base.prefix as nat, new_prefix, 0);
    assert(0 * small == 0) by (nonlinear_arith);
    if i + 1 < count {
        lemma_subnet_in_block(base.addr as nat, 32, base.prefix as nat, new_prefix, i + 1);
        assert((i + 1) * small == i * small + small) by (nonlinear_arith);
    } else {
        assert(i * small + small == count * small) by (nonlinear_arith)
            requires
                i + 1 == count,
        ;
    }
}

/// The number of addresses in a network of prefix length `prefix`.
pub fn block_size_of(prefix: u8) -> (r: u64)
    requires
        prefix <= 32,
    ensures
        r as nat == block_size(prefix as nat),
        1 <= r <= 0x1_0000_0000,
{
    proof {
        lemma2_to64();
        lemma_pow2_pos((32 - prefix) as nat);
        lemma_pow2_monotone((32 - prefix) as nat, 32);
    }
    pow2_u64(32 - prefix)
}

impl Ipv4Network {
    /// The network of prefix length `prefix` that holds `addr`: `addr` with
    /// the bits behind the prefix cleared. A prefix longer than 32 bits is
    /// refused.
    pub fn new(addr: u32, prefix: u8) -> (r: Result<Ipv4Network, Ipv4InputError>)
        ensures
            prefix > 32 ==> r == Err::<Ipv4Network, Ipv4InputError>(Ipv4InputError::InvalidPrefix),
            prefix <= 32 ==> r == Ok::<Ipv4Network, Ipv4InputError>(
                Ipv4Network {
                    addr: network_address_of(addr as nat, prefix as nat) as u32,
                    prefix,
                },
            ),
            r matches Ok(net) ==> net.wf(),
    {
        if prefix > 32 {
            return Err(Ipv4InputError::InvalidPrefix);
        }
        let size: u64 = block_size_of(prefix);
        proof {
            lemma_round_down(addr as nat, size as nat);
        }
        let base: u64 = addr as u64 - (addr as u64) % size;
        Ok(Ipv4Network { addr: base as u32, prefix })
    }

    /// The network as text: its address in dotted decimal, a slash and its
    /// prefix length.
    pub open spec fn text_of(&self) -> Seq<char> {
        dotted_quad_text(self.addr as nat) + prefix_label(self.prefix as nat)
    }

    /// The network as text.
    pub fn to_text(&self) -> (r: String)
        ensures
            r@ == self.text_of(),
    {
        let mut out = format_addr(self.addr);
        out.push('/');
        push_decimal(&mut out, self.prefix as u128);
        out
    }

    /// The netmask: one bits over the prefix, zero bits behind it.
    pub fn netmask(&self) -> (r: u32)
        requires
            self.prefix <= 32,
        ensures
            r as nat == netmask_of(self.prefix as nat),
    {
        proof {
            lemma2_to64();
        }
        (0x1_0000_0000u64 - block_size_of(self.prefix)) as u32
    }

    /// The wildcard mask: one bits where the netmask has zero bits.
    pub fn wildcard(&self) -> (r: u32)
        requires
            self.prefix <= 32,
        ensures
            r as nat == wildcard_of(self.prefix as nat),
    {
        (block_size_of(self.prefix) - 1) as u32
    }

    /// The last address of the network.
    pub fn broadcast(&self) -> (r: u32)
        requires
            self.wf(),
        ensures
            r as nat == self.broadcast_of(),
    {
        proof {
            lemma2_to64();
            lemma_aligned_block_fits(self.addr as nat, 32, self.prefix as nat);
        }
        (self.addr as u64 + block_size_of(self.prefix) - 1) as u32
    }

    /// The number of addresses that hosts can have.
    pub fn usable_hosts(&self) -> (r: u32)
        requires
            self.prefix <= 32,
        ensures
            r as nat == usable_hosts_of(self.prefix as nat),
    {
        if self.prefix < 32 {
            proof {
                lemma2_to64();
                lemma_pow2_monotone(1, (32 - self.prefix) as nat);
            }
            (block_size_of(self.prefix) - 2) as u32
        } else {
            0
        }
    }

    /// The first address of the host range.
    pub fn first_host(&self) -> (r: u32)
        requires
            self.wf(),
        ensures
            r as nat == self.first_host_of(),
    {
        if self.prefix < 31 {
            proof {
                lemma2_to64();
                lemma_aligned_block_fits(self.addr as nat, 32, self.prefix as nat);
                lemma_pow2_monotone(2, (32 - self.prefix) as nat);
            }
            self.addr + 1
        } else {
            self.addr
        }
    }

    /// The last address of the host range, where the range holds more than
    /// one address.
    pub fn last_host(&self) -> (r: Option<u32>)
        requires
            self.wf(),
        ensures
            match r {
                Some(a) => self.last_host_of() == Some(a as nat),
                None => self.last_host_of() is None,
            },
    {
        if self.prefix < 31 {
            proof {
                lemma2_to64();
                lemma_pow2_monotone(2, (32 - self.prefix) as nat);
            }
            Some(self.broadcast() - 1)
        } else if self.prefix == 31 {
            Some(self.broadcast())
        } else {
            None
        }
    }

    /// The number of subnets of prefix length `new_prefix` in this network.
    pub fn subnet_count(&self, new_prefix: u8) -> (r: u64)
        requires
            self.prefix <= new_prefix <= 32,
        ensures
            r as nat == pow2((new_prefix - self.prefix) as nat),
            1 <= r <= 0x1_0000_0000,
    {
        proof {
            lemma2_to64();
            lemma_pow2_pos((new_prefix - self.prefix) as nat);
            lemma_pow2_monotone((new_prefix - self.prefix) as nat, 32);
        }
        pow2_u64(new_prefix - self.prefix)
    }

    /// The subnet of prefix length `new_prefix` at `index`, counted from 0
    /// in ascending order of address.
    pub fn subnet(&self, new_prefix: u8, index: u64) -> (r: Ipv4Network)
        requires
            self.wf(),
            self.prefix <= new_prefix <= 32,
            (index as nat) < pow2((new_prefix - self.prefix) as nat),
        ensures
            r == self.subnet_at(new_prefix as nat, index as nat),
            r.wf(),
    {
        let size: u64 = block_size_of(new_prefix);
        proof {
            lemma2_to64();
            lemma_subnet_in_block(
                self.addr as nat,
                32,
                self.prefix as nat,
                new_prefix as nat,
                index as nat,
            );
            assert(index * size <= 0x1_0000_0000 * 0x1_0000_0000) by (nonlinear_arith)
                requires
                    index <= 0x1_0000_0000,
                    size <= 0x1_0000_0000,
            ;
            lemma_pow2_monotone((new_prefix - self.prefix) as nat, 32);
        }
        let start: u64 = self.addr as u64 + index * size;
        Ipv4Network { addr: start as u32, prefix: new_prefix }
    }
}

/// The prefix lengths that a form offers, 1 to 31 in ascending order,
/// each with its label and its netmask in dotted decimal.
pub fn cidr_options() -> (r: Vec<(u8, String, String)>)
    ensures
        r.len() == 31,
        forall|i: int|
            0 <= i < 31 ==> {
                &&& (#[trigger] r[i]).0 == i + 1
                &&& r[i].1@ == prefix_label((i + 1) as nat)
                &&& r[i].2@ == dotted_quad_text(netmask_of((i + 1) as nat))
            },
{
    let mut options: Vec<(u8, String, String)> = Vec::new();
    let mut prefix: u8 = 1;
    while prefix <= 31
        invariant
            1 <= prefix <= 32,
            options.len() == prefix - 1,
            forall|i: int|
                0 <= i < prefix - 1 ==> {
                    &&& (#[trigger] options[i]).0 == i + 1
                    &&& options[i].1@ == prefix_label((i + 1) as nat)
                    &&& options[i].2@ == dotted_quad_text(netmask_of((i + 1) as nat))
                },
        decreases 32 - prefix,
    {
        let net = Ipv4Network { addr: 0, prefix };
        options.push((prefix, prefix_label_of(prefix), format_addr(net.netmask())));
        prefix = prefix + 1;
    }
    options
}

/// One network of a partition, described for display.
#[derive(Clone, Debug, PartialEq, Eq)]
pub struct SubnetResult {
    pub network: Ipv4Network,
    pub netmask: String,
    pub wildcard: String,
    pub broadcast: String,
    pub first_host: Option<String>,
    pub last_host: Option<String>,
    pub usable_hosts: u32,
}

/// What a `SubnetResult` holds, its texts as sequences of characters.
pub struct SubnetResultView {
    pub network: Ipv4Network,
    pub netmask: Seq<char>,
    pub wildcard: Seq<char>,
    pub broadcast: Seq<char>,
    pub first_host: Option<Seq<char>>,
    pub last_host: Option<Seq<char>>,
    pub usable_hosts: nat,
}

impl View for SubnetResult {
    type V = SubnetResultView;

    open spec fn view(&self) -> SubnetResultView {
        SubnetResultView {
            network: self.network,
            netmask: self.netmask@,
            wildcard: self.wildcard@,
            broadcast: self.broadcast@,
            first_host: match self.first_host {
                Some(s) => Some(s@),
                None => None,
            },
            last_host: match self.last_host {
                Some(s) => Some(s@),
                None => None,
            },
            usable_hosts: self.usable_hosts as nat,
        }
    }
}

/// The record that describes `net`: its masks, its last address and the
/// bounds of its host range in dotted decimal, and the number of its
/// usable hosts.
pub open spec fn subnet_result_of(net: Ipv4Network) -> SubnetResultView {
    SubnetResultView {
        network: net,
        netmask: dotted_quad_text(netmask_of(net.prefix as nat)),
        wildcard: dotted_quad_text(wildcard_of(net.prefix as nat)),
        broadcast: dotted_quad_text(net.broadcast_of()),
        first_host: Some(dotted_quad_text(net.first_host_of())),
        last_host: match net.last_host_of() {
            Some(a) => Some(dotted_quad_text(a)),
            None => None,
        },
        usable_hosts: usable_hosts_of(net.prefix as nat),
    }
}

/// The outcome of a calculation.
///
/// `subnets` lists the partition, or a sample of it where it is longer
/// than the limit; `total_subnets` is the number of subnets in the
/// partition, however many are listed.
#[derive(Clone, Debug, PartialEq, Eq)]
pub struct CalculationResult {
    pub base_network: Ipv4Network,
    pub summary: SubnetResult,
    pub subnets: Vec<SubnetResult>,
    pub new_prefix: Option<u8>,
    pub total_subnets: u64,
}

/// What a `CalculationResult` holds.
pub struct CalculationResultView {
    pub base_network: Ipv4Network,
    pub summary: SubnetResultView,
    pub subnets: Seq<SubnetResultView>,
    pub new_prefix: Option<u8>,
    pub total_subnets: nat,
}

impl View for CalculationResult {
    type V = CalculationResultView;

    open spec fn view(&self) -> CalculationResultView {
        CalculationResultView {
            base_network: self.base_network,
            summary: self.summary@,
            subnets: Seq::new(self.subnets.len() as nat, |i: int| self.subnets[i]@),
            new_prefix: self.new_prefix,
            total_subnets: self.total_subnets as nat,
        }
    }
}

} // verus!
