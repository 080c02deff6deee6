//! The values of the IPv6 calculator: networks, subnet records, hierarchy
//! trees, results.

use crate::arith::{
    lemma_aligned_block_fits, lemma_pow2_128, lemma_round_down, lemma_subnet_in_block, pow2_u128,
};
use crate::ipv6::address::{
    category_name, category_of, compressed_text, expanded_text, format_compressed,
};
use crate::text::{decimal_text, prefix_label, prefix_label_of, push_decimal};
use vstd::arithmetic::div_mod::lemma_small_mod;
use vstd::arithmetic::power2::{lemma2_to64, lemma_pow2_pos, pow2};
use vstd::prelude::*;

verus! {

/// Why an IPv6 calculation was refused.
#[derive(Clone, Copy, Debug, PartialEq, Eq, Structural)]
pub enum Ipv6InputError {
    /// The address text is no IPv6 address.
    MalformedAddress,
    /// The prefix length is no decimal number of at most 128, or the
    /// prefix length of the subnets is missing, not longer than that of
    /// the base network, or longer than 128.
    InvalidPrefix,
    /// A count that is missing or zero.
    InvalidCount,
    /// The subnets asked for need more bits than the address has left.
    CapacityExceeded,
    /// A hierarchy level has more members than its bits can tell apart, or
    /// the levels together take more bits than there are.
    InsufficientBits,
    /// The hierarchy has more leaves than a tree may have.
    TooManySubnets,
}

/// How the base network is to be split.
#[derive(Clone, Copy, Debug, PartialEq, Eq, Structural)]
pub enum SubnetMode {
    /// No split.
    Inspect,
    /// Into at least a given number of subnets.
    BySubnets,
    /// Into subnets of a given prefix length.
    ByPrefix,
    /// Into a tree, level by level.
    ByHierarchy,
}

/// An IPv6 network: its first address and the length of its prefix.
///
/// A well-formed network has a prefix of at most 128 bits and an address
/// whose bits behind the prefix are zero.
#[derive(Clone, Copy, Debug, PartialEq, Eq, Structural)]
pub struct Ipv6Network {
    pub addr: u128,
    pub prefix: u8,
}

/// The number of addresses in a network of prefix length `prefix`.
pub open spec fn block_size(prefix: nat) -> nat {
    pow2((128 - prefix) as nat)
}

/// `addr` with the bits behind the first `prefix` ones cleared.
pub open spec fn network_address_of(addr: nat, prefix: nat) -> nat {
    (addr - addr % block_size(prefix)) as nat
}

impl Ipv6Network {
    /// The prefix is at most 128 bits long and the address has no bit set
    /// behind it.
    pub open spec fn wf(&self) -> bool {
        &&& self.prefix <= 128
        &&& self.addr as nat % block_size(self.prefix as nat) == 0
    }

    /// The last address of the network.
    pub open spec fn last_address_of(&self) -> nat {
        (self.addr + block_size(self.prefix as nat) - 1) as nat
    }

    /// `addr` is one of the addresses of the network.
    pub open spec fn holds(&self, addr: u128) -> bool {
        self.addr <= addr <= self.last_address_of()
    }

    /// The network at index `index` among the subnets of prefix length
    /// `new_prefix`, counted from 0 in ascending order of address.
    pub open spec fn subnet_at(&self, new_prefix: nat, index: nat) -> Ipv6Network {
        Ipv6Network {
            addr: (self.addr + index * block_size(new_prefix)) as u128,
            prefix: new_prefix as u8,
        }
    }

    /// The network of prefix length `prefix` that holds `addr`: `addr` with
    /// the bits behind the prefix cleared. A prefix longer than 128 bits
    /// is refused.
    pub fn new(addr: u128, prefix: u8) -> (r: Result<Ipv6Network, Ipv6InputError>)
        ensures
            prefix > 128 ==> r == Err::<Ipv6Network, Ipv6InputError>(Ipv6InputError::InvalidPrefix),
            prefix <= 128 ==> r == Ok::<Ipv6Network, Ipv6InputError>(
                Ipv6Network {
                    addr: network_address_of(addr as nat, prefix as nat) as u128,
                    prefix,
                },
            ),
            r matches Ok(net) ==> net.wf(),
    {
        if prefix > 128 {
            return Err(Ipv6InputError::InvalidPrefix);
        }
        if prefix == 0 {
            proof {
                lemma_pow2_128();
                lemma_small_mod(addr as nat, pow2(128));
                lemma_small_mod(0, pow2(128));
            }
            return Ok(Ipv6Network { addr: 0, prefix });
        }
        let size: u128 = pow2_u128(128 - prefix);
        proof {
            lemma_pow2_pos((128 - prefix) as nat);
            lemma_round_down(addr as nat, size as nat);
        }
        Ok(Ipv6Network { addr: addr - addr % size, prefix })
    }

    /// The network as text: its address in short, a slash and its prefix
    /// length.
    pub open spec fn text_of(&self) -> Seq<char> {
        compressed_text(self.addr) + prefix_label(self.prefix as nat)
    }

    /// The network as text.
    pub fn to_text(&self) -> (r: String)
        ensures
            r@ == self.text_of(),
    {
        let mut out = format_compressed(self.addr);
        out.push('/');
        push_decimal(&mut out, self.prefix as u128);
        out
    }

    /// The last address of the network.
    pub fn last_address(&self) -> (r: u128)
        requires
            self.wf(),
        ensures
            r as nat == self.last_address_of(),
    {
        proof {
            lemma_pow2_128();
            lemma_aligned_block_fits(self.addr as nat, 128, self.prefix as nat);
        }
        if self.prefix == 0 {
            proof {
                lemma_small_mod(self.addr as nat, pow2(128));
            }
            u128::MAX
        } else {
            proof {
                lemma_pow2_pos((128 - self.prefix) as nat);
            }
            self.addr + (pow2_u128(128 - self.prefix) - 1)
        }
    }

    /// Whether `addr` is one of the addresses of the network.
    pub fn contains(&self, addr: u128) -> (r: bool)
        requires
            self.wf(),
        ensures
            r == self.holds(addr),
    {
        self.addr <= addr && addr <= self.last_address()
    }

    /// The number of subnets of prefix length `new_prefix` in this network.
    pub fn subnet_count(&self, new_prefix: u8) -> (r: SubnetCount)
        requires
            self.prefix <= new_prefix <= 128,
        ensures
            r@ == pow2((new_prefix - self.prefix) as nat),
    {
        let bits: u8 = new_prefix - self.prefix;
        if bits == 128 {
            SubnetCount::TwoPow128
        } else {
            SubnetCount::Exact(pow2_u128(bits))
        }
    }

    /// The subnet of prefix length `new_prefix` at `index`, counted from 0
    /// in ascending order of address.
    pub fn subnet(&self, new_prefix: u8, index: u128) -> (r: Ipv6Network)
        requires
            self.wf(),
            self.prefix <= new_prefix <= 128,
            (index as nat) < pow2((new_prefix - self.prefix) as nat),
        ensures
            r == self.subnet_at(new_prefix as nat, index as nat),
            r.wf(),
    {
        proof {
            lemma_pow2_128();
            lemma2_to64();
            lemma_subnet_in_block(
                self.addr as nat,
                128,
                self.prefix as nat,
                new_prefix as nat,
                index as nat,
            );
            lemma_pow2_pos((128 - new_prefix) as nat);
        }
        if new_prefix == 0 {
            assert(index * block_size(0) == 0) by (nonlinear_arith)
                requires
                    index == 0,
            ;
            Ipv6Network { addr: self.addr, prefix: new_prefix }
        } else {
            let size: u128 = pow2_u128(128 - new_prefix);
            Ipv6Network { addr: self.addr + index * size, prefix: new_prefix }
        }
    }
}

/// The subnets of one prefix length tile the network they are cut from.
/// Each is well formed; the first starts where the network starts, each
/// next one starts right after the one before it ends, and the last ends
/// where the network ends.
pub proof fn lemma_subnets_tile(base: Ipv6Network, new_prefix: nat, i: nat)
    requires
        base.wf(),
        base.prefix <= new_prefix <= 128,
        i < pow2((new_prefix - base.prefix) as nat),
    ensures
        base.subnet_at(new_prefix, i).wf(),
        base.subnet_at(new_prefix, i).addr == base.addr + i * block_size(new_prefix),
        base.subnet_at(new_prefix, 0).addr == base.addr,
        i + 1 < pow2((new_prefix - base.prefix) as nat) ==> base.subnet_at(new_prefix, i + 1).addr
            == base.subnet_at(new_prefix, i).last_address_of() + 1,
        i + 1 == pow2((new_prefix - base.prefix) as nat) ==> base.subnet_at(
            new_prefix,
            i,
        ).last_address_of() == base.last_address_of(),
{
    let small = block_size(new_prefix);
    let count = pow2((new_prefix - base.prefix) as nat);
    lemma_pow2_128();
    lemma_pow2_pos((128 - new_prefix) as nat);
    lemma_subnet_in_block(base.addr as nat, 128, base.prefix as nat, new_prefix, i);
    lemma_subnet_in_block(base.addr as nat, 128, base.prefix as nat, new_prefix, 0);
    assert(0 * small == 0) by (nonlinear_arith);
    if i + 1 < count {
        lemma_subnet_in_block(base.addr as nat, 128, base.prefix as nat, new_prefix, i + 1);
        assert((i + 1) * small == i * small + small) by (nonlinear_arith);
    } else {
        assert(i * small + small == count * small) by (nonlinear_arith)
            requires
                i + 1 == count,
        ;
    }
}

/// A number of subnets. A partition of the whole address space into
/// single addresses has `2^128` members, one more than a `u128` holds.
#[derive(Clone, Copy, Debug, PartialEq, Eq, Structural)]
pub enum SubnetCount {
    /// This many.
    Exact(u128),
    /// `2^128`.
    TwoPow128,
}

impl View for SubnetCount {
    type V = nat;

    open spec fn view(&self) -> nat {
        match self {
            SubnetCount::Exact(n) => *n as nat,
            SubnetCount::TwoPow128 => pow2(128),
        }
    }
}

/// The prefix lengths that a form offers, 1 to 64 in ascending order,
/// each with its label.
pub fn prefix_options() -> (r: Vec<(u8, String)>)
    ensures
        r.len() == 64,
        forall|i: int|
            0 <= i < 64 ==> (#[trigger] r[i]).0 == i + 1 && r[i].1@ == prefix_label((i + 1) as nat),
{
    let mut options: Vec<(u8, String)> = Vec::new();
    let mut prefix: u8 = 1;
    while prefix <= 64
        invariant
            1 <= prefix <= 65,
            options.len() == prefix - 1,
            forall|i: int|
                0 <= i < prefix - 1 ==> (#[trigger] options[i]).0 == i + 1 && options[i].1@
                    == prefix_label((i + 1) as nat),
        decreases 65 - prefix,
    {
        options.push((prefix, prefix_label_of(prefix)));
        prefix = prefix + 1;
    }
    options
}

impl SubnetCount {
    /// The count in base ten.
    pub fn to_text(&self) -> (r: String)
        ensures
            r@ == decimal_text(self@),
    {
        let mut out = String::new();
        match self {
            SubnetCount::Exact(n) => {
                push_decimal(&mut out, *n);
            },
            SubnetCount::TwoPow128 => {
                proof {
                    lemma_pow2_128();
                }
                push_decimal(&mut out, 34028236692093846346337460743176821145);
                out.push('6');
            },
        }
        out
    }
}

/// One network of a partition, described for display.
#[derive(Clone, Debug, PartialEq, Eq)]
pub struct SubnetResult {
    pub network: Ipv6Network,
    pub compressed: String,
    pub expanded: String,
    pub addr_type: String,
    pub first_host: String,
    pub last_host: String,
}

/// What a `SubnetResult` holds, its texts as sequences of characters.
pub struct SubnetResultView {
    pub network: Ipv6Network,
    pub compressed: Seq<char>,
    pub expanded: Seq<char>,
    pub addr_type: Seq<char>,
    pub first_host: Seq<char>,
    pub last_host: Seq<char>,
}

impl View for SubnetResult {
    type V = SubnetResultView;

    open spec fn view(&self) -> SubnetResultView {
        SubnetResultView {
            network: self.network,
            compressed: self.compressed@,
            expanded: self.expanded@,
            addr_type: self.addr_type@,
            first_host: self.first_host@,
            last_host: self.last_host@,
        }
    }
}

/// The record that describes `net`: its address in short and in full, the
/// category of its address, and the first and last address in it.
pub open spec fn subnet_result_of(net: Ipv6Network) -> SubnetResultView {
    SubnetResultView {
        network: net,
        compressed: compressed_text(net.addr),
        expanded: expanded_text(net.addr),
        addr_type: category_name(category_of(net.addr)),
        first_host: compressed_text(net.addr),
        last_host: compressed_text(net.last_address_of() as u128),
    }
}

/// One level of a hierarchy: each network of the level above is split
/// into `num` subnets called `name`, whose prefix is `bits` longer.
#[derive(Clone, Debug, PartialEq, Eq)]
pub struct HierarchyLevel {
    pub name: String,
    pub num: u32,
    pub bits: u8,
}

/// A network in a hierarchy, with the networks it is split into.
#[derive(Debug, PartialEq, Eq)]
pub struct HierarchyNode {
    pub prefix: Ipv6Network,
    pub label: String,
    pub children: Vec<HierarchyNode>,
}

/// `a` and `b` are the same tree: the same network and the same label at
/// the root, and the same trees below it, in the same order.
pub open spec fn same_tree(a: HierarchyNode, b: HierarchyNode) -> bool
    decreases a,
{
    &&& a.prefix == b.prefix
    &&& a.label@ == b.label@
    &&& a.children@.len() == b.children@.len()
    &&& forall|i: int|
        0 <= i < a.children@.len() ==> same_tree(#[trigger] a.children@[i], b.children@[i])
}

impl Clone for HierarchyNode {
    /// A copy of the tree.
    fn clone(&self) -> (r: HierarchyNode)
        ensures
            same_tree(*self, r),
        decreases self,
    {
        let mut children: Vec<HierarchyNode> = Vec::new();
        let mut i: usize = 0;
        while i < self.children.len()
            invariant
                i <= self.children.len(),
                children.len() == i,
                forall|j: int|
                    0 <= j < i ==> same_tree(#[trigger] self.children@[j], children@[j]),
            decreases self.children.len() - i,
        {
            children.push(self.children[i].clone());
            i = i + 1;
        }
        HierarchyNode { prefix: self.prefix, label: self.label.clone(), children }
    }
}

/// A hierarchy: the levels it was built from, and its tree, whose root is
/// the base network.
#[derive(Clone, Debug, PartialEq, Eq)]
pub struct HierarchyResult {
    pub levels: Vec<HierarchyLevel>,
    pub tree: HierarchyNode,
}

/// The outcome of a calculation.
///
/// `subnets` lists the partition, or a sample of it where it is longer
/// than the limit; `total_subnets` is the number of subnets in the
/// partition, however many are listed.
#[derive(Clone, Debug, PartialEq, Eq)]
pub struct CalculationResult {
    pub base_network: Ipv6Network,
    pub summary: SubnetResult,
    pub subnets: Vec<SubnetResult>,
    pub new_prefix: Option<u8>,
    pub total_subnets: SubnetCount,
    pub hierarchy: Option<HierarchyResult>,
}

/// What a `CalculationResult` holds.
pub struct CalculationResultView {
    pub base_network: Ipv6Network,
    pub summary: SubnetResultView,
    pub subnets: Seq<SubnetResultView>,
    pub new_prefix: Option<u8>,
    pub total_subnets: nat,
    pub hierarchy: Option<HierarchyResult>,
}

impl View for CalculationResult {
    type V = CalculationResultView;

    open spec fn view(&self) -> CalculationResultView {
        CalculationResultView {
            base_network: self.base_network,
            summary: self.summary@,
            subnets: Seq::new(self.subnets.len() as nat, |i: int| self.subnets[i]@),
            new_prefix: self.new_prefix,
            total_subnets: self.total_subnets@,
            hierarchy: self.hierarchy,
        }
    }
}

} // verus!
