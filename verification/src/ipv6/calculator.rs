//! The IPv6 calculator: a network from text, the prefix length that a
//! sizing policy asks for, the subnets of the split, and hierarchies.

use crate::arith::{bits_needed, bits_needed_u64, lemma_bits_needed, lemma_pow2_128};
use crate::ipv6::address::{address_value, format_compressed, parse_addr};
use crate::ipv6::hierarchy::{build_hierarchy, hierarchy_error, is_hierarchy, leaf_count, leaves_from};
use crate::ipv6::types::{
    network_address_of, subnet_result_of, CalculationResult, CalculationResultView, HierarchyLevel,
    Ipv6InputError, Ipv6Network, SubnetCount, SubnetMode, SubnetResult,
};
use crate::sampling::{sample_index, sample_len};
use crate::text::{chars_of, prefix_length_value, read_prefix_length, trim, trimmed};
use vstd::arithmetic::power2::pow2;
use vstd::prelude::*;

pub use crate::ipv6::address::{expand_ipv6, get_addr_type, is_unicast_global};

verus! {

/// The largest number of subnets that a result lists.
pub const LIMIT: usize = 4096;

/// The number of subnets from the end of a partition that a result lists
/// where the partition is longer than `LIMIT`.
pub const LAST_N: usize = 10;

/// The prefix length that `s` states: a decimal number of at most 128,
/// with or without a slash before it.
pub open spec fn prefix_of_text(s: Seq<char>) -> Result<u8, Ipv6InputError> {
    match prefix_length_value(s) {
        Some(v) => if v <= 128 {
            Ok(v as u8)
        } else {
            Err(Ipv6InputError::InvalidPrefix)
        },
        None => Err(Ipv6InputError::InvalidPrefix),
    }
}

/// The network that an address text and a prefix text state: the address
/// cut to the prefix length.
pub open spec fn network_of_text(addr: Seq<char>, prefix: Seq<char>) -> Result<
    Ipv6Network,
    Ipv6InputError,
> {
    match address_value(addr) {
        None => Err(Ipv6InputError::MalformedAddress),
        Some(a) => match prefix_of_text(prefix) {
            Err(e) => Err(e),
            Ok(p) => Ok(
                Ipv6Network { addr: network_address_of(a as nat, p as nat) as u128, prefix: p },
            ),
        },
    }
}

/// Reads a prefix length, white space around it left aside.
pub fn parse_prefix(prefix_str: &str) -> (r: Result<u8, Ipv6InputError>)
    ensures
        r == prefix_of_text(trimmed(prefix_str@)),
        r matches Ok(p) ==> p <= 128,
{
    let chars = chars_of(trim(prefix_str));
    match read_prefix_length(&chars) {
        Some(v) => {
            if v <= 128 {
                Ok(v as u8)
            } else {
                Err(Ipv6InputError::InvalidPrefix)
            }
        },
        None => Err(Ipv6InputError::InvalidPrefix),
    }
}

/// Reads a network from the text of an address and the text of a prefix
/// length, white space around each left aside. The address is cut to the
/// prefix length.
pub fn parse_network(addr: &str, prefix_str: &str) -> (r: Result<Ipv6Network, Ipv6InputError>)
    ensures
        r == network_of_text(trimmed(addr@), trimmed(prefix_str@)),
        r matches Ok(net) ==> net.wf(),
{
    let a: u128 = match parse_addr(addr) {
        Some(a) => a,
        None => {
            return Err(Ipv6InputError::MalformedAddress);
        },
    };
    let p: u8 = match parse_prefix(prefix_str) {
        Ok(p) => p,
        Err(e) => {
            return Err(e);
        },
    };
    Ipv6Network::new(a, p)
}

/// The record that describes `net`.
pub fn build_subnet_result(net: Ipv6Network) -> (r: SubnetResult)
    requires
        net.wf(),
    ensures
        r@ == subnet_result_of(net),
{
    SubnetResult {
        network: net,
        compressed: format_compressed(net.addr),
        expanded: expand_ipv6(net.addr),
        addr_type: get_addr_type(net.addr),
        first_host: format_compressed(net.addr),
        last_host: format_compressed(net.last_address()),
    }
}

/// The prefix length of the split that the sizing policy asks for.
///
/// By subnets, the prefix grows by the fewest bits that tell
/// `needed_subnets` subnets apart; the number is given and not zero, and
/// the bits have to fit in the address. By prefix, the subnets have the
/// prefix length `child_prefix`, which is given, longer than that of the
/// base network, and at most 128. Otherwise there is no split.
pub open spec fn planned_prefix(
    base_prefix: nat,
    mode: SubnetMode,
    needed_subnets: Option<u32>,
    child_prefix: Option<u8>,
) -> Result<Option<u8>, Ipv6InputError> {
    match mode {
        SubnetMode::BySubnets => match needed_subnets {
            Some(count) => if count == 0 {
                Err(Ipv6InputError::InvalidCount)
            } else if base_prefix + bits_needed(count as nat) > 128 {
                Err(Ipv6InputError::CapacityExceeded)
            } else {
                Ok(Some((base_prefix + bits_needed(count as nat)) as u8))
            },
            None => Err(Ipv6InputError::InvalidCount),
        },
        SubnetMode::ByPrefix => match child_prefix {
            Some(p) => if base_prefix < p <= 128 {
                Ok(Some(p))
            } else {
                Err(Ipv6InputError::InvalidPrefix)
            },
            None => Err(Ipv6InputError::InvalidPrefix),
        },
        _ => Ok(None),
    }
}

/// Subnets planned for a number of subnets are enough: the prefix grows
/// by the fewest bits whose subnets number at least `count`.
pub proof fn lemma_planned_subnets_suffice(base_prefix: nat, count: u32, child_prefix: Option<u8>)
    requires
        base_prefix <= 128,
        planned_prefix(base_prefix, SubnetMode::BySubnets, Some(count), child_prefix) is Ok,
    ensures
        planned_prefix(base_prefix, SubnetMode::BySubnets, Some(count), child_prefix) matches Ok(
            Some(np),
        ) && base_prefix <= np <= 128 && pow2((np - base_prefix) as nat) >= count && (np
            > base_prefix ==> pow2((np - base_prefix - 1) as nat) < count),
{
    lemma_bits_needed(count as nat);
}

/// The prefix length of the split that the sizing policy asks for.
pub fn plan_prefix(
    base_prefix: u8,
    mode: SubnetMode,
    needed_subnets: Option<u32>,
    child_prefix: Option<u8>,
) -> (r: Result<Option<u8>, Ipv6InputError>)
    requires
        base_prefix <= 128,
    ensures
        r == planned_prefix(base_prefix as nat, mode, needed_subnets, child_prefix),
        r matches Ok(Some(np)) ==> base_prefix <= np <= 128,
{
    match mode {
        SubnetMode::BySubnets => match needed_subnets {
            Some(count) => {
                if count == 0 {
                    return Err(Ipv6InputError::InvalidCount);
                }
                let bits: u8 = bits_needed_u64(count as u64);
                if base_prefix + bits > 128 {
                    return Err(Ipv6InputError::CapacityExceeded);
                }
                Ok(Some(base_prefix + bits))
            },
            None => Err(Ipv6InputError::InvalidCount),
        },
        SubnetMode::ByPrefix => match child_prefix {
            Some(p) => {
                if base_prefix < p && p <= 128 {
                    Ok(Some(p))
                } else {
                    Err(Ipv6InputError::InvalidPrefix)
                }
            },
            None => Err(Ipv6InputError::InvalidPrefix),
        },
        _ => Ok(None),
    }
}

/// The subnets of prefix length `new_prefix` of `base`, all of them, in
/// ascending order of address.
pub open spec fn enumeration(base: Ipv6Network, new_prefix: nat) -> Seq<Ipv6Network> {
    Seq::new(pow2((new_prefix - base.prefix) as nat), |i: int| base.subnet_at(new_prefix, i as nat))
}

/// The subnets of prefix length `new_prefix` of `base` that a result
/// lists: all of them where they are at most `LIMIT`, and else the first
/// `LIMIT - LAST_N` and the last `LAST_N`.
pub open spec fn sampled(base: Ipv6Network, new_prefix: nat) -> Seq<Ipv6Network> {
    let total = pow2((new_prefix - base.prefix) as nat);
    Seq::new(
        sample_len(total, LIMIT as nat),
        |i: int| base.subnet_at(new_prefix, sample_index(total, LIMIT as nat, LAST_N as nat, i as nat)),
    )
}

/// A network split at a prefix no shorter than its own has `2` to the
/// power of the added bits subnets, and a result counts as many.
pub proof fn lemma_partition_size(base: Ipv6Network, new_prefix: u8)
    requires
        base.prefix <= new_prefix,
    ensures
        enumeration(base, new_prefix as nat).len() == pow2((new_prefix - base.prefix) as nat),
        calculation_of(base, Some(new_prefix)).total_subnets == pow2(
            (new_prefix - base.prefix) as nat,
        ),
{
}

/// A partition of at most `LIMIT` subnets is listed whole.
pub proof fn lemma_sampled_whole(base: Ipv6Network, new_prefix: nat)
    requires
        base.prefix <= new_prefix,
        pow2((new_prefix - base.prefix) as nat) <= LIMIT,
    ensures
        sampled(base, new_prefix) == enumeration(base, new_prefix),
{
}

/// Of a partition of more than `LIMIT` subnets, `LIMIT` are listed: the
/// first `LIMIT - LAST_N` positions hold the first subnets of the
/// partition, and the last `LAST_N` positions hold its last `LAST_N`
/// subnets, as they stand at the end of the partition counted out in
/// full.
pub proof fn lemma_sampled_ends(base: Ipv6Network, new_prefix: nat)
    requires
        base.prefix <= new_prefix,
        pow2((new_prefix - base.prefix) as nat) > LIMIT,
    ensures
        sampled(base, new_prefix).len() == LIMIT,
        sampled(base, new_prefix).subrange(0, LIMIT - LAST_N) == enumeration(
            base,
            new_prefix,
        ).subrange(0, LIMIT - LAST_N),
        sampled(base, new_prefix).subrange(LIMIT - LAST_N, LIMIT as int) == enumeration(
            base,
            new_prefix,
        ).subrange(
            pow2((new_prefix - base.prefix) as nat) - LAST_N,
            pow2((new_prefix - base.prefix) as nat) as int,
        ),
{
}

/// The index in a partition of `total` subnets of the subnet listed at
/// `position`.
pub fn listed_index(total: SubnetCount, position: usize) -> (r: u128)
    requires
        (position as nat) < sample_len(total@, LIMIT as nat),
    ensures
        r as nat == sample_index(total@, LIMIT as nat, LAST_N as nat, position as nat),
        (r as nat) < total@,
{
    proof {
        lemma_pow2_128();
    }
    match total {
        SubnetCount::Exact(n) => {
            if n <= LIMIT as u128 || position < LIMIT - LAST_N {
                position as u128
            } else {
                n - LIMIT as u128 + position as u128
            }
        },
        SubnetCount::TwoPow128 => {
            if position < LIMIT - LAST_N {
                position as u128
            } else {
                u128::MAX - (LIMIT - 1 - position) as u128
            }
        },
    }
}

/// The records of the subnets of prefix length `new_prefix` of `base`
/// that a result lists.
pub fn collect_subnets(base: Ipv6Network, new_prefix: u8) -> (r: Vec<SubnetResult>)
    requires
        base.wf(),
        base.prefix <= new_prefix <= 128,
    ensures
        r.len() == sampled(base, new_prefix as nat).len(),
        forall|i: int|
            0 <= i < r.len() ==> (#[trigger] r[i])@ == subnet_result_of(
                sampled(base, new_prefix as nat)[i],
            ),
{
    let total = base.subnet_count(new_prefix);
    let shown: usize = match total {
        SubnetCount::Exact(n) => if n <= LIMIT as u128 {
            n as usize
        } else {
            LIMIT
        },
        SubnetCount::TwoPow128 => LIMIT,
    };
    proof {
        lemma_pow2_128();
    }
    let mut subnets: Vec<SubnetResult> = Vec::new();
    let mut i: usize = 0;
    while i < shown
        invariant
            base.wf(),
            base.prefix <= new_prefix <= 128,
            total@ == pow2((new_prefix - base.prefix) as nat),
            shown as nat == sample_len(total@, LIMIT as nat),
            i <= shown,
            subnets.len() == i,
            forall|j: int|
                0 <= j < i ==> (#[trigger] subnets[j])@ == subnet_result_of(
                    sampled(base, new_prefix as nat)[j],
                ),
        decreases shown - i,
    {
        let net = base.subnet(new_prefix, listed_index(total, i));
        subnets.push(build_subnet_result(net));
        i = i + 1;
    }
    subnets
}

/// The result for the network `base` split at `new_prefix`, or left whole
/// where `new_prefix` is `None`: the base network, its record, the records
/// of the subnets that are listed, and the number of subnets in all. A
/// network left whole counts as one subnet and lists none.
pub open spec fn calculation_of(base: Ipv6Network, new_prefix: Option<u8>) -> CalculationResultView {
    CalculationResultView {
        base_network: base,
        summary: subnet_result_of(base),
        subnets: match new_prefix {
            Some(np) => Seq::new(
                sampled(base, np as nat).len(),
                |i: int| subnet_result_of(sampled(base, np as nat)[i]),
            ),
            None => Seq::empty(),
        },
        new_prefix,
        total_subnets: match new_prefix {
            Some(np) => pow2((np - base.prefix) as nat),
            None => 1,
        },
        hierarchy: None,
    }
}

/// `result` is what `calculate` returns for the base network `base`.
///
/// By hierarchy with at least one level, the levels are checked and the
/// tree is built: the result holds the hierarchy, lists no subnets and
/// counts none. In every other case the base network is split as
/// `planned_prefix` says.
pub open spec fn is_calculation(
    result: Result<CalculationResult, Ipv6InputError>,
    base: Ipv6Network,
    mode: SubnetMode,
    needed_subnets: Option<u32>,
    child_prefix: Option<u8>,
    levels: Seq<HierarchyLevel>,
) -> bool {
    if mode == SubnetMode::ByHierarchy && levels.len() > 0 {
        match hierarchy_error(base.prefix as nat, levels) {
            Some(e) => result matches Err(f) && f == e,
            None => {
                &&& result matches Ok(r)
                &&& r.hierarchy matches Some(h)
                &&& h.levels@ == levels
                &&& is_hierarchy(h.tree, base, "Root"@, levels, 0)
                &&& leaf_count(h.tree) == leaves_from(levels, 0)
                &&& r@ == CalculationResultView {
                    total_subnets: 0,
                    hierarchy: r.hierarchy,
                    ..calculation_of(base, None)
                }
            },
        }
    } else {
        match planned_prefix(base.prefix as nat, mode, needed_subnets, child_prefix) {
            Err(e) => result matches Err(f) && f == e,
            Ok(new_prefix) => result matches Ok(r) && r@ == calculation_of(base, new_prefix),
        }
    }
}

/// Describes the network that `addr` and `prefix_str` state and splits it
/// as `mode` asks: not at all, into at least `needed_subnets` subnets,
/// into subnets of prefix length `child_prefix`, or into the tree of
/// `hierarchy_levels`.
pub fn calculate(
    addr: &str,
    prefix_str: &str,
    mode: SubnetMode,
    needed_subnets: Option<u32>,
    child_prefix: Option<u8>,
    hierarchy_levels: Vec<HierarchyLevel>,
) -> (r: Result<CalculationResult, Ipv6InputError>)
    ensures
        match network_of_text(trimmed(addr@), trimmed(prefix_str@)) {
            Err(e) => r matches Err(f) && f == e,
            Ok(base) => is_calculation(
                r,
                base,
                mode,
                needed_subnets,
                child_prefix,
                hierarchy_levels@,
            ),
        },
        r matches Ok(result) ==> result.base_network.wf(),
{
    let base_network = match parse_network(addr, prefix_str) {
        Ok(net) => net,
        Err(e) => {
            return Err(e);
        },
    };
    let by_hierarchy: bool = match mode {
        SubnetMode::ByHierarchy => true,
        _ => false,
    };
    if by_hierarchy && hierarchy_levels.len() > 0 {
        let ghost levels = hierarchy_levels@;
        let hierarchy = match build_hierarchy(base_network, hierarchy_levels) {
            Ok(h) => h,
            Err(e) => {
                return Err(e);
            },
        };
        let result = CalculationResult {
            base_network,
            summary: build_subnet_result(base_network),
            subnets: Vec::new(),
            new_prefix: None,
            total_subnets: SubnetCount::Exact(0),
            hierarchy: Some(hierarchy),
        };
        assert(result@.subnets =~= calculation_of(base_network, None).subnets);
        return Ok(result);
    }
    let new_prefix = match plan_prefix(base_network.prefix, mode, needed_subnets, child_prefix) {
        Ok(np) => np,
        Err(e) => {
            return Err(e);
        },
    };
    let (subnets, total_subnets) = match new_prefix {
        Some(np) => (collect_subnets(base_network, np), base_network.subnet_count(np)),
        None => (Vec::new(), SubnetCount::Exact(1)),
    };
    let result = CalculationResult {
        base_network,
        summary: build_subnet_result(base_network),
        subnets,
        new_prefix,
        total_subnets,
        hierarchy: None,
    };
    assert(result@.subnets =~= calculation_of(base_network, new_prefix).subnets);
    Ok(result)
}

} // verus!
