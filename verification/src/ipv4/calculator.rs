//! The IPv4 calculator: a network from text, the prefix length that a
//! sizing policy asks for, and the subnets of the split.

use crate::arith::{
    bits_needed, bits_needed_u64, lemma_bits_needed, lemma_bits_needed_least, lemma_pow2_monotone,
};
use crate::ipv4::address::{dotted_quad_value, format_addr, parse_addr, parse_addr_chars};
use crate::ipv4::types::{
    netmask_of, network_address_of, subnet_result_of, usable_hosts_of, CalculationResult,
    CalculationResultView, Ipv4InputError, Ipv4Network, SubnetResult,
};
use crate::sampling::{sample_index, sample_len};
use crate::text::{chars_of, prefix_length_value, read_prefix_length, trim, trimmed};
use vstd::arithmetic::power2::{lemma2_to64, lemma_pow2_strictly_increases, pow2};
use vstd::prelude::*;

verus! {

/// The largest number of subnets that a result lists.
pub const LIMIT: usize = 8192;

/// The number of subnets from the end of a partition that a result lists
/// where the partition is longer than `LIMIT`.
pub const LAST_N: usize = 10;

/// The prefix length whose netmask is `mask`, if `mask` is a netmask: one
/// bits followed by zero bits.
pub open spec fn mask_prefix(mask: nat) -> Option<u8> {
    if exists|p: nat| p <= 32 && #[trigger] netmask_of(p) == mask {
        Some((choose|p: nat| p <= 32 && #[trigger] netmask_of(p) == mask) as u8)
    } else {
        None
    }
}

/// Two prefix lengths with the same netmask are the same.
pub proof fn lemma_netmask_injective(p: nat, q: nat)
    requires
        p <= 32,
        q <= 32,
        netmask_of(p) == netmask_of(q),
    ensures
        p == q,
{
    lemma_pow2_monotone((32 - p) as nat, 32);
    lemma_pow2_monotone((32 - q) as nat, 32);
    if p < q {
        lemma_pow2_strictly_increases((32 - q) as nat, (32 - p) as nat);
    }
    if q < p {
        lemma_pow2_strictly_increases((32 - p) as nat, (32 - q) as nat);
    }
}

/// The prefix length whose netmask is `mask`, if `mask` is a netmask.
pub fn prefix_of_mask(mask: u32) -> (r: Option<u8>)
    ensures
        r == mask_prefix(mask as nat),
        r matches Some(p) ==> p <= 32 && netmask_of(p as nat) == mask,
        r is None ==> forall|p: nat| p <= 32 ==> #[trigger] netmask_of(p) != mask,
{
    let mut p: u8 = 0;
    while p <= 32
        invariant
            p <= 33,
            forall|q: nat| q < p ==> #[trigger] netmask_of(q) != mask as nat,
        decreases 33 - p,
    {
        let net = Ipv4Network { addr: 0, prefix: p };
        if net.netmask() == mask {
            proof {
                let q = choose|q: nat| q <= 32 && #[trigger] netmask_of(q) == mask as nat;
                lemma_netmask_injective(p as nat, q);
            }
            return Some(p);
        }
        p = p + 1;
    }
    None
}

/// The prefix length that `s` states: a decimal prefix length of at most
/// 32, with or without a slash before it, or a netmask in dotted decimal.
pub open spec fn prefix_of_text(s: Seq<char>) -> Result<u8, Ipv4InputError> {
    match prefix_length_value(s) {
        Some(v) => if v <= 32 {
            Ok(v as u8)
        } else {
            Err(Ipv4InputError::InvalidPrefix)
        },
        None => match dotted_quad_value(s) {
            Some(mask) => match mask_prefix(mask as nat) {
                Some(p) => Ok(p),
                None => Err(Ipv4InputError::InvalidMask),
            },
            None => Err(Ipv4InputError::InvalidMask),
        },
    }
}

/// The network that an address text and a mask text state: the address
/// in dotted decimal, cut to the prefix length that the mask text states.
pub open spec fn network_of_text(ip: Seq<char>, mask: Seq<char>) -> Result<
    Ipv4Network,
    Ipv4InputError,
> {
    match dotted_quad_value(ip) {
        None => Err(Ipv4InputError::MalformedAddress),
        Some(addr) => match prefix_of_text(mask) {
            Err(e) => Err(e),
            Ok(prefix) => Ok(
                Ipv4Network {
                    addr: network_address_of(addr as nat, prefix as nat) as u32,
                    prefix,
                },
            ),
        },
    }
}

/// Reads a prefix length or a netmask, white space around it left aside.
pub fn parse_prefix(mask_or_prefix: &str) -> (r: Result<u8, Ipv4InputError>)
    ensures
        r == prefix_of_text(trimmed(mask_or_prefix@)),
        r matches Ok(p) ==> p <= 32,
{
    let chars = chars_of(trim(mask_or_prefix));
    match read_prefix_length(&chars) {
        Some(v) => {
            if v <= 32 {
                Ok(v as u8)
            } else {
                Err(Ipv4InputError::InvalidPrefix)
            }
        },
        None => match parse_addr_chars(&chars) {
            Some(mask) => match prefix_of_mask(mask) {
                Some(p) => Ok(p),
                None => Err(Ipv4InputError::InvalidMask),
            },
            None => Err(Ipv4InputError::InvalidMask),
        },
    }
}

/// Reads a network from the text of an address and the text of a prefix
/// length or netmask, white space around each left aside. The address is
/// cut to the prefix length.
pub fn parse_network(ip: &str, mask_or_prefix: &str) -> (r: Result<Ipv4Network, Ipv4InputError>)
    ensures
        r == network_of_text(trimmed(ip@), trimmed(mask_or_prefix@)),
        r matches Ok(net) ==> net.wf(),
{
    let addr: u32 = match parse_addr(trim(ip)) {
        Some(a) => a,
        None => {
            return Err(Ipv4InputError::MalformedAddress);
        },
    };
    let prefix: u8 = match parse_prefix(mask_or_prefix) {
        Ok(p) => p,
        Err(e) => {
            return Err(e);
        },
    };
    Ipv4Network::new(addr, prefix)
}

/// The record that describes `net`.
pub fn build_subnet_result(net: Ipv4Network) -> (r: SubnetResult)
    requires
        net.wf(),
    ensures
        r@ == subnet_result_of(net),
{
    let last_host: Option<String> = match net.last_host() {
        Some(a) => Some(format_addr(a)),
        None => None,
    };
    SubnetResult {
        network: net,
        netmask: format_addr(net.netmask()),
        wildcard: format_addr(net.wildcard()),
        broadcast: format_addr(net.broadcast()),
        first_host: Some(format_addr(net.first_host())),
        last_host,
        usable_hosts: net.usable_hosts(),
    }
}

/// The prefix length of the split that the sizing policy asks for.
///
/// With a number of hosts, each subnet is the smallest block of a power
/// of two of addresses that holds that many hosts and two more addresses;
/// the base network has to hold one such block. Otherwise, with a number
/// of subnets, the prefix grows by the fewest bits that tell that many
/// subnets apart; the number is not zero and the bits have to fit in the
/// address. With neither there is no split.
pub open spec fn planned_prefix(
    base_prefix: nat,
    needed_hosts: Option<u32>,
    needed_subnets: Option<u32>,
) -> Result<Option<u8>, Ipv4InputError> {
    match needed_hosts {
        Some(hosts) => if base_prefix >= 32 || hosts > usable_hosts_of(base_prefix) {
            Err(Ipv4InputError::CapacityExceeded)
        } else {
            Ok(Some((32 - bits_needed(hosts as nat + 2)) as u8))
        },
        None => match needed_subnets {
            Some(count) => if count == 0 {
                Err(Ipv4InputError::InvalidCount)
            } else if base_prefix + bits_needed(count as nat) > 32 {
                Err(Ipv4InputError::CapacityExceeded)
            } else {
                Ok(Some((base_prefix + bits_needed(count as nat)) as u8))
            },
            None => Ok(None),
        },
    }
}

/// Subnets planned for a number of hosts hold that many: the planned
/// prefix is no shorter than the base network's, its subnets have at
/// least `hosts` usable addresses, and, for one host or more, subnets of
/// a prefix one bit longer would have fewer.
pub proof fn lemma_planned_hosts_fit(base_prefix: nat, hosts: u32, needed_subnets: Option<u32>)
    requires
        base_prefix <= 32,
        planned_prefix(base_prefix, Some(hosts), needed_subnets) is Ok,
    ensures
        planned_prefix(base_prefix, Some(hosts), needed_subnets) matches Ok(Some(np)) && base_prefix
            <= np <= 31 && usable_hosts_of(np as nat) >= hosts && (hosts >= 1 ==> usable_hosts_of(
            (np + 1) as nat,
        ) < hosts),
{
    let need: nat = hosts as nat + 2;
    lemma2_to64();
    lemma_pow2_monotone(1, (32 - base_prefix) as nat);
    lemma_bits_needed_least(need, (32 - base_prefix) as nat);
    lemma_bits_needed(need);
    if bits_needed(need) < 1 {
        lemma_pow2_monotone(bits_needed(need), 0);
    }
    if hosts >= 1 && bits_needed(need) < 2 {
        lemma_pow2_monotone(bits_needed(need), 1);
    }
}

/// Subnets planned for a number of subnets are enough: the prefix grows
/// by the fewest bits whose subnets number at least `count`.
pub proof fn lemma_planned_subnets_suffice(base_prefix: nat, count: u32)
    requires
        base_prefix <= 32,
        planned_prefix(base_prefix, None, Some(count)) is Ok,
    ensures
        planned_prefix(base_prefix, None, Some(count)) matches Ok(Some(np)) && base_prefix <= np
            <= 32 && pow2((np - base_prefix) as nat) >= count && (np > base_prefix ==> pow2(
            (np - base_prefix - 1) as nat,
        ) < count),
{
    lemma_bits_needed(count as nat);
}

/// The prefix length of the split that the sizing policy asks for.
pub fn plan_prefix(base_prefix: u8, needed_hosts: Option<u32>, needed_subnets: Option<u32>) -> (r:
    Result<Option<u8>, Ipv4InputError>)
    requires
        base_prefix <= 32,
    ensures
        r == planned_prefix(base_prefix as nat, needed_hosts, needed_subnets),
        r matches Ok(Some(np)) ==> base_prefix <= np <= 32,
{
    match needed_hosts {
        Some(hosts) => {
            let base = Ipv4Network { addr: 0, prefix: base_prefix };
            if base_prefix >= 32 || hosts > base.usable_hosts() {
                return Err(Ipv4InputError::CapacityExceeded);
            }
            let bits: u8 = bits_needed_u64(hosts as u64 + 2);
            proof {
                lemma2_to64();
                lemma_pow2_monotone(1, (32 - base_prefix) as nat);
                lemma_bits_needed_least(hosts as nat + 2, (32 - base_prefix) as nat);
            }
            Ok(Some(32 - bits))
        },
        None => match needed_subnets {
            Some(count) => {
                if count == 0 {
                    return Err(Ipv4InputError::InvalidCount);
                }
                let bits: u8 = bits_needed_u64(count as u64);
                if base_prefix + bits > 32 {
                    return Err(Ipv4InputError::CapacityExceeded);
                }
                Ok(Some(base_prefix + bits))
            },
            None => Ok(None),
        },
    }
}

/// The subnets of prefix length `new_prefix` of `base`, all of them, in
/// ascending order of address.
pub open spec fn enumeration(base: Ipv4Network, new_prefix: nat) -> Seq<Ipv4Network> {
    Seq::new(pow2((new_prefix - base.prefix) as nat), |i: int| base.subnet_at(new_prefix, i as nat))
}

/// The subnets of prefix length `new_prefix` of `base` that a result
/// lists: all of them where they are at most `LIMIT`, and else the first
/// `LIMIT - LAST_N` and the last `LAST_N`.
pub open spec fn sampled(base: Ipv4Network, new_prefix: nat) -> Seq<Ipv4Network> {
    let total = pow2((new_prefix - base.prefix) as nat);
    Seq::new(
        sample_len(total, LIMIT as nat),
        |i: int| base.subnet_at(new_prefix, sample_index(total, LIMIT as nat, LAST_N as nat, i as nat)),
    )
}

/// A network split at a prefix no shorter than its own has `2` to the
/// power of the added bits subnets, and a result counts as many.
pub proof fn lemma_partition_size(base: Ipv4Network, new_prefix: u8)
    requires
        base.prefix <= new_prefix,
    ensures
        enumeration(base, new_prefix as nat).len() == pow2((new_prefix - base.prefix) as nat),
        calculation_of(base, Some(new_prefix)).total_subnets == pow2(
            (new_prefix - base.prefix) as nat,
        ),
{
}

/// A partition of at most `LIMIT` subnets is listed whole.
pub proof fn lemma_sampled_whole(base: Ipv4Network, new_prefix: nat)
    requires
        base.prefix <= new_prefix,
        pow2((new_prefix - base.prefix) as nat) <= LIMIT,
    ensures
        sampled(base, new_prefix) == enumeration(base, new_prefix),
{
}

/// Of a partition of more than `LIMIT` subnets, `LIMIT` are listed: the
/// first `LIMIT - LAST_N` positions hold the first subnets of the
/// partition, and the last `LAST_N` positions hold its last `LAST_N`
/// subnets, as they stand at the end of the partition counted out in
/// full.
pub proof fn lemma_sampled_ends(base: Ipv4Network, new_prefix: nat)
    requires
        base.prefix <= new_prefix,
        pow2((new_prefix - base.prefix) as nat) > LIMIT,
    ensures
        sampled(base, new_prefix).len() == LIMIT,
        sampled(base, new_prefix).subrange(0, LIMIT - LAST_N) == enumeration(
            base,
            new_prefix,
        ).subrange(0, LIMIT - LAST_N),
        sampled(base, new_prefix).subrange(LIMIT - LAST_N, LIMIT as int) == enumeration(
            base,
            new_prefix,
        ).subrange(
            pow2((new_prefix - base.prefix) as nat) - LAST_N,
            pow2((new_prefix - base.prefix) as nat) as int,
        ),
{
}

/// The index in a partition of `total` subnets of the subnet listed at
/// `position`.
pub fn listed_index(total: u64, position: usize) -> (r: u64)
    requires
        (position as nat) < sample_len(total as nat, LIMIT as nat),
    ensures
        r as nat == sample_index(total as nat, LIMIT as nat, LAST_N as nat, position as nat),
        r < total,
{
    if total <= LIMIT as u64 || position < LIMIT - LAST_N {
        position as u64
    } else {
        total - LIMIT as u64 + position as u64
    }
}

/// The records of the subnets of prefix length `new_prefix` of `base`
/// that a result lists.
pub fn collect_subnets(base: Ipv4Network, new_prefix: u8) -> (r: Vec<SubnetResult>)
    requires
        base.wf(),
        base.prefix <= new_prefix <= 32,
    ensures
        r.len() == sampled(base, new_prefix as nat).len(),
        forall|i: int|
            0 <= i < r.len() ==> (#[trigger] r[i])@ == subnet_result_of(
                sampled(base, new_prefix as nat)[i],
            ),
{
    let total: u64 = base.subnet_count(new_prefix);
    let shown: usize = if total <= LIMIT as u64 {
        total as usize
    } else {
        LIMIT
    };
    let mut subnets: Vec<SubnetResult> = Vec::new();
    let mut i: usize = 0;
    while i < shown
        invariant
            base.wf(),
            base.prefix <= new_prefix <= 32,
            total as nat == pow2((new_prefix - base.prefix) as nat),
            shown as nat == sample_len(total as nat, LIMIT as nat),
            i <= shown,
            subnets.len() == i,
            forall|j: int|
                0 <= j < i ==> (#[trigger] subnets[j])@ == subnet_result_of(
                    sampled(base, new_prefix as nat)[j],
                ),
        decreases shown - i,
    {
        let net = base.subnet(new_prefix, listed_index(total, i));
        subnets.push(build_subnet_result(net));
        i = i + 1;
    }
    subnets
}

/// The result for the network `base` split at `new_prefix`, or left whole
/// where `new_prefix` is `None`: the base network, its record, the records
/// of the subnets that are listed, and the number of subnets in all.
pub open spec fn calculation_of(base: Ipv4Network, new_prefix: Option<u8>) -> CalculationResultView {
    let np: nat = match new_prefix {
        Some(p) => p as nat,
        None => base.prefix as nat,
    };
    CalculationResultView {
        base_network: base,
        summary: subnet_result_of(base),
        subnets: Seq::new(
            sampled(base, np).len(),
            |i: int| subnet_result_of(sampled(base, np)[i]),
        ),
        new_prefix,
        total_subnets: pow2((np - base.prefix) as nat),
    }
}

/// What `calculate` returns for the trimmed texts `ip` and `mask` and a
/// sizing policy.
pub open spec fn calculated(
    ip: Seq<char>,
    mask: Seq<char>,
    needed_hosts: Option<u32>,
    needed_subnets: Option<u32>,
) -> Result<CalculationResultView, Ipv4InputError> {
    match network_of_text(ip, mask) {
        Err(e) => Err(e),
        Ok(base) => match planned_prefix(base.prefix as nat, needed_hosts, needed_subnets) {
            Err(e) => Err(e),
            Ok(new_prefix) => Ok(calculation_of(base, new_prefix)),
        },
    }
}

/// Describes the network that `ip` and `mask_or_prefix` state and splits
/// it as the sizing policy asks: into subnets that hold `needed_hosts`
/// hosts each where that is given, else into at least `needed_subnets`
/// subnets where that is given, else not at all.
pub fn calculate(
    ip: &str,
    mask_or_prefix: &str,
    needed_hosts: Option<u32>,
    needed_subnets: Option<u32>,
) -> (r: Result<CalculationResult, Ipv4InputError>)
    ensures
        match calculated(
            trimmed(ip@),
            trimmed(mask_or_prefix@),
            needed_hosts,
            needed_subnets,
        ) {
            Ok(view) => r matches Ok(result) && result@ == view,
            Err(e) => r matches Err(f) && f == e,
        },
        r matches Ok(result) ==> result.base_network.wf(),
{
    let base_network = match parse_network(ip, mask_or_prefix) {
        Ok(net) => net,
        Err(e) => {
            return Err(e);
        },
    };
    let new_prefix = match plan_prefix(base_network.prefix, needed_hosts, needed_subnets) {
        Ok(np) => np,
        Err(e) => {
            return Err(e);
        },
    };
    let split_prefix: u8 = match new_prefix {
        Some(p) => p,
        None => base_network.prefix,
    };
    let subnets = collect_subnets(base_network, split_prefix);
    let result = CalculationResult {
        base_network,
        summary: build_subnet_result(base_network),
        subnets,
        new_prefix,
        total_subnets: base_network.subnet_count(split_prefix),
    };
    assert(result@.subnets =~= calculation_of(base_network, new_prefix).subnets);
    Ok(result)
}

} // verus!
