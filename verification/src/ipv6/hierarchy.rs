//! Hierarchies: a base network split level by level into a tree.
//!
//! Each level names its members, says how many of them every network of
//! the level above is split into, and how many bits longer their prefix
//! is. The tree's root is the base network; the networks of the last
//! level are its leaves.

use crate::arith::{lemma_pow2_monotone, pow2_u64};
use crate::ipv6::types::{HierarchyLevel, HierarchyNode, HierarchyResult, Ipv6InputError, Ipv6Network};
use crate::text::{capped, decimal_text, push_decimal};
use vstd::arithmetic::power2::{lemma2_to64, pow2};
use vstd::prelude::*;
use vstd::string::StringExecFns;

verus! {

/// The largest number of leaves that a hierarchy may have.
pub const MAX_USABLE_SUBNETS: u64 = 65_536;

/// The level has more members than its bits can tell apart.
pub open spec fn level_short(level: HierarchyLevel) -> bool {
    level.num as nat > pow2(level.bits as nat)
}

/// The bits that the levels from `from` on take together.
pub open spec fn bits_from(levels: Seq<HierarchyLevel>, from: nat) -> nat
    decreases levels.len() - from,
{
    if from >= levels.len() {
        0
    } else {
        levels[from as int].bits as nat + bits_from(levels, from + 1)
    }
}

/// The product of the numbers of members of the levels from `from` on:
/// the number of leaves below one network of level `from`.
pub open spec fn leaves_from(levels: Seq<HierarchyLevel>, from: nat) -> nat
    decreases levels.len() - from,
{
    if from >= levels.len() {
        1
    } else {
        levels[from as int].num as nat * leaves_from(levels, from + 1)
    }
}

/// The longest prefix that a level may reach: 64 bits, so that the
/// interface identifier stays whole, where the base network's prefix is
/// no longer than that, and 128 bits otherwise.
pub open spec fn prefix_cap(base_prefix: nat) -> nat {
    if base_prefix <= 64 {
        64
    } else {
        128
    }
}

/// Why the levels cannot be built below a base network of prefix length
/// `base_prefix`, or `None` where they can.
///
/// The bits are insufficient where a level has more members than its
/// bits can tell apart, or where the levels together reach past the
/// longest prefix allowed. Failing that, a level of no members is an
/// invalid count. Failing that, the leaves are too many where their
/// number is above `MAX_USABLE_SUBNETS`.
pub open spec fn hierarchy_error(base_prefix: nat, levels: Seq<HierarchyLevel>) -> Option<
    Ipv6InputError,
> {
    if (exists|i: int| 0 <= i < levels.len() && level_short(#[trigger] levels[i])) || base_prefix
        + bits_from(levels, 0) > prefix_cap(base_prefix) {
        Some(Ipv6InputError::InsufficientBits)
    } else if exists|i: int| 0 <= i < levels.len() && (#[trigger] levels[i]).num == 0 {
        Some(Ipv6InputError::InvalidCount)
    } else if leaves_from(levels, 0) > MAX_USABLE_SUBNETS {
        Some(Ipv6InputError::TooManySubnets)
    } else {
        None
    }
}

/// Below a base network whose prefix is at most 64 bits long, the bits
/// are insufficient whenever a level has more members than two to the
/// power of its bits, or the levels together take more than the bits that
/// are left of the first 64.
pub proof fn lemma_insufficient_bits(base_prefix: nat, levels: Seq<HierarchyLevel>, i: int)
    requires
        base_prefix <= 64,
        (0 <= i < levels.len() && levels[i].num as nat > pow2(levels[i].bits as nat)) || bits_from(
            levels,
            0,
        ) > 64 - base_prefix,
    ensures
        hierarchy_error(base_prefix, levels) == Some(Ipv6InputError::InsufficientBits),
{
    if 0 <= i < levels.len() && levels[i].num as nat > pow2(levels[i].bits as nat) {
        assert(level_short(levels[i]));
    }
}

/// The label of the member at `index`, counted from 0, of a level called
/// `name`: the name, a space, and the member's place counted from 1.
pub open spec fn child_label(name: Seq<char>, index: nat) -> Seq<char> {
    name + seq![' '] + decimal_text(index + 1)
}

/// `node` is the tree of the network `net`, labelled `label`, for the
/// levels from `depth` on: it has no children where no level is left, and
/// else as many as the level at `depth` has members, the child at `i`
/// being the tree, for the levels after, of the subnet at `i` with the
/// level's bits more of prefix.
pub open spec fn is_hierarchy(
    node: HierarchyNode,
    net: Ipv6Network,
    label: Seq<char>,
    levels: Seq<HierarchyLevel>,
    depth: nat,
) -> bool
    decreases levels.len() - depth,
{
    &&& node.prefix == net
    &&& node.label@ == label
    &&& if depth >= levels.len() {
        node.children@.len() == 0
    } else {
        &&& node.children@.len() == levels[depth as int].num
        &&& forall|i: int|
            0 <= i < node.children@.len() ==> is_hierarchy(
                #[trigger] node.children@[i],
                net.subnet_at((net.prefix + levels[depth as int].bits) as nat, i as nat),
                child_label(levels[depth as int].name@, i as nat),
                levels,
                depth + 1,
            )
    }
}

/// The number of leaves of the tree `node`: of the networks in it that
/// are not split.
pub open spec fn leaf_count(node: HierarchyNode) -> nat
    decreases node, 0nat,
{
    if node.children@.len() == 0 {
        1
    } else {
        leaves_of(node.children@, node.children@.len())
    }
}

/// The number of leaves of the first `n` of the trees `nodes`.
pub open spec fn leaves_of(nodes: Seq<HierarchyNode>, n: nat) -> nat
    decreases nodes, n,
{
    if n == 0 || n > nodes.len() {
        0
    } else {
        leaves_of(nodes, (n - 1) as nat) + leaf_count(nodes[n - 1])
    }
}

/// The first `n` of the trees `nodes` have `n * each` leaves where every
/// one of them has `each`.
proof fn lemma_leaves_of_equal(nodes: Seq<HierarchyNode>, n: nat, each: nat)
    requires
        n <= nodes.len(),
        forall|i: int| 0 <= i < n ==> leaf_count(#[trigger] nodes[i]) == each,
    ensures
        leaves_of(nodes, n) == n * each,
    decreases n,
{
    if n > 0 {
        lemma_leaves_of_equal(nodes, (n - 1) as nat, each);
        assert(leaf_count(nodes[n - 1]) == each);
        assert((n - 1) * each + each == n * each) by (nonlinear_arith);
    } else {
        assert(n * each == 0) by (nonlinear_arith)
            requires
                n == 0,
        ;
    }
}

/// A tree built for levels that all have members has as many leaves as
/// the product of the numbers of members of its levels.
pub proof fn lemma_leaf_count(
    node: HierarchyNode,
    net: Ipv6Network,
    label: Seq<char>,
    levels: Seq<HierarchyLevel>,
    depth: nat,
)
    requires
        is_hierarchy(node, net, label, levels, depth),
        forall|i: int| depth <= i < levels.len() ==> (#[trigger] levels[i]).num >= 1,
    ensures
        leaf_count(node) == leaves_from(levels, depth),
    decreases levels.len() - depth,
{
    if depth < levels.len() {
        let level = levels[depth as int];
        let each = leaves_from(levels, depth + 1);
        assert forall|i: int| 0 <= i < node.children@.len() implies leaf_count(
            #[trigger] node.children@[i],
        ) == each by {
            lemma_leaf_count(
                node.children@[i],
                net.subnet_at((net.prefix + level.bits) as nat, i as nat),
                child_label(level.name@, i as nat),
                levels,
                depth + 1,
            );
        }
        lemma_leaves_of_equal(node.children@, node.children@.len(), each);
    }
}

/// Whether the level has more members than its bits can tell apart.
fn is_level_short(level: &HierarchyLevel) -> (r: bool)
    ensures
        r == level_short(*level),
{
    if level.bits >= 32 {
        proof {
            lemma2_to64();
            lemma_pow2_monotone(32, level.bits as nat);
        }
        false
    } else {
        level.num as u64 > pow2_u64(level.bits)
    }
}

/// Checks that the levels can be built below a base network of prefix
/// length `base_prefix`.
pub fn check_levels(base_prefix: u8, levels: &Vec<HierarchyLevel>) -> (r: Result<
    (),
    Ipv6InputError,
>)
    requires
        base_prefix <= 128,
    ensures
        match hierarchy_error(base_prefix as nat, levels@) {
            Some(e) => r == Err::<(), Ipv6InputError>(e),
            None => r is Ok,
        },
{
    let mut k: usize = levels.len();
    let mut bits: u32 = 0;
    let mut leaves: u64 = 1;
    let mut empty_level: bool = false;
    while k > 0
        invariant
            k <= levels.len(),
            bits as nat == capped(bits_from(levels@, k as nat), 128),
            leaves as nat == capped(leaves_from(levels@, k as nat), MAX_USABLE_SUBNETS as nat),
            forall|i: int| k <= i < levels.len() ==> !level_short(#[trigger] levels@[i]),
            empty_level <==> exists|i: int| k <= i < levels.len() && (#[trigger] levels@[i]).num == 0,
        decreases k,
    {
        k = k - 1;
        let level = &levels[k];
        if is_level_short(level) {
            return Err(Ipv6InputError::InsufficientBits);
        }
        if level.num == 0 {
            empty_level = true;
        }
        bits = bits + level.bits as u32;
        if bits > 128 {
            bits = 129;
        }
        proof {
            let rest = leaves_from(levels@, (k + 1) as nat);
            if rest > MAX_USABLE_SUBNETS && level.num >= 1 {
                assert(level.num * rest > MAX_USABLE_SUBNETS) by (nonlinear_arith)
                    requires
                        rest > MAX_USABLE_SUBNETS,
                        level.num >= 1,
                ;
                assert(level.num * leaves > MAX_USABLE_SUBNETS) by (nonlinear_arith)
                    requires
                        leaves > MAX_USABLE_SUBNETS,
                        level.num >= 1,
                ;
            }
            if level.num == 0 {
                assert(level.num * rest == 0) by (nonlinear_arith)
                    requires
                        level.num == 0,
                ;
            }
            assert(level.num * leaves <= 0xffff_ffff * 65_537) by (nonlinear_arith)
                requires
                    level.num <= 0xffff_ffff,
                    leaves <= 65_537,
            ;
        }
        leaves = level.num as u64 * leaves;
        if leaves > MAX_USABLE_SUBNETS {
            leaves = MAX_USABLE_SUBNETS + 1;
        }
    }
    let cap: u32 = if base_prefix <= 64 {
        64
    } else {
        128
    };
    if base_prefix as u32 + bits > cap {
        Err(Ipv6InputError::InsufficientBits)
    } else if empty_level {
        Err(Ipv6InputError::InvalidCount)
    } else if leaves > MAX_USABLE_SUBNETS {
        Err(Ipv6InputError::TooManySubnets)
    } else {
        Ok(())
    }
}

/// The label of the member at `index`, counted from 0, of a level called
/// `name`.
pub fn label_of(name: &String, index: u32) -> (r: String)
    ensures
        r@ == child_label(name@, index as nat),
{
    let mut label = name.clone();
    label.push(' ');
    push_decimal(&mut label, index as u128 + 1);
    label
}

/// Builds the tree of the network `net`, labelled `label`, for the levels
/// from `depth` on.
pub fn build_node(net: Ipv6Network, label: String, levels: &Vec<HierarchyLevel>, depth: usize) -> (node:
    HierarchyNode)
    requires
        net.wf(),
        depth <= levels.len(),
        net.prefix + bits_from(levels@, depth as nat) <= 128,
        forall|i: int| depth <= i < levels.len() ==> !level_short(#[trigger] levels@[i]),
    ensures
        is_hierarchy(node, net, label@, levels@, depth as nat),
    decreases levels.len() - depth,
{
    let mut children: Vec<HierarchyNode> = Vec::new();
    if depth < levels.len() {
        let level = &levels[depth];
        let child_prefix: u8 = net.prefix + level.bits;
        let mut i: u32 = 0;
        while i < level.num
            invariant
                net.wf(),
                depth < levels.len(),
                *level == levels@[depth as int],
                child_prefix == net.prefix + level.bits,
                child_prefix as nat + bits_from(levels@, (depth + 1) as nat) <= 128,
                forall|j: int| depth <= j < levels.len() ==> !level_short(#[trigger] levels@[j]),
                i <= level.num,
                children@.len() == i,
                forall|j: int|
                    0 <= j < i ==> is_hierarchy(
                        #[trigger] children@[j],
                        net.subnet_at(child_prefix as nat, j as nat),
                        child_label(level.name@, j as nat),
                        levels@,
                        (depth + 1) as nat,
                    ),
            decreases level.num - i,
        {
            assert(!level_short(levels@[depth as int]));
            let child_net = net.subnet(child_prefix, i as u128);
            let child = build_node(child_net, label_of(&level.name, i), levels, depth + 1);
            children.push(child);
            i = i + 1;
        }
    }
    HierarchyNode { prefix: net, label, children }
}

/// Builds the hierarchy of `levels` below the network `base`.
///
/// The root of the tree is `base`, labelled `Root`. The hierarchy is
/// refused where `hierarchy_error` says why; where it is built, its tree
/// has as many leaves as the product of the numbers of members of the
/// levels.
pub fn build_hierarchy(base: Ipv6Network, levels: Vec<HierarchyLevel>) -> (r: Result<
    HierarchyResult,
    Ipv6InputError,
>)
    requires
        base.wf(),
    ensures
        match hierarchy_error(base.prefix as nat, levels@) {
            Some(e) => r == Err::<HierarchyResult, Ipv6InputError>(e),
            None => r matches Ok(h) && h.levels == levels && is_hierarchy(
                h.tree,
                base,
                "Root"@,
                levels@,
                0,
            ) && leaf_count(h.tree) == leaves_from(levels@, 0),
        },
{
    match check_levels(base.prefix, &levels) {
        Err(e) => {
            return Err(e);
        },
        Ok(_) => {},
    }
    let tree = build_node(base, String::from_str("Root"), &levels, 0);
    proof {
        lemma_leaf_count(tree, base, "Root"@, levels@, 0);
    }
    Ok(HierarchyResult { levels, tree })
}

} // verus!
