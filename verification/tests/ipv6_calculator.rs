use subnet_calculator::ipv6::address::{classify, parse_addr, AddressCategory};
use subnet_calculator::ipv6::calculator::{
    calculate, collect_subnets, expand_ipv6, get_addr_type, is_unicast_global, listed_index,
    parse_network, parse_prefix, plan_prefix, LAST_N, LIMIT,
};
use subnet_calculator::ipv6::hierarchy::{build_hierarchy, check_levels, label_of, MAX_USABLE_SUBNETS};
use subnet_calculator::ipv6::types::{
    prefix_options, HierarchyLevel, HierarchyNode, Ipv6InputError, Ipv6Network, SubnetCount,
    SubnetMode,
};

const DOC: u128 = 0x2001_0db8_0000_0000_0000_0000_0000_0000;

fn level(name: &str, num: u32, bits: u8) -> HierarchyLevel {
    HierarchyLevel { name: name.to_string(), num, bits }
}

fn leaves(node: &HierarchyNode) -> u64 {
    if node.children.is_empty() {
        1
    } else {
        node.children.iter().map(leaves).sum()
    }
}

fn addr(text: &str) -> u128 {
    parse_addr(text).unwrap()
}

#[test]
fn three_hundred_subnets_in_a_48_need_nine_bits() {
    let r = calculate("2001:db8::", "/48", SubnetMode::BySubnets, Some(300), None, vec![]).unwrap();
    assert_eq!(r.base_network, Ipv6Network { addr: DOC, prefix: 48 });
    assert_eq!(r.new_prefix, Some(57));
    assert_eq!(r.total_subnets, SubnetCount::Exact(512));
    assert_eq!(r.subnets.len(), 512);
    assert_eq!(r.subnets[1].network, Ipv6Network { addr: DOC + (1u128 << 71), prefix: 57 });
    assert_eq!(r.subnets[1].compressed, "2001:db8:0:80::");
    assert_eq!(r.subnets[511].compressed, "2001:db8:0:ff80::");
    assert_eq!(r.subnets[511].last_host, "2001:db8:0:ffff:ffff:ffff:ffff:ffff");
    assert!(r.hierarchy.is_none());
}

#[test]
fn inspect_describes_the_base_network_and_lists_nothing() {
    let r = calculate("2001:db8::", "/48", SubnetMode::Inspect, None, None, vec![]).unwrap();
    assert_eq!(r.summary.network, Ipv6Network { addr: DOC, prefix: 48 });
    assert_eq!(r.summary.compressed, "2001:db8::");
    assert_eq!(r.summary.expanded, "2001:0db8:0000:0000:0000:0000:0000:0000");
    assert_eq!(r.summary.addr_type, "Other");
    assert_eq!(r.summary.first_host, "2001:db8::");
    assert_eq!(r.summary.last_host, "2001:db8:0:ffff:ffff:ffff:ffff:ffff");
    assert_eq!(r.new_prefix, None);
    assert_eq!(r.total_subnets, SubnetCount::Exact(1));
    assert!(r.subnets.is_empty());
    assert!(r.hierarchy.is_none());
}

#[test]
fn classifier_vectors() {
    assert_eq!(get_addr_type(addr("::")), "Unspecified");
    assert_eq!(get_addr_type(addr("::1")), "Loopback");
    assert_eq!(get_addr_type(addr("fc00::1")), "Unique Local");
    assert_eq!(get_addr_type(addr("fdff:ffff::1")), "Unique Local");
    assert_eq!(get_addr_type(addr("fe80::1")), "Link-Local");
    assert_eq!(get_addr_type(addr("febf::1")), "Link-Local");
    assert_eq!(get_addr_type(addr("fec0::1")), "Other");
    assert_eq!(get_addr_type(addr("ff00::1")), "Multicast");
    assert_eq!(get_addr_type(addr("ff02::1")), "Multicast");
    assert_eq!(get_addr_type(addr("2001:db8::1")), "Other");
    assert_eq!(get_addr_type(addr("2001:4860:4860::8888")), "Global Unicast");
    assert_eq!(get_addr_type(addr("2000::")), "Global Unicast");
    assert_eq!(get_addr_type(addr("3fff:1000::")), "Global Unicast");
    assert_eq!(get_addr_type(addr("3fff:0fff:ffff::1")), "Other");
    assert_eq!(get_addr_type(addr("3fff:0100::")), "Other");
    assert_eq!(get_addr_type(addr("3fff::")), "Other");
    assert_eq!(get_addr_type(addr("2001:2::1")), "Other");
    assert_eq!(get_addr_type(addr("2001:2:1::1")), "Global Unicast");
    assert_eq!(get_addr_type(addr("2002::1")), "Other");
    assert_eq!(get_addr_type(addr("2002:ffff::1")), "Other");
    assert_eq!(get_addr_type(addr("2001::1")), "Other");
    assert_eq!(get_addr_type(addr("2001:0:ffff::1")), "Other");
    assert_eq!(get_addr_type(addr("2001:1::1")), "Global Unicast");
    assert_eq!(get_addr_type(addr("4000::1")), "Other");
    assert_eq!(get_addr_type(addr("1fff::1")), "Other");
    assert_eq!(get_addr_type(addr("::2")), "Other");
    assert_eq!(classify(1), AddressCategory::Loopback);
    assert_eq!(classify(0), AddressCategory::Unspecified);
    assert_eq!(classify(u128::MAX), AddressCategory::Multicast);
    assert_eq!(AddressCategory::GlobalUnicast.name(), "Global Unicast");
    assert!(is_unicast_global(addr("2001:4860:4860::8888")));
    assert!(!is_unicast_global(addr("2001:db8::1")));
    assert!(!is_unicast_global(addr("fe80::1")));
}

#[test]
fn the_classifier_agrees_with_the_range_checks_of_each_group() {
    for seg0 in [0u128, 1, 0x2000, 0x2001, 0x2002, 0x3ffe, 0x3fff, 0x4000, 0xfbff, 0xfc00, 0xfdff,
        0xfe00, 0xfe7f, 0xfe80, 0xfebf, 0xfec0, 0xfeff, 0xff00, 0xffff]
    {
        for seg1 in [0u128, 1, 2, 3, 0x0db7, 0x0db8, 0x0db9, 0x0fff, 0x1000, 0xffff] {
            for seg2 in [0u128, 1, 0xffff] {
                let a: u128 = (seg0 << 112) | (seg1 << 96) | (seg2 << 80) | 5;
                let set_aside = (seg0 == 0x2001 && seg1 == 0x0db8)
                    || (seg0 == 0x3fff && (seg1 & 0xf000) == 0)
                    || (seg0 == 0x2001 && seg1 == 2 && seg2 == 0)
                    || seg0 == 0x2002
                    || (seg0 == 0x2001 && seg1 == 0);
                let expected = if (seg0 & 0xfe00) == 0xfc00 {
                    "Unique Local"
                } else if (seg0 & 0xffc0) == 0xfe80 {
                    "Link-Local"
                } else if (seg0 & 0xff00) == 0xff00 {
                    "Multicast"
                } else if !set_aside && (seg0 & 0xe000) == 0x2000 {
                    "Global Unicast"
                } else {
                    "Other"
                };
                assert_eq!(get_addr_type(a), expected, "{:x}", a);
            }
        }
    }
}

#[test]
fn the_expanded_form_writes_every_group_in_full() {
    assert_eq!(expand_ipv6(0), "0000:0000:0000:0000:0000:0000:0000:0000");
    assert_eq!(expand_ipv6(1), "0000:0000:0000:0000:0000:0000:0000:0001");
    assert_eq!(expand_ipv6(u128::MAX), "ffff:ffff:ffff:ffff:ffff:ffff:ffff:ffff");
    assert_eq!(
        expand_ipv6(0x2001_0db8_85a3_0000_0000_8a2e_0370_7334),
        "2001:0db8:85a3:0000:0000:8a2e:0370:7334"
    );
    assert_eq!(
        expand_ipv6(0x0123_4567_89ab_cdef_fedc_ba98_7654_3210),
        "0123:4567:89ab:cdef:fedc:ba98:7654:3210"
    );
}

#[test]
fn addresses_are_read_in_every_form() {
    assert_eq!(parse_addr("::"), Some(0));
    assert_eq!(parse_addr("  ::1 "), Some(1));
    assert_eq!(parse_addr("2001:db8::"), Some(DOC));
    assert_eq!(parse_addr("2001:DB8:0:0:0:0:0:1"), Some(DOC + 1));
    assert_eq!(parse_addr("::ffff:1.2.3.4"), Some(0xffff_0102_0304));
    assert_eq!(parse_addr("ffff:ffff:ffff:ffff:ffff:ffff:ffff:ffff"), Some(u128::MAX));
    for text in ["", ":", ":::", "2001:db8::g", "1.2.3.4", "2001:db8::/48", "1:2:3:4:5:6:7",
        "1:2:3:4:5:6:7:8:9", "12345::", "2001:db8:: 1", "::1/128"]
    {
        assert_eq!(parse_addr(text), None, "{}", text);
        assert_eq!(parse_network(text, "64"), Err(Ipv6InputError::MalformedAddress));
        assert_eq!(
            calculate(text, "64", SubnetMode::Inspect, None, None, vec![]),
            Err(Ipv6InputError::MalformedAddress)
        );
    }
}

#[test]
fn ipv6_the_address_is_cut_to_the_prefix() {
    assert_eq!(
        parse_network("2001:db8:1234:5678::1", "/32"),
        Ok(Ipv6Network { addr: DOC, prefix: 32 })
    );
    assert_eq!(parse_network("ffff::1", "0"), Ok(Ipv6Network { addr: 0, prefix: 0 }));
    assert_eq!(parse_network("::1", " 128 "), Ok(Ipv6Network { addr: 1, prefix: 128 }));
    assert_eq!(Ipv6Network::new(u128::MAX, 127), Ok(Ipv6Network { addr: u128::MAX - 1, prefix: 127 }));
    assert_eq!(Ipv6Network::new(0, 129), Err(Ipv6InputError::InvalidPrefix));
}

#[test]
fn a_prefix_that_is_no_length_is_refused() {
    for prefix in ["129", "/129", "", "/", "abc", "64a", "-1", "ffff::", "99999999999999999999999"] {
        assert_eq!(parse_prefix(prefix), Err(Ipv6InputError::InvalidPrefix), "{}", prefix);
        assert_eq!(parse_network("2001:db8::", prefix), Err(Ipv6InputError::InvalidPrefix));
    }
    assert_eq!(parse_prefix("128"), Ok(128));
    assert_eq!(parse_prefix("/0"), Ok(0));
    assert_eq!(parse_prefix("0064"), Ok(64));
}

#[test]
fn a_child_prefix_has_to_be_longer_than_the_base() {
    let by_prefix = |child: Option<u8>| {
        calculate("2001:db8::", "48", SubnetMode::ByPrefix, None, child, vec![])
    };
    assert_eq!(by_prefix(None), Err(Ipv6InputError::InvalidPrefix));
    assert_eq!(by_prefix(Some(48)), Err(Ipv6InputError::InvalidPrefix));
    assert_eq!(by_prefix(Some(47)), Err(Ipv6InputError::InvalidPrefix));
    assert_eq!(by_prefix(Some(129)), Err(Ipv6InputError::InvalidPrefix));
    let r = by_prefix(Some(49)).unwrap();
    assert_eq!(r.new_prefix, Some(49));
    assert_eq!(r.total_subnets, SubnetCount::Exact(2));
    assert_eq!(r.subnets.len(), 2);
    assert_eq!(r.subnets[1].compressed, "2001:db8:0:8000::");
    let r = by_prefix(Some(128)).unwrap();
    assert_eq!(r.total_subnets, SubnetCount::Exact(1u128 << 80));
    assert_eq!(r.subnets.len(), LIMIT);
}

#[test]
fn a_count_that_is_missing_or_zero_is_refused() {
    let by_subnets = |count: Option<u32>| {
        calculate("2001:db8::", "48", SubnetMode::BySubnets, count, None, vec![])
    };
    assert_eq!(by_subnets(None), Err(Ipv6InputError::InvalidCount));
    assert_eq!(by_subnets(Some(0)), Err(Ipv6InputError::InvalidCount));
    let r = by_subnets(Some(1)).unwrap();
    assert_eq!(r.new_prefix, Some(48));
    assert_eq!(r.total_subnets, SubnetCount::Exact(1));
    assert_eq!(r.subnets.len(), 1);
    assert_eq!(r.subnets[0], r.summary);
}

#[test]
fn more_subnets_than_bits_are_left_is_refused() {
    assert_eq!(
        calculate("2001:db8::", "120", SubnetMode::BySubnets, Some(257), None, vec![]),
        Err(Ipv6InputError::CapacityExceeded)
    );
    assert_eq!(plan_prefix(120, SubnetMode::BySubnets, Some(256), None), Ok(Some(128)));
    assert_eq!(plan_prefix(96, SubnetMode::BySubnets, Some(u32::MAX), None), Ok(Some(128)));
    assert_eq!(
        plan_prefix(97, SubnetMode::BySubnets, Some(u32::MAX), None),
        Err(Ipv6InputError::CapacityExceeded)
    );
    assert_eq!(plan_prefix(48, SubnetMode::Inspect, Some(4), Some(64)), Ok(None));
    assert_eq!(plan_prefix(48, SubnetMode::ByHierarchy, Some(4), Some(64)), Ok(None));
}

#[test]
fn ipv6_the_whole_address_space_in_single_addresses() {
    let r = calculate("::", "0", SubnetMode::ByPrefix, None, Some(128), vec![]).unwrap();
    assert_eq!(r.total_subnets, SubnetCount::TwoPow128);
    assert_eq!(r.subnets.len(), LIMIT);
    assert_eq!(r.subnets[0].network, Ipv6Network { addr: 0, prefix: 128 });
    assert_eq!(r.subnets[LIMIT - LAST_N - 1].network.addr, (LIMIT - LAST_N - 1) as u128);
    assert_eq!(r.subnets[LIMIT - LAST_N].network.addr, u128::MAX - 9);
    assert_eq!(r.subnets[LIMIT - 1].network, Ipv6Network { addr: u128::MAX, prefix: 128 });
    assert_eq!(r.summary.last_host, "ffff:ffff:ffff:ffff:ffff:ffff:ffff:ffff");
    assert_eq!(r.summary.addr_type, "Unspecified");
    let r = calculate("::", "0", SubnetMode::ByPrefix, None, Some(127), vec![]).unwrap();
    assert_eq!(r.total_subnets, SubnetCount::Exact(1u128 << 127));
    assert_eq!(r.subnets[LIMIT - 1].network, Ipv6Network { addr: u128::MAX - 1, prefix: 127 });
}

#[test]
fn ipv6_a_long_partition_is_listed_by_its_head_and_its_tail() {
    let base: ipnet::Ipv6Net = "2001:db8::/48".parse().unwrap();
    for new_prefix in [60u8, 61, 62] {
        let all: Vec<(u128, u8)> = base
            .subnets(new_prefix)
            .unwrap()
            .map(|n| (u128::from(n.network()), n.prefix_len()))
            .collect();
        let listed: Vec<(u128, u8)> = collect_subnets(Ipv6Network { addr: DOC, prefix: 48 }, new_prefix)
            .iter()
            .map(|s| (s.network.addr, s.network.prefix))
            .collect();
        if all.len() <= LIMIT {
            assert_eq!(listed, all);
        } else {
            assert_eq!(listed.len(), LIMIT);
            assert_eq!(listed[..LIMIT - LAST_N], all[..LIMIT - LAST_N]);
            assert_eq!(listed[LIMIT - LAST_N..], all[all.len() - LAST_N..]);
        }
    }
}

#[test]
fn the_tail_of_a_partition_of_two_to_the_forty() {
    let r = calculate("2001:db8::", "24", SubnetMode::ByPrefix, None, Some(64), vec![]).unwrap();
    let total: u128 = 1 << 40;
    assert_eq!(r.total_subnets, SubnetCount::Exact(total));
    assert_eq!(r.subnets.len(), LIMIT);
    let base: u128 = 0x2001_0d00_0000_0000_0000_0000_0000_0000;
    assert_eq!(r.base_network.addr, base);
    for k in 0..LAST_N {
        let place: u128 = total - LAST_N as u128 + k as u128 + 1;
        let start: u128 = base + (place - 1) * (1u128 << 64);
        assert_eq!(r.subnets[LIMIT - LAST_N + k].network, Ipv6Network { addr: start, prefix: 64 });
    }
    for i in 0..LIMIT - LAST_N {
        assert_eq!(r.subnets[i].network.addr, base + ((i as u128) << 64));
    }
    assert_eq!(r.subnets[LIMIT - 1].compressed, "2001:dff:ffff:ffff::");
    assert_eq!(r.subnets[LIMIT - 1].last_host, "2001:dff:ffff:ffff:ffff:ffff:ffff:ffff");
}

#[test]
fn ipv6_records_agree_with_the_network_library() {
    for text in ["2001:db8::/48", "fd00:1234:5678::/24", "::/0", "fe80::1/128", "ff00::/8"] {
        let net: ipnet::Ipv6Net = text.parse().unwrap();
        let (a, p) = text.split_once('/').unwrap();
        let r = calculate(a, p, SubnetMode::Inspect, None, None, vec![]).unwrap();
        assert_eq!(r.base_network.addr, u128::from(net.network()));
        assert_eq!(r.base_network.prefix, net.prefix_len());
        assert_eq!(r.summary.compressed, net.network().to_string());
        assert_eq!(r.summary.first_host, net.network().to_string());
        assert_eq!(r.summary.last_host, net.broadcast().to_string());
        assert_eq!(r.base_network.last_address(), u128::from(net.broadcast()));
    }
}

#[test]
fn a_hierarchy_is_a_tree_of_labelled_subnets() {
    let levels = vec![level("Region", 3, 4), level("Site", 2, 8)];
    let r = calculate("2001:db8::", "/48", SubnetMode::ByHierarchy, None, None, levels.clone())
        .unwrap();
    assert_eq!(r.new_prefix, None);
    assert_eq!(r.total_subnets, SubnetCount::Exact(0));
    assert!(r.subnets.is_empty());
    assert_eq!(r.summary.compressed, "2001:db8::");
    let h = r.hierarchy.unwrap();
    assert_eq!(h.levels, levels);
    let root = &h.tree;
    assert_eq!(root.label, "Root");
    assert_eq!(root.prefix, Ipv6Network { addr: DOC, prefix: 48 });
    assert_eq!(root.children.len(), 3);
    for (i, region) in root.children.iter().enumerate() {
        assert_eq!(region.label, format!("Region {}", i + 1));
        let region_addr = DOC + ((i as u128) << 76);
        assert_eq!(region.prefix, Ipv6Network { addr: region_addr, prefix: 52 });
        assert_eq!(region.children.len(), 2);
        for (j, site) in region.children.iter().enumerate() {
            assert_eq!(site.label, format!("Site {}", j + 1));
            assert_eq!(
                site.prefix,
                Ipv6Network { addr: region_addr + ((j as u128) << 68), prefix: 60 }
            );
            assert!(site.children.is_empty());
        }
    }
    assert_eq!(leaves(root), 6);
}

#[test]
fn the_leaves_of_a_hierarchy_are_the_product_of_its_levels() {
    for counts in [vec![1u32], vec![16], vec![2, 3], vec![4, 1, 5], vec![3, 3, 3, 3], vec![16, 16, 16]] {
        let levels: Vec<HierarchyLevel> =
            counts.iter().enumerate().map(|(i, n)| level(&format!("L{}", i), *n, 4)).collect();
        let h = build_hierarchy(Ipv6Network { addr: DOC, prefix: 32 }, levels).unwrap();
        assert_eq!(leaves(&h.tree), counts.iter().map(|n| *n as u64).product::<u64>());
    }
}

#[test]
fn a_hierarchy_without_levels_is_an_inspection() {
    let r = calculate("2001:db8::", "/48", SubnetMode::ByHierarchy, None, None, vec![]).unwrap();
    assert!(r.hierarchy.is_none());
    assert_eq!(r.total_subnets, SubnetCount::Exact(1));
    assert!(r.subnets.is_empty());
    let h = build_hierarchy(Ipv6Network { addr: DOC, prefix: 48 }, vec![]).unwrap();
    assert!(h.tree.children.is_empty());
    assert_eq!(leaves(&h.tree), 1);
}

#[test]
fn a_level_with_too_few_bits_is_refused() {
    let hierarchy = |prefix: &str, levels: Vec<HierarchyLevel>| {
        calculate("2001:db8::", prefix, SubnetMode::ByHierarchy, None, None, levels).map(|_| ())
    };
    assert_eq!(hierarchy("48", vec![level("a", 17, 4)]), Err(Ipv6InputError::InsufficientBits));
    assert_eq!(hierarchy("48", vec![level("a", 16, 4)]), Ok(()));
    assert_eq!(hierarchy("48", vec![level("a", 2, 0)]), Err(Ipv6InputError::InsufficientBits));
    assert_eq!(hierarchy("48", vec![level("a", 1, 0)]), Ok(()));
    assert_eq!(
        hierarchy("48", vec![level("a", 2, 8), level("b", 2, 9)]),
        Err(Ipv6InputError::InsufficientBits)
    );
    assert_eq!(hierarchy("48", vec![level("a", 2, 8), level("b", 2, 8)]), Ok(()));
    assert_eq!(hierarchy("64", vec![level("a", 1, 1)]), Err(Ipv6InputError::InsufficientBits));
    assert_eq!(hierarchy("65", vec![level("a", 2, 63)]), Ok(()));
    assert_eq!(hierarchy("65", vec![level("a", 2, 64)]), Err(Ipv6InputError::InsufficientBits));
    assert_eq!(hierarchy("0", vec![level("a", 2, 255), level("b", 2, 255)]), Err(Ipv6InputError::InsufficientBits));
    assert_eq!(
        hierarchy("48", vec![level("a", 0, 4), level("b", 17, 4)]),
        Err(Ipv6InputError::InsufficientBits)
    );
    assert_eq!(
        hierarchy("32", vec![level("a", 256, 8), level("b", 256, 8), level("c", 256, 17)]),
        Err(Ipv6InputError::InsufficientBits)
    );
}

#[test]
fn a_level_of_no_members_is_refused() {
    assert_eq!(
        check_levels(48, &vec![level("a", 2, 4), level("b", 0, 4)]),
        Err(Ipv6InputError::InvalidCount)
    );
    assert_eq!(
        check_levels(32, &vec![level("a", 0, 8), level("b", 256, 8), level("c", 256, 8)]),
        Err(Ipv6InputError::InvalidCount)
    );
}

#[test]
fn too_many_leaves_are_refused() {
    assert_eq!(MAX_USABLE_SUBNETS, 65_536);
    assert_eq!(check_levels(32, &vec![level("a", 256, 8), level("b", 256, 8)]), Ok(()));
    assert_eq!(
        check_levels(32, &vec![level("a", 256, 8), level("b", 256, 8), level("c", 2, 8)]),
        Err(Ipv6InputError::TooManySubnets)
    );
    assert_eq!(
        check_levels(0, &vec![level("a", 65_537, 17)]),
        Err(Ipv6InputError::TooManySubnets)
    );
    assert_eq!(
        check_levels(0, &vec![level("a", u32::MAX, 32), level("b", u32::MAX, 32)]),
        Err(Ipv6InputError::TooManySubnets)
    );
    assert_eq!(
        build_hierarchy(Ipv6Network { addr: 0, prefix: 0 }, vec![level("a", 65_537, 17)]),
        Err(Ipv6InputError::TooManySubnets)
    );
}

#[test]
fn labels_count_from_one() {
    assert_eq!(label_of(&"Region".to_string(), 0), "Region 1");
    assert_eq!(label_of(&"".to_string(), 9), " 10");
    assert_eq!(label_of(&"Site".to_string(), u32::MAX), "Site 4294967296");
}

#[test]
fn the_subnets_of_a_network_are_two_to_the_added_bits() {
    let base = Ipv6Network { addr: 0, prefix: 0 };
    assert_eq!(base.subnet_count(128), SubnetCount::TwoPow128);
    assert_eq!(base.subnet_count(127), SubnetCount::Exact(1 << 127));
    assert_eq!(base.subnet_count(0), SubnetCount::Exact(1));
    assert_eq!(base.subnet_count(3), SubnetCount::Exact(8));
    assert_eq!(Ipv6Network { addr: DOC, prefix: 48 }.subnet_count(64), SubnetCount::Exact(65_536));
    assert_eq!(base.subnet(3, 7), Ipv6Network { addr: 0xe << 124, prefix: 3 });
    assert_eq!(base.subnet(0, 0), base);
    assert!(Ipv6Network { addr: DOC, prefix: 32 }.contains(DOC + 5));
    assert!(!Ipv6Network { addr: DOC, prefix: 32 }.contains(DOC - 1));
    assert!(!Ipv6Network { addr: DOC, prefix: 32 }.contains(DOC + (1 << 96)));
    assert!(base.contains(u128::MAX));
}

#[test]
fn ipv6_listed_positions_map_to_indices_of_the_partition() {
    assert_eq!(listed_index(SubnetCount::Exact(1), 0), 0);
    assert_eq!(listed_index(SubnetCount::Exact(4096), 4095), 4095);
    assert_eq!(listed_index(SubnetCount::Exact(4097), 4085), 4085);
    assert_eq!(listed_index(SubnetCount::Exact(4097), 4086), 4087);
    assert_eq!(listed_index(SubnetCount::Exact(4097), 4095), 4096);
    let total: u128 = 1 << 40;
    for k in 0..LAST_N {
        assert_eq!(
            listed_index(SubnetCount::Exact(total), LIMIT - LAST_N + k) + 1,
            total - LAST_N as u128 + k as u128 + 1
        );
    }
    assert_eq!(listed_index(SubnetCount::TwoPow128, 0), 0);
    assert_eq!(listed_index(SubnetCount::TwoPow128, LIMIT - LAST_N - 1), 4085);
    assert_eq!(listed_index(SubnetCount::TwoPow128, LIMIT - LAST_N), u128::MAX - 9);
    assert_eq!(listed_index(SubnetCount::TwoPow128, LIMIT - 1), u128::MAX);
}

#[test]
fn the_form_offers_prefixes_up_to_64() {
    let options = prefix_options();
    assert_eq!(options.len(), 64);
    assert_eq!(options[0], (1, "/1".to_string()));
    assert_eq!(options[47], (48, "/48".to_string()));
    assert_eq!(options[63], (64, "/64".to_string()));
}

#[test]
fn a_copy_of_a_tree_is_the_same_tree() {
    let levels = vec![level("Region", 3, 4), level("Site", 2, 8)];
    let h = build_hierarchy(Ipv6Network { addr: DOC, prefix: 48 }, levels).unwrap();
    let copy = h.tree.clone();
    assert_eq!(copy, h.tree);
    assert_eq!(leaves(&copy), 6);
    assert_eq!(copy.children[2].children[1].label, "Site 2");
    let r = calculate("2001:db8::", "/48", SubnetMode::ByPrefix, None, Some(50), vec![]).unwrap();
    assert_eq!(r.clone(), r);
}

#[test]
fn ipv6_a_network_as_text() {
    assert_eq!(Ipv6Network { addr: DOC, prefix: 48 }.to_text(), "2001:db8::/48");
    assert_eq!(Ipv6Network { addr: 0, prefix: 0 }.to_text(), "::/0");
    assert_eq!(Ipv6Network { addr: 1, prefix: 128 }.to_text(), "::1/128");
}

#[test]
fn a_subnet_count_in_base_ten() {
    assert_eq!(SubnetCount::Exact(0).to_text(), "0");
    assert_eq!(SubnetCount::Exact(512).to_text(), "512");
    assert_eq!(SubnetCount::Exact(u128::MAX).to_text(), "340282366920938463463374607431768211455");
    assert_eq!(SubnetCount::TwoPow128.to_text(), "340282366920938463463374607431768211456");
}
