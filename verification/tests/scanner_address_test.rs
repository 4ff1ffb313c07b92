use azula::net::ip::{IpAddress, Socket};
use azula::scanner::address::{
    is_ascending, merge, position_of, resolver_plan, AddressResolver, AddressSet, CidrBlock, Lookup,
    ResolveStep, ResolverPlan, TokenResolver,
};

fn v4(a: u8, b: u8, c: u8, d: u8) -> IpAddress {
    IpAddress::from_octets(a, b, c, d)
}

/// Resolves a token with lookups that find nothing but the names given.
fn resolve(token: &str, known: &[(&str, Vec<IpAddress>)]) -> Vec<IpAddress> {
    let (mut resolver, mut step) = TokenResolver::begin(token);
    loop {
        match step {
            ResolveStep::Resolved(ips) => {
                assert!(resolver.is_settled());
                return ips;
            }
            ResolveStep::Ask(Lookup::Direct { host, port }) => {
                assert_eq!(host, token);
                assert_eq!(port, 80);
                let answer = known.iter().find(|(name, _)| *name == host).map(|(_, ips)| ips.clone());
                step = resolver.answer(answer.unwrap_or_default());
            }
            ResolveStep::Ask(Lookup::Dns { host }) => {
                assert_eq!(host, token);
                step = resolver.answer(Vec::new());
            }
        }
    }
}

/// Resolves the tokens as a scan does, with no host known and no file of
/// hosts at hand.
fn parse_addresses(tokens: &[&str]) -> Vec<IpAddress> {
    let mut resolver = AddressResolver::new();
    for token in tokens {
        let ips = resolve(token, &[]);
        resolver.record_token((*token).to_owned(), &ips);
    }
    resolver.into_addresses()
}

#[test]
fn parse_correct_addresses() {
    let ips = parse_addresses(&["127.0.0.1", "192.168.0.0/30"]);
    assert_eq!(
        ips,
        [
            v4(127, 0, 0, 1),
            v4(192, 168, 0, 0),
            v4(192, 168, 0, 1),
            v4(192, 168, 0, 2),
            v4(192, 168, 0, 3)
        ]
    );
}

#[test]
fn parse_correct_and_incorrect_addresses() {
    let ips = parse_addresses(&["127.0.0.1", "im_wrong"]);
    assert_eq!(ips, [v4(127, 0, 0, 1),]);
}

#[test]
fn parse_incorrect_addresses() {
    let ips = parse_addresses(&["im_wrong", "300.10.1.1"]);
    assert!(ips.is_empty());
}

#[test]
fn parse_duplicate_cidrs() {
    let ips = parse_addresses(&["79.98.104.0/21", "79.98.104.0/24"]);
    assert_eq!(ips.len(), 2_048);
}

#[test]
fn cidr_block_is_expanded_to_each_of_its_addresses() {
    let ips = resolve("192.168.0.0/30", &[]);
    assert_eq!(ips, vec![v4(192, 168, 0, 0), v4(192, 168, 0, 1), v4(192, 168, 0, 2), v4(192, 168, 0, 3)]);
    let ips = resolve("10.1.2.3", &[]);
    assert_eq!(ips, vec![v4(10, 1, 2, 3)]);
    let ips = resolve("10.1.2.3/32", &[]);
    assert_eq!(ips, vec![v4(10, 1, 2, 3)]);
    let ips = resolve("255.255.255.254/31", &[]);
    assert_eq!(ips, vec![v4(255, 255, 255, 254), v4(255, 255, 255, 255)]);
}

#[test]
fn ipv6_block_is_expanded_to_each_of_its_addresses() {
    let ips = resolve("::1", &[]);
    assert_eq!(ips, vec![IpAddress::V6(1)]);
    let ips = resolve("2001:db8::/126", &[]);
    let base: u128 = 0x2001_0db8_0000_0000_0000_0000_0000_0000;
    assert_eq!(
        ips,
        vec![IpAddress::V6(base), IpAddress::V6(base + 1), IpAddress::V6(base + 2), IpAddress::V6(base + 3)]
    );
}

#[test]
fn block_with_host_bits_is_no_block() {
    let (resolver, step) = TokenResolver::begin("192.168.0.1/30");
    assert!(!resolver.is_settled());
    assert!(matches!(step, ResolveStep::Ask(Lookup::Direct { .. })));
    let (_, step) = TokenResolver::begin("192.168.0.0/33");
    assert!(matches!(step, ResolveStep::Ask(Lookup::Direct { .. })));
}

#[test]
fn mixed_tokens_keep_what_resolves() {
    let ips = parse_addresses(&["127.0.0.1", "not_a_real_host_xyz"]);
    assert_eq!(ips, vec![v4(127, 0, 0, 1)]);
}

#[test]
fn unresolved_tokens_are_kept_for_the_files() {
    let mut resolver = AddressResolver::new();
    for token in ["im_wrong", "127.0.0.1", "hosts.txt"] {
        let ips = resolve(token, &[]);
        resolver.record_token(token.to_owned(), &ips);
    }
    assert_eq!(resolver.pending_files(), &vec!["im_wrong".to_owned(), "hosts.txt".to_owned()]);
    assert!(!resolver.is_empty());
    resolver.record_line(&resolve("10.0.0.1", &[]));
    resolver.record_line(&resolve("naughty line", &[]));
    resolver.record_line(&resolve("10.0.0.0/31", &[]));
    assert_eq!(resolver.pending_files().len(), 2);
    assert_eq!(resolver.into_addresses(), vec![v4(10, 0, 0, 0), v4(10, 0, 0, 1), v4(127, 0, 0, 1)]);
}

#[test]
fn nothing_resolved_leaves_nothing_to_scan() {
    let mut resolver = AddressResolver::new();
    assert!(resolver.is_empty());
    resolver.record_token("im_wrong".to_owned(), &Vec::new());
    assert!(resolver.is_empty());
    assert!(resolver.into_addresses().is_empty());
}

#[test]
fn direct_lookup_settles_with_its_first_address() {
    let known = [("example.test", vec![v4(93, 184, 216, 34), v4(93, 184, 216, 35)])];
    assert_eq!(resolve("example.test", &known), vec![v4(93, 184, 216, 34)]);
}

#[test]
fn resolver_is_asked_when_the_direct_lookup_finds_nothing() {
    let (mut resolver, step) = TokenResolver::begin("example.test");
    assert!(matches!(step, ResolveStep::Ask(Lookup::Direct { .. })));
    match resolver.answer(Vec::new()) {
        ResolveStep::Ask(Lookup::Dns { host }) => assert_eq!(host, "example.test"),
        other => panic!("{:?}", other),
    }
    assert!(!resolver.is_settled());
    match resolver.answer(vec![v4(1, 2, 3, 4), v4(1, 2, 3, 5)]) {
        ResolveStep::Resolved(ips) => assert_eq!(ips, vec![v4(1, 2, 3, 4), v4(1, 2, 3, 5)]),
        other => panic!("{:?}", other),
    }
    assert!(resolver.is_settled());
}

#[test]
fn resolution_begun_with_a_block_asks_nothing() {
    let block = CidrBlock::new(v4(10, 0, 0, 4), v4(10, 0, 0, 6)).unwrap();
    let (resolver, step) = TokenResolver::begin_with("anything", Some(block));
    assert!(resolver.is_settled());
    match step {
        ResolveStep::Resolved(ips) => assert_eq!(ips, vec![v4(10, 0, 0, 4), v4(10, 0, 0, 5), v4(10, 0, 0, 6)]),
        other => panic!("{:?}", other),
    }
    let (resolver, step) = TokenResolver::begin_with("host", None);
    assert!(!resolver.is_settled());
    match step {
        ResolveStep::Ask(Lookup::Direct { host, port }) => {
            assert_eq!(host, "host");
            assert_eq!(port, 80);
        }
        other => panic!("{:?}", other),
    }
}

#[test]
fn block_needs_ends_of_one_family_in_order() {
    assert!(CidrBlock::new(v4(10, 0, 0, 1), v4(10, 0, 0, 0)).is_none());
    assert!(CidrBlock::new(v4(10, 0, 0, 1), IpAddress::V6(1 << 100)).is_none());
    assert!(CidrBlock::new(IpAddress::V6(5), IpAddress::V6(4)).is_none());
    let one = CidrBlock::new(IpAddress::V6(5), IpAddress::V6(5)).unwrap();
    assert_eq!(one.addresses(), vec![IpAddress::V6(5)]);
    let top = CidrBlock::new(IpAddress::V4(u32::MAX - 1), IpAddress::V4(u32::MAX)).unwrap();
    assert_eq!(top.addresses(), vec![IpAddress::V4(u32::MAX - 1), IpAddress::V4(u32::MAX)]);
    let top = CidrBlock::new(IpAddress::V6(u128::MAX - 1), IpAddress::V6(u128::MAX)).unwrap();
    assert_eq!(top.addresses(), vec![IpAddress::V6(u128::MAX - 1), IpAddress::V6(u128::MAX)]);
}

#[test]
fn address_set_is_ordered_whatever_the_order_of_arrival() {
    let given = [v4(192, 168, 0, 1), IpAddress::V6(1), v4(10, 0, 0, 1), v4(192, 168, 0, 1), IpAddress::V6(0), v4(10, 0, 0, 1)];
    let expected = vec![v4(10, 0, 0, 1), v4(192, 168, 0, 1), IpAddress::V6(0), IpAddress::V6(1)];
    let mut forward = AddressSet::new();
    for ip in given {
        forward.insert(ip);
    }
    assert_eq!(forward.len(), 4);
    assert!(forward.contains(&IpAddress::V6(0)));
    assert!(!forward.contains(&v4(10, 0, 0, 2)));
    let mut backward = AddressSet::new();
    backward.extend(&given.iter().rev().copied().collect());
    assert!(!backward.is_empty());
    assert_eq!(forward.into_vec(), expected);
    assert_eq!(backward.into_vec(), expected);
    assert!(AddressSet::new().is_empty());
}

#[test]
fn name_servers_are_asked_at_the_port_of_dns() {
    match resolver_plan(Some(vec![v4(8, 8, 8, 8), v4(8, 8, 4, 4)])) {
        ResolverPlan::NameServers(ends) => {
            assert_eq!(ends, vec![Socket::new(v4(8, 8, 8, 8), 53), Socket::new(v4(8, 8, 4, 4), 53)]);
        }
        other => panic!("{:?}", other),
    }
    assert!(matches!(resolver_plan(Some(vec![])), ResolverPlan::NameServers(ends) if ends.is_empty()));
    assert!(matches!(resolver_plan(None), ResolverPlan::System));
}

#[test]
fn merged_lists_keep_the_order_and_each_address_once() {
    let a = vec![v4(10, 0, 0, 1), v4(10, 0, 0, 3), v4(10, 0, 0, 5), IpAddress::V6(2)];
    let b = vec![v4(10, 0, 0, 2), v4(10, 0, 0, 3), v4(10, 0, 0, 9), IpAddress::V6(1), IpAddress::V6(2)];
    let expected = vec![
        v4(10, 0, 0, 1),
        v4(10, 0, 0, 2),
        v4(10, 0, 0, 3),
        v4(10, 0, 0, 5),
        v4(10, 0, 0, 9),
        IpAddress::V6(1),
        IpAddress::V6(2),
    ];
    assert_eq!(merge(&a, &b), expected);
    assert_eq!(merge(&b, &a), expected);
    assert_eq!(merge(&a, &Vec::new()), a);
    assert_eq!(merge(&Vec::new(), &b), b);
    assert_eq!(merge(&a, &a), a);
    assert!(merge(&Vec::new(), &Vec::new()).is_empty());
}

#[test]
fn ascending_lists_are_told_from_the_others() {
    assert!(is_ascending(&vec![]));
    assert!(is_ascending(&vec![v4(1, 1, 1, 1)]));
    assert!(is_ascending(&vec![v4(1, 1, 1, 1), v4(1, 1, 1, 2), IpAddress::V6(0)]));
    assert!(!is_ascending(&vec![v4(1, 1, 1, 1), v4(1, 1, 1, 1)]));
    assert!(!is_ascending(&vec![v4(1, 1, 1, 2), v4(1, 1, 1, 1)]));
    assert!(!is_ascending(&vec![IpAddress::V6(0), v4(1, 1, 1, 1)]));
}

#[test]
fn address_set_takes_blocks_and_scattered_addresses_alike() {
    let mut set = AddressSet::new();
    set.extend(&vec![v4(10, 0, 0, 2), v4(10, 0, 0, 4)]);
    set.extend(&vec![v4(10, 0, 0, 5), v4(10, 0, 0, 1), v4(10, 0, 0, 4)]);
    set.extend(&vec![v4(10, 0, 0, 1), v4(10, 0, 0, 3)]);
    set.extend(&vec![]);
    assert_eq!(
        set.into_vec(),
        vec![v4(10, 0, 0, 1), v4(10, 0, 0, 2), v4(10, 0, 0, 3), v4(10, 0, 0, 4), v4(10, 0, 0, 5)]
    );
}

#[test]
fn large_blocks_are_merged_in_their_order() {
    let ips = parse_addresses(&["10.0.0.0/16", "10.1.0.0/16", "10.0.128.0/17"]);
    assert_eq!(ips.len(), 2 * 65_536);
    assert_eq!(ips[0], v4(10, 0, 0, 0));
    assert_eq!(ips[65_536], v4(10, 1, 0, 0));
    assert_eq!(ips[2 * 65_536 - 1], v4(10, 1, 255, 255));
    assert!(is_ascending(&ips));
}

#[test]
fn place_of_an_address_is_found_in_an_ordered_list() {
    let ips: Vec<IpAddress> = (0..100u32).map(|n| IpAddress::V4(n * 3)).collect();
    for (place, ip) in ips.iter().enumerate() {
        assert_eq!(position_of(&ips, ip), Some(place));
    }
    assert_eq!(position_of(&ips, &IpAddress::V4(4)), None);
    assert_eq!(position_of(&ips, &IpAddress::V4(1000)), None);
    assert_eq!(position_of(&ips, &IpAddress::V6(3)), None);
    assert_eq!(position_of(&Vec::new(), &IpAddress::V4(0)), None);
}
