use monopoly::discover::{local_subnets, subnet_hosts, unique_hosts, InterfaceAddr};
use monopoly::error::ApiError;
use monopoly::server::identity::Identities;

fn ip(a: u8, b: u8, c: u8, d: u8) -> u32 {
    u32::from_be_bytes([a, b, c, d])
}

#[test]
fn subnet_hosts_covers_254_hosts() {
    let hosts = subnet_hosts(ip(192, 168, 1, 0));
    assert_eq!(hosts.len(), 254);
    assert_eq!(hosts[0], ip(192, 168, 1, 1));
    assert_eq!(hosts[253], ip(192, 168, 1, 254));
}

#[test]
fn subnet_hosts_ignore_the_last_octet_given() {
    let hosts = subnet_hosts(ip(10, 0, 7, 42));
    assert_eq!(hosts[0], ip(10, 0, 7, 1));
    assert_eq!(hosts[99], ip(10, 0, 7, 100));
}

#[test]
fn scan_hosts_deduplicates() {
    let localhost = ip(127, 0, 0, 1);
    assert_eq!(unique_hosts(&vec![localhost, localhost]), vec![localhost]);
    let a = ip(10, 0, 0, 1);
    let b = ip(10, 0, 0, 2);
    assert_eq!(unique_hosts(&vec![b, a, b, a, b]), vec![b, a]);
    assert!(unique_hosts(&vec![]).is_empty());
}

#[test]
fn local_subnets_skip_loopback_and_link_local() {
    let ifaces = vec![
        InterfaceAddr { ip: ip(127, 0, 0, 1), loopback: true, link_local: false },
        InterfaceAddr { ip: ip(192, 168, 1, 23), loopback: false, link_local: false },
        InterfaceAddr { ip: ip(169, 254, 3, 4), loopback: false, link_local: true },
        InterfaceAddr { ip: ip(192, 168, 1, 77), loopback: false, link_local: false },
        InterfaceAddr { ip: ip(10, 1, 2, 3), loopback: false, link_local: false },
    ];
    assert_eq!(local_subnets(&ifaces), vec![ip(192, 168, 1, 0), ip(10, 1, 2, 0)]);
}

#[test]
fn identity_registered_first_then_checked() {
    let mut reg = Identities::new();
    assert_eq!(reg.resolve_with(Some(7), Some(70), (1, 2)).ok(), Some((7, 70)));
    assert_eq!(reg.resolve_with(Some(7), Some(70), (1, 2)).ok(), Some((7, 70)));
    let refused = reg.resolve_with(Some(7), Some(71), (1, 2)).err().expect("wrong secret");
    match refused.common() {
        ApiError::Forbidden(m) => assert_eq!(m, "身份码校验失败"),
        other => panic!("unexpected {other:?}"),
    }
}

#[test]
fn identity_missing_gets_the_fresh_one() {
    let mut reg = Identities::new();
    assert_eq!(reg.resolve_with(None, Some(5), (11, 12)).ok(), Some((11, 12)));
    assert_eq!(reg.resolve_with(Some(11), Some(12), (0, 0)).ok(), Some((11, 12)));
    assert!(reg.resolve_with(Some(11), Some(13), (0, 0)).is_err());
    let (u, s) = reg.resolve_identity(None, None).ok().expect("fresh identity");
    assert_ne!(u, s);
    assert_eq!(reg.resolve_identity(Some(u), Some(s)).ok(), Some((u, s)));
}
