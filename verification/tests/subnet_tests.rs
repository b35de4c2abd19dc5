use meowping::subnet::Ipv4Subnet;

fn ip(a: u32, b: u32, c: u32, d: u32) -> u32 {
    (a << 24) | (b << 16) | (c << 8) | d
}

#[test]
fn host_count_slash_24() {
    let sub = Ipv4Subnet::from_str("192.168.1.0/24").unwrap();
    assert_eq!(sub.host_count(), 254);
}

#[test]
fn host_count_slash_31() {
    let sub = Ipv4Subnet::from_str("10.0.0.0/31").unwrap();
    assert_eq!(sub.host_count(), 2);
}

#[test]
fn host_count_slash_32() {
    let sub = Ipv4Subnet::from_str("10.0.0.5/32").unwrap();
    assert_eq!(sub.host_count(), 1);
}

#[test]
fn host_count_slash_30() {
    let sub = Ipv4Subnet::from_str("192.168.1.0/30").unwrap();
    assert_eq!(sub.host_count(), 2);
}

#[test]
fn host_count_slash_16() {
    let sub = Ipv4Subnet::from_str("172.16.0.0/16").unwrap();
    assert_eq!(sub.host_count(), 65534);
}

#[test]
fn iter_hosts_slash_30_excludes_network_and_broadcast() {
    let sub = Ipv4Subnet::from_str("192.168.1.0/30").unwrap();
    let mut it = sub.iter_hosts();
    assert_eq!(it.next(), Some(ip(192, 168, 1, 1)));
    assert_eq!(it.next(), Some(ip(192, 168, 1, 2)));
    assert_eq!(it.next(), None);
    assert_eq!(it.next(), None);
}

#[test]
fn iter_hosts_slash_32_yields_the_address_itself() {
    let sub = Ipv4Subnet::from_str("10.0.0.5/32").unwrap();
    let mut it = sub.iter_hosts();
    assert_eq!(it.next(), Some(ip(10, 0, 0, 5)));
    assert_eq!(it.next(), None);
}

#[test]
fn hosts_matches_host_count() {
    let sub = Ipv4Subnet::from_str("10.1.2.0/24").unwrap();
    let hosts = sub.hosts();
    assert_eq!(hosts.len() as u128, sub.host_count());
    assert_eq!(hosts[0], ip(10, 1, 2, 1));
    assert_eq!(hosts[253], ip(10, 1, 2, 254));
}

#[test]
fn from_str_masks_host_bits() {
    let sub = Ipv4Subnet::from_str("192.168.1.57/24").unwrap();
    assert_eq!(sub.network(), ip(192, 168, 1, 0));
    assert_eq!(sub.prefix(), 24);
    assert_eq!(sub.notation(), "192.168.1.0/24");
}

#[test]
fn from_str_trims_whitespace() {
    let sub = Ipv4Subnet::from_str("  10.0.0.0/8\n").unwrap();
    assert_eq!(sub.notation(), "10.0.0.0/8");
}

#[test]
fn from_str_prefix_zero_spans_everything() {
    let sub = Ipv4Subnet::from_str("203.0.113.9/0").unwrap();
    assert_eq!(sub.network(), 0);
    assert_eq!(sub.host_count(), (1u128 << 32) - 2);
}

#[test]
fn notation_round_trips_the_extremes() {
    let all = Ipv4Subnet::from_str("0.0.0.0/0").unwrap();
    assert_eq!(all.notation(), "0.0.0.0/0");
    let one = Ipv4Subnet::from_str("255.255.255.255/32").unwrap();
    assert_eq!(one.notation(), "255.255.255.255/32");
}

#[test]
fn from_str_rejects_missing_prefix() {
    assert_eq!(
        Ipv4Subnet::from_str("192.168.1.0"),
        Err("Missing prefix length in subnet definition")
    );
}

#[test]
fn from_str_rejects_extra_slashes() {
    assert_eq!(
        Ipv4Subnet::from_str("192.168.1.0/24/5"),
        Err("Too many '/' characters in subnet definition")
    );
}

#[test]
fn from_str_rejects_bad_ip() {
    assert_eq!(
        Ipv4Subnet::from_str("192.168.256.0/24"),
        Err("Invalid IPv4 address in subnet definition")
    );
    assert_eq!(
        Ipv4Subnet::from_str("192.168.1/24"),
        Err("Invalid IPv4 address in subnet definition")
    );
    assert_eq!(
        Ipv4Subnet::from_str("192.168.01.0/24"),
        Err("Invalid IPv4 address in subnet definition")
    );
    assert_eq!(
        Ipv4Subnet::from_str("a.b.c.d/24"),
        Err("Invalid IPv4 address in subnet definition")
    );
}

#[test]
fn from_str_rejects_bad_prefix() {
    assert_eq!(
        Ipv4Subnet::from_str("10.0.0.0/x"),
        Err("Invalid prefix length in subnet definition")
    );
    assert_eq!(
        Ipv4Subnet::from_str("10.0.0.0/"),
        Err("Invalid prefix length in subnet definition")
    );
    assert_eq!(
        Ipv4Subnet::from_str("10.0.0.0/300"),
        Err("Invalid prefix length in subnet definition")
    );
}

#[test]
fn from_str_rejects_prefix_out_of_range() {
    assert_eq!(
        Ipv4Subnet::from_str("10.0.0.0/33"),
        Err("Prefix length must be between 0 and 32")
    );
}
