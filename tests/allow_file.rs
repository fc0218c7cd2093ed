use hook_allowlist::{parse_allow_file, render_allow_file, AllowList, AllowSet, Cidr};

fn net(s: &str) -> Cidr {
    Cidr::parse(s).unwrap()
}

fn set_of(items: &[&str]) -> AllowSet {
    AllowSet::from_vec(items.iter().map(|s| net(s)).collect())
}

fn sorted(set: &AllowSet) -> Vec<String> {
    let mut v: Vec<String> = set.entries().iter().map(|c| c.to_text()).collect();
    v.sort();
    v
}

#[test]
fn parses_ipv4_prefix() {
    assert_eq!(Cidr::parse("10.0.0.0/24"), Some(Cidr::V4 { addr: 0x0a00_0000, prefix: 24 }));
    assert_eq!(Cidr::parse("192.168.1.1/32"), Some(Cidr::V4 { addr: 0xc0a8_0101, prefix: 32 }));
}

#[test]
fn parses_host_address_as_full_prefix() {
    assert_eq!(Cidr::parse("192.168.1.1"), Some(Cidr::V4 { addr: 0xc0a8_0101, prefix: 32 }));
}

#[test]
fn parses_ipv6_prefix() {
    assert_eq!(
        Cidr::parse("2001:db8::/32"),
        Some(Cidr::V6 { addr: 0x2001_0db8u128 << 96, prefix: 32 })
    );
}

#[test]
fn rejects_malformed_prefixes() {
    assert_eq!(Cidr::parse("garbage"), None);
    assert_eq!(Cidr::parse("10.0.0.0/33"), None);
    assert_eq!(Cidr::parse("2001:db8::/129"), None);
    assert_eq!(Cidr::parse(""), None);
}

#[test]
fn renders_standard_notation() {
    assert_eq!(Cidr::V4 { addr: 0xc0a8_0101, prefix: 32 }.to_text(), "192.168.1.1/32");
    assert_eq!(Cidr::V6 { addr: 0x2001_0db8u128 << 96, prefix: 32 }.to_text(), "2001:db8::/32");
}

#[test]
fn structural_equality_keeps_host_bits() {
    assert_ne!(net("10.0.0.1/24"), net("10.0.0.0/24"));
    assert_ne!(net("10.0.0.0/24"), net("10.0.0.0/25"));
}

#[test]
fn reads_entry_lines_and_skips_blank_ones() {
    let set = parse_allow_file("allow 10.0.0.0/24;\n\n   \nallow 192.168.1.1/32;\r\n").ok().unwrap();
    assert_eq!(sorted(&set), vec!["10.0.0.0/24".to_string(), "192.168.1.1/32".to_string()]);
}

#[test]
fn reads_empty_file_as_empty_set() {
    let set = parse_allow_file("").ok().unwrap();
    assert_eq!(set.len(), 0);
}

#[test]
fn repeated_entries_count_once() {
    let set = parse_allow_file("allow 10.0.0.0/24;\nallow 10.0.0.0/24;\n").ok().unwrap();
    assert_eq!(set.len(), 1);
}

#[test]
fn reports_first_bad_line() {
    let e = parse_allow_file("allow 10.0.0.0/24;\nallow nonsense;\ngarbage\n").err().unwrap();
    assert_eq!(e.index, 1);
    assert_eq!(e.entry.iter().collect::<String>(), "nonsense");
}

#[test]
fn writes_one_line_per_entry() {
    let set = set_of(&["10.0.0.0/24", "192.168.1.1/32"]);
    assert_eq!(render_allow_file(&set), "allow 10.0.0.0/24;\nallow 192.168.1.1/32;\n");
    assert_eq!(render_allow_file(&AllowSet::new()), "");
}

#[test]
fn round_trip_gives_the_same_set() {
    let set = set_of(&["10.0.0.0/24", "192.168.1.1/32", "2001:db8::/32", "::ffff:1.2.3.4/128"]);
    let (list, rejected) = AllowList::load("");
    assert!(rejected.is_none());
    let mut list = list;
    assert!(list.update(set_of(&["10.0.0.0/24", "192.168.1.1/32", "2001:db8::/32", "::ffff:1.2.3.4/128"])));
    let text = list.save();
    let (again, rejected) = AllowList::load(&text);
    assert!(rejected.is_none());
    assert!(again.allow_set().same_as(&set));
}

#[test]
fn malformed_line_empties_the_whole_file() {
    let (list, rejected) = AllowList::load("allow 10.0.0.0/24;\ngarbage\n");
    assert_eq!(list.allow_set().len(), 0);
    let rejected = rejected.unwrap();
    assert_eq!(rejected.index, 1);
    assert_eq!(rejected.entry.iter().collect::<String>(), "garbage");
}

#[test]
fn update_twice_writes_once() {
    let (mut list, _) = AllowList::load("");
    assert!(list.update(set_of(&["10.0.0.0/24"])));
    assert!(!list.update(set_of(&["10.0.0.0/24"])));
    assert_eq!(list.save(), "allow 10.0.0.0/24;\n");
}

#[test]
fn update_with_stored_set_is_no_change() {
    let (mut list, _) = AllowList::load("allow 10.0.0.0/24;\n");
    assert!(!list.update(set_of(&["10.0.0.0/24"])));
}

#[test]
fn reordering_is_no_change() {
    let (mut list, _) = AllowList::load("allow 10.0.0.0/24;\nallow 192.168.1.1/32;\n");
    assert!(!list.update(set_of(&["192.168.1.1/32", "10.0.0.0/24"])));
    assert!(!list.update(set_of(&["192.168.1.1/32", "10.0.0.0/24", "192.168.1.1/32"])));
}

#[test]
fn added_or_removed_entry_is_a_change() {
    let (mut list, _) = AllowList::load("allow 10.0.0.0/24;\n");
    assert!(list.update(set_of(&["10.0.0.0/24", "192.168.1.1/32"])));
    assert!(list.update(set_of(&["192.168.1.1/32"])));
    assert!(list.update(set_of(&[])));
}

#[test]
fn parse_all_takes_every_prefix() {
    let texts = vec!["10.0.0.0/24".to_string(), "192.168.1.1/32".to_string()];
    let set = AllowSet::parse_all(&texts).unwrap();
    assert!(set.same_as(&set_of(&["192.168.1.1/32", "10.0.0.0/24"])));
}

#[test]
fn parse_all_refuses_a_partly_malformed_list() {
    let texts = vec!["10.0.0.0/24".to_string(), "not a prefix".to_string()];
    assert!(AllowSet::parse_all(&texts).is_none());
}

#[test]
fn contains_and_insert() {
    let mut set = AllowSet::new();
    set.insert(net("10.0.0.0/24"));
    set.insert(net("10.0.0.0/24"));
    assert_eq!(set.len(), 1);
    assert!(set.contains(&net("10.0.0.0/24")));
    assert!(!set.contains(&net("10.0.0.0/25")));
}
