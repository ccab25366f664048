use codehunt::ip::{
    calculate_dest, calculate_key, calculate_v6dest, calculate_v6key, create_addr,
    groups_ready, parse_dotted_octets, quad_inputs_ready, v6dest_inputs_ready, v6key_from_parts,
    v6key_inputs_ready, v6key_parts_ready, xor,
};

#[test]
fn xor_stops_at_shorter() {
    assert_eq!(xor(&vec![1, 2, 3], &vec![4, 5]), vec![5, 7]);
    assert_eq!(xor(&vec![], &vec![4, 5]), Vec::<u8>::new());
}

#[test]
fn xor_twice_gives_back_the_bytes() {
    let a = vec![0x12, 0xff, 0x00, 0x7a];
    let b = vec![0x34, 0x0f, 0xaa, 0x55, 0x99];
    assert_eq!(xor(&xor(&a, &b), &b), a);
    assert_eq!(xor(&a, &b), xor(&b, &a));
}

#[test]
fn dest_adds_octets() {
    assert_eq!(calculate_dest("10.0.0.0", "1.2.3.255"), "11.2.3.255");
}

#[test]
fn dest_wraps_around() {
    assert_eq!(calculate_dest("128.128.33.0", "255.0.255.33"), "127.128.32.33");
    assert_eq!(calculate_dest("192.168.0.1", "72.96.8.7"), "8.8.8.8");
}

#[test]
fn dest_uses_first_four_of_longer_key() {
    assert_eq!(calculate_dest("1.1.1.1.1", "1.2.3.4.5"), "2.3.4.5");
}

#[test]
fn key_subtracts_octets() {
    assert_eq!(calculate_key("10.0.0.0", "11.2.3.255"), "1.2.3.255");
    assert_eq!(calculate_key("128.128.33.0", "127.128.32.33"), "255.0.255.33");
    assert_eq!(calculate_key("192.168.0.1", "8.8.8.8"), "72.96.8.7");
}

#[test]
fn key_of_dest_is_key() {
    let from = "200.17.0.255";
    let key = "99.201.255.3";
    let dest = calculate_dest(from, key);
    assert_eq!(calculate_key(from, &dest), key);
    let to = "4.3.2.1";
    let k = calculate_key(from, to);
    assert_eq!(calculate_dest(from, &k), to);
}

#[test]
fn dotted_octets_read_like_u8_parse() {
    assert_eq!(parse_dotted_octets("+5.007.0.255"), Some(vec![5, 7, 0, 255]));
    assert_eq!(parse_dotted_octets("256.1.1.1"), None);
    assert_eq!(parse_dotted_octets("1..1"), None);
    assert_eq!(parse_dotted_octets("1.-1"), None);
    assert_eq!(parse_dotted_octets("+"), None);
    assert_eq!(parse_dotted_octets("12"), Some(vec![12]));
}

#[test]
fn quad_inputs_need_four_octets_and_a_long_enough_first() {
    assert!(quad_inputs_ready("1.2.3.4", "5.6.7.8"));
    assert!(!quad_inputs_ready("1.2.3", "5.6.7.8"));
    assert!(!quad_inputs_ready("1.2.3.4", "5.6.7"));
    assert!(!quad_inputs_ready("1.2.3.x", "5.6.7.8"));
}

#[test]
fn create_addr_expands_empty_piece() {
    let groups = create_addr(vec!["fe80", "", "1"]);
    assert_eq!(groups, vec![0xfe80, 0, 0, 0, 0, 0, 0, 1]);
}

#[test]
fn create_addr_full_address() {
    let groups = create_addr(vec!["1", "2", "3", "4", "5", "6", "7", "+FfFf"]);
    assert_eq!(groups, vec![1, 2, 3, 4, 5, 6, 7, 0xffff]);
}

#[test]
fn create_addr_each_empty_piece_fills() {
    let groups = create_addr(vec!["", "", "1"]);
    assert_eq!(groups.len(), 13);
    assert_eq!(groups[12], 1);
}

#[test]
fn groups_ready_checks_hex_and_count() {
    assert!(groups_ready(&vec!["fe80", "", "1"]));
    assert!(!groups_ready(&vec!["g"]));
    assert!(!groups_ready(&vec!["", "", "", "", "", "", "", "", "", ""]));
}

#[test]
fn v6dest_reads_decimal_xor_as_binary() {
    assert!(v6dest_inputs_ready("::", "1:a:0:0:0:0:0:0"));
    assert_eq!(calculate_v6dest("::", "1:a:0:0:0:0:0:0"), "1.2.0.0");
    assert_eq!(calculate_v6dest("1:0:0:0:0:0:0:0", "0:b:0:0:0:0:0:0"), "1.3.0.0");
}

#[test]
fn v6dest_refuses_non_binary_decimals() {
    assert!(!v6dest_inputs_ready("::", "2:0:0:0:0:0:0:0"));
    assert!(!v6dest_inputs_ready("1:2", "1:2"));
}

#[test]
fn v6key_xors_pieces() {
    assert_eq!(calculate_v6key("1:2:3:4", "5:6:7:8"), "4.4.4.12");
}

#[test]
fn v6key_splits_on_double_colon() {
    assert_eq!(calculate_v6key("1::2:3:4", "5::6:7:8"), "4.4.4.12");
    assert!(!v6key_inputs_ready("1:::2:3:4", "5:6:7:8"));
    assert!(v6key_inputs_ready("1:2:3:4", "5:6::7:8"));
    assert_eq!(calculate_v6key("1:2:3:4", "5:6::7:8"), "4.4.4.12");
    assert!(!v6key_inputs_ready("1:2:3:4", "5:::6:7:8"));
}

#[test]
fn v6key_signed_values() {
    assert_eq!(calculate_v6key("-1:2:3:4", "1:2:3:4"), "-2.0.0.0");
}

#[test]
fn v6key_refusals() {
    assert!(v6key_inputs_ready("1:2:3:4", "5:6:7:8"));
    assert!(!v6key_inputs_ready("1:2:3:4", "5:6:7"));
    assert!(!v6key_inputs_ready("1:2:3", "5:6:7:8"));
    assert!(!v6key_inputs_ready("1:2:3:x", "5:6:7:8"));
    assert!(!v6key_inputs_ready("1:2:3:4", "5:6:7:2147483648"));
    assert!(!v6key_inputs_ready("::1:2:3", "5:6:7:8"));
}

#[test]
fn v6key_symmetric_on_equal_lengths() {
    assert_eq!(calculate_v6key("9:8:7:6", "1:2:3:4"), calculate_v6key("1:2:3:4", "9:8:7:6"));
}

#[test]
fn v6key_from_parts_directly() {
    let f: Vec<String> = vec!["1".into(), "2".into(), "3".into(), "4".into(), "5".into()];
    let t: Vec<String> = vec!["+1".into(), "2".into(), "3".into(), "-4".into()];
    assert!(v6key_parts_ready(&f, &t));
    assert_eq!(v6key_from_parts(&f, &t), "0.0.0.-8");
    assert!(!v6key_parts_ready(&t[..3].to_vec(), &t));
}
