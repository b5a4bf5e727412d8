use subnetinfo::ipv4::{IPv4Address, ParseError};

fn as_u32(q: (u8, u8, u8, u8)) -> u32 {
    ((q.0 as u32) << 24) | ((q.1 as u32) << 16) | ((q.2 as u32) << 8) | (q.3 as u32)
}

#[test]
fn subnet_mask_parsing() {
    let addr = "1.2.1.3/24".parse::<IPv4Address>();
    assert!(addr.is_ok());
    assert_eq!(addr.unwrap().subnet_mask, (255, 255, 255, 0));

    let addr = "1.2.1.3/15".parse::<IPv4Address>();
    assert!(addr.is_ok());
    assert_eq!(addr.unwrap().subnet_mask, (255, 254, 0, 0));

    let addr = "1.2.1.3/27".parse::<IPv4Address>();
    assert!(addr.is_ok());
    assert_eq!(addr.unwrap().subnet_mask, (255, 255, 255, 224));

    let addr = "1.2.1.3/0".parse::<IPv4Address>();
    assert!(addr.is_ok());
    assert_eq!(addr.unwrap().subnet_mask, (0, 0, 0, 0));
}

#[test]
fn network_address_calculation() {
    let addr = "1.2.1.3/28".parse::<IPv4Address>();
    assert!(addr.is_ok());
    assert_eq!(addr.unwrap().network_address, (1, 2, 1, 0));

    let addr = "1.2.1.15/28".parse::<IPv4Address>();
    assert!(addr.is_ok());
    assert_eq!(addr.unwrap().network_address, (1, 2, 1, 0));

    let addr = "1.2.1.31/28".parse::<IPv4Address>();
    assert!(addr.is_ok());
    assert_eq!(addr.unwrap().network_address, (1, 2, 1, 16));
}

#[test]
fn broadcast_address_calculation() {
    let addr = "1.2.1.3/28".parse::<IPv4Address>();
    assert!(addr.is_ok());
    assert_eq!(addr.unwrap().broadcast_address, (1, 2, 1, 15));

    let addr = "1.2.1.16/28".parse::<IPv4Address>();
    assert!(addr.is_ok());
    assert_eq!(addr.unwrap().broadcast_address, (1, 2, 1, 31));
}

#[test]
fn ip_is_parsed_only_if_octets_are_valid() {
    assert!("256.255.255.1/23".parse::<IPv4Address>().is_err());
    assert!("255.257.255.1/23".parse::<IPv4Address>().is_err());
    assert!("255.255.259.1/23".parse::<IPv4Address>().is_err());
    assert!("255.255.255.258/23".parse::<IPv4Address>().is_err());
    assert!("255.255.255.255/23".parse::<IPv4Address>().is_ok());
}

#[test]
fn ip_is_parsed_only_if_subnet_mask_is_valid() {
    assert!("1.1.3.1/33".parse::<IPv4Address>().is_err());
    assert!("1.1.1.1/32".parse::<IPv4Address>().is_ok());
    assert!("1.1.1.1/0".parse::<IPv4Address>().is_ok());
}

#[test]
fn ip_is_parsed_only_if_addr_subnet_mask_is_present() {
    assert!("1.12.1.4".parse::<IPv4Address>().is_err());
    assert!("1.3.1.5/23".parse::<IPv4Address>().is_ok());
}

#[test]
fn ip_is_parsed_only_if_there_are_4_octets() {
    assert!("1.1.1/12".parse::<IPv4Address>().is_err());
    assert!("1.1.1.1.1/12".parse::<IPv4Address>().is_err());
    assert!("1.1.1.1/24".parse::<IPv4Address>().is_ok());
}

#[test]
fn error_kind_for_each_failure() {
    assert_eq!(
        "256.255.255.1/23".parse::<IPv4Address>().unwrap_err(),
        ParseError::InvalidOctet
    );
    assert_eq!(
        "a.2.3.4/8".parse::<IPv4Address>().unwrap_err(),
        ParseError::InvalidOctet
    );
    assert_eq!(
        "1.1.3.1/33".parse::<IPv4Address>().unwrap_err(),
        ParseError::InvalidPrefixLength
    );
    assert_eq!(
        "1.2.3.4/x".parse::<IPv4Address>().unwrap_err(),
        ParseError::InvalidPrefixLength
    );
    assert_eq!(
        "1.1.1/12".parse::<IPv4Address>().unwrap_err(),
        ParseError::MalformedInput
    );
    assert_eq!(
        "1.12.1.4".parse::<IPv4Address>().unwrap_err(),
        ParseError::MalformedInput
    );
    assert_eq!(
        "1.2.3.4/8/9".parse::<IPv4Address>().unwrap_err(),
        ParseError::MalformedInput
    );
    assert_eq!(
        "".parse::<IPv4Address>().unwrap_err(),
        ParseError::MalformedInput
    );
    assert_eq!(
        "1.2.3.4/".parse::<IPv4Address>().unwrap_err(),
        ParseError::InvalidPrefixLength
    );
    assert_eq!(
        "/24".parse::<IPv4Address>().unwrap_err(),
        ParseError::MalformedInput
    );
}

#[test]
fn boundary_prefixes() {
    let addr = "1.1.1.1/0".parse::<IPv4Address>().unwrap();
    assert_eq!(addr.subnet_mask, (0, 0, 0, 0));
    assert_eq!(addr.network_address, (0, 0, 0, 0));
    assert_eq!(addr.broadcast_address, (255, 255, 255, 255));

    let addr = "1.1.1.1/32".parse::<IPv4Address>().unwrap();
    assert_eq!(addr.subnet_mask, (255, 255, 255, 255));
    assert_eq!(addr.network_address, (1, 1, 1, 1));
    assert_eq!(addr.broadcast_address, (1, 1, 1, 1));
}

#[test]
fn network_and_broadcast_bracket_the_address() {
    for input in [
        "10.20.30.40/13",
        "192.168.1.10/24",
        "255.255.255.255/23",
        "0.0.0.0/0",
        "81.17.92.3/32",
    ] {
        let addr = input.parse::<IPv4Address>().unwrap();
        let net = as_u32(addr.network_address);
        let lit = as_u32(addr.address);
        let bc = as_u32(addr.broadcast_address);
        assert!(net <= lit);
        assert!(lit <= bc);
        assert_eq!(net | (bc ^ net), bc);
    }
}

#[test]
fn parsing_is_pure() {
    let first = "10.0.0.7/8".parse::<IPv4Address>().unwrap();
    let second = "10.0.0.7/8".parse::<IPv4Address>().unwrap();
    assert_eq!(first.address, second.address);
    assert_eq!(first.cidr_bits, second.cidr_bits);
    assert_eq!(first.subnet_mask, second.subnet_mask);
    assert_eq!(first.network_address, second.network_address);
    assert_eq!(first.broadcast_address, second.broadcast_address);
}

#[test]
fn trailing_whitespace_is_trimmed() {
    let addr = "1.2.3.4 /24".parse::<IPv4Address>().unwrap();
    assert_eq!(addr.address, (1, 2, 3, 4));

    let addr = "1.2.3.4/24 ".parse::<IPv4Address>().unwrap();
    assert_eq!(addr.cidr_bits, 24);

    let addr = "1.2.3.4/24\u{a0}".parse::<IPv4Address>().unwrap();
    assert_eq!(addr.cidr_bits, 24);

    assert!(" 1.2.3.4/24".parse::<IPv4Address>().is_err());
    assert!("1.2.3.4/ 24".parse::<IPv4Address>().is_err());
    assert!("1. 2.3.4/24".parse::<IPv4Address>().is_err());
}

#[test]
fn leading_zeros_are_accepted() {
    let addr = "001.002.003.004/024".parse::<IPv4Address>().unwrap();
    assert_eq!(addr.address, (1, 2, 3, 4));
    assert_eq!(addr.cidr_bits, 24);
}

#[test]
fn sign_characters_are_rejected() {
    assert!("+1.2.3.4/24".parse::<IPv4Address>().is_err());
    assert!("-1.2.3.4/24".parse::<IPv4Address>().is_err());
    assert!("1.2.3.4/+24".parse::<IPv4Address>().is_err());
}

#[test]
fn info_report_text() {
    let addr = "1.2.1.3/24".parse::<IPv4Address>().unwrap();
    let expected = "=====================================\n\
                    Host: 1.2.1.3/24\n\
                    =====================================\n\
                    IP Address: 1.2.1.3\n\
                    Subnet Mask: 255.255.255.0\n\
                    Network Address: 1.2.1.0\n\
                    Broadcast Address: 1.2.1.255";
    assert_eq!(addr.info(), expected);

    let addr = "255.0.16.255/15".parse::<IPv4Address>().unwrap();
    let expected = "=====================================\n\
                    Host: 255.0.16.255/15\n\
                    =====================================\n\
                    IP Address: 255.0.16.255\n\
                    Subnet Mask: 255.254.0.0\n\
                    Network Address: 255.0.0.0\n\
                    Broadcast Address: 255.1.255.255";
    assert_eq!(addr.info(), expected);
}
