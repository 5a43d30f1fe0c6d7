use std::collections::HashMap;
use delphi_rs::parse::{parse_val_string, parse_i64, parse_u16, chars_of, IntErrorKind};
use delphi_rs::config::{ACSParams, DRBParams, Node, Algorithm, ParseError, KeySizes, is_valid_replica, is_approx_payload};

#[test]
fn parse_values_trimmed_and_skipping_empty() {
    assert_eq!(parse_val_string("1, 2,3"), Ok(vec![1, 2, 3]));
    assert_eq!(parse_val_string(" -5 , +7 ,, "), Ok(vec![-5, 7]));
    assert_eq!(parse_val_string(""), Ok(vec![]));
    assert_eq!(parse_val_string(" , ,"), Ok(vec![]));
    assert_eq!(parse_val_string("\u{3000}4\u{A0},\t\n12"), Ok(vec![4, 12]));
}

#[test]
fn parse_values_extremes() {
    assert_eq!(parse_val_string("9223372036854775807,-9223372036854775808"), Ok(vec![i64::MAX, i64::MIN]));
}

#[test]
fn parse_values_errors() {
    assert_eq!(parse_val_string("1,x"), Err("Failed to parse 'x' as i64: invalid digit found in string".to_string()));
    assert_eq!(parse_val_string(" 1 2 "), Err("Failed to parse '1 2' as i64: invalid digit found in string".to_string()));
    assert_eq!(parse_val_string("9223372036854775808"), Err("Failed to parse '9223372036854775808' as i64: number too large to fit in target type".to_string()));
    assert_eq!(parse_val_string("-9223372036854775809"), Err("Failed to parse '-9223372036854775809' as i64: number too small to fit in target type".to_string()));
    assert_eq!(parse_val_string("+"), Err("Failed to parse '+' as i64: invalid digit found in string".to_string()));
    // The first bad piece is reported.
    assert_eq!(parse_val_string("a,b"), Err("Failed to parse 'a' as i64: invalid digit found in string".to_string()));
}

#[test]
fn parse_values_agree_with_std() {
    for s in ["0", "-0", "+12", "007", "12a", "99999999999999999999x", "-", "--1", " 1", "١"] {
        let ours = parse_i64(&chars_of(s));
        let std = s.parse::<i64>();
        match (ours, std) {
            (Ok(a), Ok(b)) => assert_eq!(a, b),
            (Err(k), Err(e)) => {
                let want = match e.kind() {
                    std::num::IntErrorKind::Empty => IntErrorKind::Empty,
                    std::num::IntErrorKind::InvalidDigit => IntErrorKind::InvalidDigit,
                    std::num::IntErrorKind::PosOverflow => IntErrorKind::PosOverflow,
                    std::num::IntErrorKind::NegOverflow => IntErrorKind::NegOverflow,
                    _ => panic!("unexpected kind"),
                };
                assert_eq!(k, want, "text {:?}", s);
            },
            _ => panic!("disagreement on {:?}", s),
        }
    }
}

#[test]
fn parse_u16_as_std() {
    assert_eq!(parse_u16(&chars_of("65535")), Ok(65535));
    assert_eq!(parse_u16(&chars_of("+80")), Ok(80));
    assert_eq!(parse_u16(&chars_of("65536")), Err(IntErrorKind::PosOverflow));
    assert_eq!(parse_u16(&chars_of("-1")), Err(IntErrorKind::InvalidDigit));
    assert_eq!(parse_u16(&chars_of("")), Err(IntErrorKind::Empty));
}

#[test]
fn default_params() {
    assert_eq!(ACSParams::default().kappa, 2);
    let d = DRBParams::default();
    assert_eq!((d.batch, d.frequency), (50, 25));
}

fn sizes() -> KeySizes {
    KeySizes { ed25519_pk: 32, ed25519_pvt: 64, secp256k1_pk: 33, secp256k1_pvt: 32, secret_key: 32 }
}

fn node(n: usize, f: usize) -> Node {
    let mut c = Node::new();
    c.num_nodes = n;
    c.num_faults = f;
    for i in 0..n {
        c.net_map_delphi.insert(i, format!("127.0.0.1:{}", 9000 + i));
        c.pk_map.insert(i, vec![0u8; 32]);
        c.sk_map.insert(i, vec![1u8; 32]);
    }
    c.secret_key_bytes = vec![2u8; 64];
    c
}

#[test]
fn new_node_defaults() {
    let c = Node::new();
    assert_eq!(c.delay, 50);
    assert_eq!(c.acs.kappa, 2);
    assert_eq!(c.crypto_alg, Algorithm::ED25519);
    assert_eq!(c.client_addr, ("0.0.0.0".to_string(), 5000));
    assert!(c.net_map_delphi.is_empty());
}

#[test]
fn validate_accepts_good_config() {
    assert!(node(4, 1).validate(&sizes()).is_ok());
    let mut c = node(4, 1);
    c.crypto_alg = Algorithm::NOPKI;
    assert!(c.validate(&sizes()).is_ok());
}

#[test]
fn validate_errors() {
    let mut c = node(4, 1);
    c.net_map_delphi.remove(&3);
    assert!(matches!(c.validate(&sizes()), Err(ParseError::InvalidMapLen(4, 3))));
    let c = node(4, 2);
    assert!(matches!(c.validate(&sizes()), Err(ParseError::IncorrectFaults(2, 4))));
    let mut c = node(4, 1);
    c.pk_map.insert(7, vec![0u8; 32]);
    assert!(matches!(c.validate(&sizes()), Err(ParseError::InvalidMapEntry(7))));
    let mut c = node(4, 1);
    c.pk_map.insert(2, vec![0u8; 31]);
    assert!(matches!(c.validate(&sizes()), Err(ParseError::InvalidPkSize(31))));
    let mut c = node(4, 1);
    c.secret_key_bytes = vec![0u8; 5];
    assert!(matches!(c.validate(&sizes()), Err(ParseError::InvalidSkSize(5))));
    let mut c = node(4, 1);
    c.crypto_alg = Algorithm::SECP256K1;
    assert!(matches!(c.validate(&sizes()), Err(ParseError::InvalidPkSize(32))));
    let mut c = node(4, 1);
    c.crypto_alg = Algorithm::RSA;
    assert!(matches!(c.validate(&sizes()), Err(ParseError::Unimplemented("RSA"))));
    let mut c = node(4, 1);
    c.crypto_alg = Algorithm::NOPKI;
    c.sk_map.insert(1, vec![1u8; 3]);
    assert!(matches!(c.validate(&sizes()), Err(ParseError::InvalidPkSize(3))));
}

#[test]
fn addresses() {
    let mut c = node(4, 1);
    c.id = 2;
    c.client_port = 7070;
    assert_eq!(c.my_ip(), "127.0.0.1:9002");
    assert_eq!(c.client_ip(), "0.0.0.0:7070");
    c.client_port = 0;
    assert_eq!(c.client_ip(), "0.0.0.0:0");
    assert!(is_valid_replica(3, 4));
    assert!(!is_valid_replica(4, 4));
}

#[test]
fn update_config_enters_addresses() {
    let mut c = Node::new();
    c.num_nodes = 2;
    c.id = 1;
    c.update_config(vec!["1.1.1.1:7000".to_string(), "2.2.2.2:07001".to_string(), "3.3.3.3:9000".to_string()]);
    let mut want: HashMap<usize, String> = HashMap::new();
    want.insert(0, "1.1.1.1:7000".to_string());
    want.insert(1, "0.0.0.0:7001".to_string());
    want.insert(2, "3.3.3.3:9000".to_string());
    assert_eq!(c.net_map_delphi, want);
    assert_eq!(c.client_addr, ("3.3.3.3".to_string(), 9000));
}

#[test]
fn approx_payload_setting() {
    assert!(is_approx_payload(&"a,10".to_string()));
    assert!(is_approx_payload(&"a".to_string()));
    assert!(!is_approx_payload(&"ab,10".to_string()));
    assert!(!is_approx_payload(&"b,10".to_string()));
    assert!(!is_approx_payload(&"".to_string()));
}

#[test]
fn update_config_keeps_other_settings() {
    let mut c = Node::new();
    c.num_nodes = 1;
    c.id = 0;
    c.delay = 7;
    c.block_size = 3;
    c.payload = 9;
    c.prot_payload = "a,5".to_string();
    c.acs.kappa = 4;
    c.drb.batch = 6;
    c.update_config(vec!["1.1.1.1:7000".to_string()]);
    assert_eq!((c.delay, c.block_size, c.payload), (7, 3, 9));
    assert_eq!(c.prot_payload, "a,5");
    assert_eq!((c.acs.kappa, c.drb.batch), (4, 6));
}
