use bech32::{Bech32, ToBase32};
use ln_bootstrap::{
    SeedAction, SeedRotation, SrvRecord, key_bytes_from_label, node_key_from_label, order_srv_records, pick_weighted,
};
use secp256k1::PublicKey;

fn rec(priority: u16, weight: u16, target: usize) -> SrvRecord {
    SrvRecord { priority, weight, port: 9735, target }
}

#[test]
fn pick_weighted_takes_first_reaching_record() {
    let group = vec![rec(1, 2, 0), rec(1, 3, 1), rec(1, 5, 2)];
    assert_eq!(pick_weighted(&group, 0), 0);
    assert_eq!(pick_weighted(&group, 2), 0);
    assert_eq!(pick_weighted(&group, 3), 1);
    assert_eq!(pick_weighted(&group, 5), 1);
    assert_eq!(pick_weighted(&group, 6), 2);
    assert_eq!(pick_weighted(&group, 10), 2);
    let zeros = vec![rec(1, 0, 0), rec(1, 0, 1)];
    assert_eq!(pick_weighted(&zeros, 0), 0);
}

#[test]
fn lower_priority_comes_first() {
    let records = vec![rec(20, 1, 0), rec(10, 5, 1), rec(30, 0, 2), rec(10, 5, 3)];
    for _ in 0..200 {
        let out = order_srv_records(&records);
        assert_eq!(out.len(), 4);
        let prios: Vec<u16> = out.iter().map(|r| r.priority).collect();
        assert_eq!(prios, vec![10, 10, 20, 30]);
        let mut targets: Vec<usize> = out.iter().map(|r| r.target).collect();
        targets.sort();
        assert_eq!(targets, vec![0, 1, 2, 3]);
    }
}

#[test]
fn weighted_srv_equal_weights() {
    let records = vec![rec(10, 5, 0), rec(10, 5, 1), rec(20, 1, 2)];
    let trials = 4000;
    let mut first_zero = 0;
    for _ in 0..trials {
        let out = order_srv_records(&records);
        assert_eq!(out[2].target, 2);
        if out[0].target == 0 {
            first_zero += 1;
        }
    }
    let freq = first_zero as f64 / trials as f64;
    assert!(freq > 0.4 && freq < 0.6, "frequency {}", freq);
}

#[test]
fn weighted_srv_frequencies() {
    let records = vec![rec(1, 300, 0), rec(1, 100, 1)];
    let trials = 10_000;
    let mut light_first = 0;
    for _ in 0..trials {
        if order_srv_records(&records)[0].target == 1 {
            light_first += 1;
        }
    }
    let freq = light_first as f64 / trials as f64;
    assert!((freq - 0.25).abs() < 0.05, "frequency {}", freq);
}

#[test]
fn order_of_empty_set_is_empty() {
    assert!(order_srv_records(&vec![]).is_empty());
}

fn lookup_seed(r: &mut SeedRotation<&'static str>) -> usize {
    match r.next_action() {
        SeedAction::Lookup { seed } => seed,
        _ => panic!("expected a lookup"),
    }
}

#[test]
fn seed_exhaustion() {
    let mut r: SeedRotation<&'static str> = SeedRotation::new(2);
    let s = lookup_seed(&mut r);
    assert_eq!(s, 0);
    r.record_failure(s, "timeout");
    let s = lookup_seed(&mut r);
    assert_eq!(s, 1);
    r.record_failure(s, "refused");
    match r.next_action() {
        SeedAction::AllFailed { failures } => {
            assert_eq!(failures, vec![(0, "timeout"), (1, "refused")]);
        },
        _ => panic!("expected exhaustion"),
    }
    assert!(matches!(r.next_action(), SeedAction::Done));
}

#[test]
fn success_clears_seed_failures() {
    let mut r: SeedRotation<&'static str> = SeedRotation::new(2);
    let s = lookup_seed(&mut r);
    r.record_failure(s, "timeout");
    let s = lookup_seed(&mut r);
    assert_eq!(s, 1);
    r.record_success();
    let s = lookup_seed(&mut r);
    assert_eq!(s, 0);
    r.record_failure(s, "a");
    let s = lookup_seed(&mut r);
    assert_eq!(s, 1);
    r.record_failure(s, "b");
    match r.next_action() {
        SeedAction::AllFailed { failures } => assert_eq!(failures, vec![(0, "a"), (1, "b")]),
        _ => panic!("expected exhaustion"),
    }
}

#[test]
fn one_failure_then_success_does_not_exhaust() {
    let mut r: SeedRotation<&'static str> = SeedRotation::new(2);
    let s = lookup_seed(&mut r);
    r.record_failure(s, "x");
    r.record_success();
    let s = lookup_seed(&mut r);
    r.record_failure(s, "y");
    assert_eq!(lookup_seed(&mut r), 0);
}

const GENERATOR: [u8; 33] = [
    0x02, 0x79, 0xbe, 0x66, 0x7e, 0xf9, 0xdc, 0xbb, 0xac, 0x55, 0xa0, 0x62, 0x95, 0xce, 0x87,
    0x0b, 0x07, 0x02, 0x9b, 0xfc, 0xdb, 0x2d, 0xce, 0x28, 0xd9, 0x59, 0xf2, 0x81, 0x5b, 0x16,
    0xf8, 0x17, 0x98,
];

#[test]
fn node_key_decodes_from_label() {
    let label = Bech32::new("ln".to_string(), GENERATOR.to_base32()).unwrap().to_string();
    let key = node_key_from_label(label.as_bytes()).unwrap();
    assert_eq!(key, PublicKey::from_slice(&GENERATOR).unwrap());
    assert_eq!(&key.serialize()[..], &GENERATOR[..]);
    assert_eq!(key_bytes_from_label(label.as_bytes()).unwrap(), GENERATOR.to_vec());
}

#[test]
fn bad_labels_give_no_key() {
    assert!(node_key_from_label(&[0xff, 0xfe]).is_none());
    assert!(node_key_from_label(b"lseed").is_none());
    let short = Bech32::new("ln".to_string(), GENERATOR[..20].to_vec().to_base32()).unwrap().to_string();
    assert!(node_key_from_label(short.as_bytes()).is_none());
    assert_eq!(key_bytes_from_label(short.as_bytes()).unwrap(), GENERATOR[..20].to_vec());
    assert!(key_bytes_from_label(b"ln1qqqqqqqqqqqqqq").is_none());
}
