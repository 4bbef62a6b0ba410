use aquatic_tracker::cleaner::{Cleaner, CleanerTick};
use aquatic_tracker::connection_id::{
    constant_time_eq, rotation_due, ConnectionId, ConnectionValidator,
};
use aquatic_tracker::peer::IpAddress;

const S1: [u8; 32] = [7; 32];
const S3: [u8; 32] = [9; 32];

fn s2() -> [u8; 32] {
    let mut secret = [0u8; 32];
    for (i, byte) in secret.iter_mut().enumerate() {
        *byte = i as u8;
    }
    secret
}

fn ip4() -> IpAddress {
    IpAddress::V4([127, 0, 0, 1])
}

fn ip4b() -> IpAddress {
    IpAddress::V4([10, 0, 0, 2])
}

fn ip6() -> IpAddress {
    let mut octets = [0u8; 16];
    octets[15] = 1;
    IpAddress::V6(octets)
}

#[test]
fn connection_ids_are_hmac_sha256_tags_cut_to_64_bits() {
    let validator = ConnectionValidator::new(S1);
    assert_eq!(validator.issue(&ip4()), ConnectionId(0x90ecdac5ca483471));
    assert_eq!(validator.issue(&ip4b()), ConnectionId(0xa394776ce5eaf0d4));
    assert_eq!(validator.issue(&ip6()), ConnectionId(0x620355dd837c7809));
    let other = ConnectionValidator::new(s2());
    assert_eq!(other.issue(&ip4()), ConnectionId(0x10efadbd3c0c8ab5));
    assert_eq!(other.issue(&ip6()), ConnectionId(0x1d302fae600b17c0));
}

#[test]
fn an_id_is_good_for_its_address_only() {
    let validator = ConnectionValidator::new(S1);
    let id = validator.issue(&ip4());
    assert!(validator.verify(id, &ip4()));
    assert!(!validator.verify(id, &ip4b()));
    assert!(!validator.verify(id, &ip6()));
    assert!(!validator.verify(ConnectionId(id.0 ^ 1), &ip4()));
    assert!(!validator.verify(ConnectionId(0), &ip4()));
}

#[test]
fn an_id_survives_one_rotation_and_not_two() {
    let mut validator = ConnectionValidator::new(S1);
    let id = validator.issue(&ip4());
    validator.rotate(s2());
    assert!(validator.verify(id, &ip4()));
    let newer = validator.issue(&ip4());
    assert_eq!(newer, ConnectionId(0x10efadbd3c0c8ab5));
    assert!(validator.verify(newer, &ip4()));
    validator.rotate(S3);
    assert!(!validator.verify(id, &ip4()));
    assert!(validator.verify(newer, &ip4()));
    assert_eq!(validator.issue(&ip4()), ConnectionId(0xa2207a7545a68b84));
    validator.rotate(S1);
    assert!(!validator.verify(newer, &ip4()));
    assert!(validator.verify(id, &ip4()));
}

#[test]
fn equality_in_constant_time() {
    assert!(constant_time_eq(0, 0));
    assert!(constant_time_eq(u64::MAX, u64::MAX));
    assert!(!constant_time_eq(1, 2));
    assert!(!constant_time_eq(0x8000_0000_0000_0000, 0));
}

#[test]
fn the_secret_is_rotated_twice_in_a_lifetime() {
    assert!(!rotation_due(100, 159, 120));
    assert!(rotation_due(100, 160, 120));
    assert!(rotation_due(100, 1000, 120));
    assert!(!rotation_due(100, 99, 120));
    assert!(rotation_due(100, 100, 0));
    assert!(rotation_due(100, 100, 1));
}

#[test]
fn the_cleaner_wakes_at_its_interval() {
    let mut cleaner = Cleaner::new(1000);
    assert_eq!(cleaner.tick(1029, 30, 120), CleanerTick { clean: false, rotate_secret: false });
    assert_eq!(cleaner.tick(1030, 30, 120), CleanerTick { clean: true, rotate_secret: false });
    assert_eq!(cleaner.tick(1059, 30, 120), CleanerTick { clean: false, rotate_secret: false });
    assert_eq!(cleaner.tick(1060, 30, 120), CleanerTick { clean: true, rotate_secret: true });
    assert_eq!(cleaner.tick(1090, 30, 120), CleanerTick { clean: true, rotate_secret: false });
    assert_eq!(cleaner.tick(1100, 30, 120), CleanerTick { clean: false, rotate_secret: false });
    assert_eq!(cleaner.tick(1120, 30, 120), CleanerTick { clean: true, rotate_secret: true });
    assert_eq!(cleaner.tick(500, 30, 120), CleanerTick { clean: false, rotate_secret: false });
}
