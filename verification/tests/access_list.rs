use aquatic_tracker::access_list::{
    update_access_list, AccessList, AccessListConfig, AccessListError, AccessListMode,
};
use aquatic_tracker::hex::InfoHashParseError;

#[test]
fn test_parse_info_hash() {
    let f = AccessList::parse_info_hash;

    assert!(f("aaaabbbbccccddddeeeeaaaabbbbccccddddeeee".into()).is_ok());
    assert!(f("aaaabbbbccccddddeeeeaaaabbbbccccddddeeeef".into()).is_err());
    assert!(f("aaaabbbbccccddddeeeeaaaabbbbccccddddeee".into()).is_err());
    assert!(f("aaaabbbbccccddddeeeeaaaabbbbccccddddeeeö".into()).is_err());
}

#[test]
fn parse_info_hash_decodes_the_digits() {
    let parsed = AccessList::parse_info_hash("000102030405060708090a0b0c0d0e0f10a1b2ff".into());
    assert_eq!(
        parsed,
        Ok([0, 1, 2, 3, 4, 5, 6, 7, 8, 9, 10, 11, 12, 13, 14, 15, 16, 0xa1, 0xb2, 0xff])
    );
}

#[test]
fn parse_info_hash_names_each_error() {
    let f = AccessList::parse_info_hash;
    assert_eq!(f("abc".into()), Err(InfoHashParseError::OddLength));
    assert_eq!(f("".into()), Err(InfoHashParseError::InvalidLength));
    assert_eq!(f("abcd".into()), Err(InfoHashParseError::InvalidLength));
    assert_eq!(
        f("aaaabbbbccccddddeeeeaaaabbbbccccddddeeeg".into()),
        Err(InfoHashParseError::InvalidCharacter { index: 39 })
    );
    assert_eq!(
        f("aaaaBbbbccccddddeeeeaaaabbbbccccddddeeeg".into()),
        Err(InfoHashParseError::InvalidCharacter { index: 4 })
    );
    assert_eq!(
        f("AAAABBBBCCCCDDDDEEEEAAAABBBBCCCCDDDDEEEE".into()),
        Err(InfoHashParseError::InvalidCharacter { index: 0 })
    );
}

#[test]
fn access_list_modes() {
    let mut list = AccessList::default();
    let a = [0x11u8; 20];
    let b = [0x22u8; 20];
    let lines = vec!["1111111111111111111111111111111111111111".to_string()];
    assert_eq!(list.update_from_lines(&lines), Ok(()));
    assert!(list.allows(AccessListMode::Require, &a));
    assert!(!list.allows(AccessListMode::Require, &b));
    assert!(!list.allows(AccessListMode::Forbid, &a));
    assert!(list.allows(AccessListMode::Forbid, &b));
    assert!(list.allows(AccessListMode::Ignore, &a));
    assert!(list.allows(AccessListMode::Ignore, &b));
}

#[test]
fn failed_reload_keeps_the_old_list() {
    let mut list = AccessList::default();
    let a = [0x11u8; 20];
    let b = [0x22u8; 20];
    let good = vec!["1111111111111111111111111111111111111111".to_string()];
    assert_eq!(list.update_from_lines(&good), Ok(()));
    let bad = vec![
        "2222222222222222222222222222222222222222".to_string(),
        "".to_string(),
        "zz".to_string(),
    ];
    assert_eq!(
        list.update_from_lines(&bad),
        Err(AccessListError::MalformedLine { line: 1, cause: InfoHashParseError::InvalidLength })
    );
    assert!(list.allows(AccessListMode::Require, &a));
    assert!(!list.allows(AccessListMode::Require, &b));
}

#[test]
fn reload_replaces_the_list() {
    let mut list = AccessList::default();
    let a = [0x11u8; 20];
    let b = [0x22u8; 20];
    let config = AccessListConfig { mode: AccessListMode::Require, path: "list.txt".to_string() };
    let first = vec!["1111111111111111111111111111111111111111".to_string()];
    assert_eq!(update_access_list(&config, &mut list, &first), Ok(()));
    assert!(list.allows(config.mode, &a));
    let second = vec!["2222222222222222222222222222222222222222".to_string()];
    assert_eq!(update_access_list(&config, &mut list, &second), Ok(()));
    assert!(!list.allows(config.mode, &a));
    assert!(list.allows(config.mode, &b));
    assert_eq!(update_access_list(&config, &mut list, &second), Ok(()));
    assert!(!list.allows(config.mode, &a));
    assert!(list.allows(config.mode, &b));
}

#[test]
fn ignore_mode_reads_no_lines() {
    let mut list = AccessList::default();
    let config = AccessListConfig::default();
    assert_eq!(config.mode, AccessListMode::Ignore);
    assert_eq!(config.path, "");
    assert!(!config.mode.uses_file());
    assert!(AccessListMode::Require.uses_file());
    assert!(AccessListMode::Forbid.uses_file());
    let bad = vec!["not a hash".to_string()];
    assert_eq!(update_access_list(&config, &mut list, &bad), Ok(()));
    assert!(list.allows(AccessListMode::Ignore, &[0u8; 20]));
    assert!(!list.allows(AccessListMode::Require, &[0u8; 20]));
}
