use chm::catalog::MigrationUnit;
use chm::errors::MigrationError;
use chm::catalog::parse_unit_name;
use chm::version::{check_version, version_le};

#[test]
fn accepts_a_well_formed_version() {
    assert!(check_version("2024-01-01-000000"));
    assert!(check_version("1999-12-31-235959"));
    assert!(check_version("0001-06-15-120000"));
}

#[test]
fn rejects_wrong_shapes() {
    assert!(!check_version(""));
    assert!(!check_version("2024-01-01"));
    assert!(!check_version("2024-01-01-0000000"));
    assert!(!check_version("2024_01_01_000000"));
    assert!(!check_version("2024-01-01 000000"));
    assert!(!check_version("20x4-01-01-000000"));
}

#[test]
fn rejects_impossible_dates_and_times() {
    assert!(!check_version("2024-00-01-000000"));
    assert!(!check_version("2024-13-01-000000"));
    assert!(!check_version("2024-01-00-000000"));
    assert!(!check_version("2024-01-32-000000"));
    assert!(!check_version("2024-04-31-000000"));
    assert!(!check_version("2024-01-01-240000"));
    assert!(!check_version("2024-01-01-006000"));
    assert!(!check_version("2024-01-01-000060"));
}

#[test]
fn knows_leap_years() {
    assert!(check_version("2024-02-29-000000"));
    assert!(!check_version("2023-02-29-000000"));
    assert!(check_version("2000-02-29-000000"));
    assert!(!check_version("1900-02-29-000000"));
    assert!(!check_version("2024-02-30-000000"));
}

#[test]
fn orders_versions_lexicographically() {
    assert!(version_le("2024-01-01-000000", "2024-01-02-000000"));
    assert!(!version_le("2024-01-02-000000", "2024-01-01-000000"));
    assert!(version_le("2024-01-01-000000", "2024-01-01-000000"));
    assert!(version_le("2023-12-31-235959", "2024-01-01-000000"));
}

#[test]
fn parses_a_well_formed_entry() {
    let u = parse_unit_name("2024-01-01-000000_create_users").unwrap();
    assert_eq!(u.version, "2024-01-01-000000");
    assert_eq!(u.name, "create_users");
}

#[test]
fn splits_at_the_first_underscore_only() {
    let u = parse_unit_name("2024-01-01-000000_add_more_columns").unwrap();
    assert_eq!(u.version, "2024-01-01-000000");
    assert_eq!(u.name, "add_more_columns");
}

#[test]
fn rejects_an_entry_without_underscore() {
    let e = parse_unit_name("2024-01-01-000000").unwrap_err();
    assert!(matches!(e, MigrationError::BadInput { entry } if entry == "2024-01-01-000000"));
}

#[test]
fn rejects_an_entry_with_a_bad_version() {
    let e = parse_unit_name("2024-13-01-000000_oops").unwrap_err();
    assert!(matches!(e, MigrationError::BadInput { entry } if entry == "2024-13-01-000000_oops"));
}

#[test]
fn dir_name_restores_the_entry() {
    let u = MigrationUnit {
        version: String::from("2024-01-01-000000"),
        name: String::from("create_users"),
    };
    assert_eq!(u.dir_name(), "2024-01-01-000000_create_users");
    let back = parse_unit_name(&u.dir_name()).unwrap();
    assert_eq!(back.version, u.version);
    assert_eq!(back.name, u.name);
}
