//! Tests of `rollup`.
use leaf_codegen::rollup::{roll_up, roll_up_groups, ConfigGroup, ConfigMetadataRow, ContractId};


fn row(prefix: &str, contract: u64) -> ConfigMetadataRow {
    ConfigMetadataRow {
        contract: ContractId(contract),
        prefix: prefix.to_string(),
    }
}

#[test]
fn rolls_up_distinct_prefixes_sorted() {
    let rows = vec![row("server", 3), row("app", 1), row("redis", 2)];
    let rollup = roll_up(&rows);
    assert!(rollup.is_clean());
    let prefixes: Vec<&str> = rollup.rows.iter().map(|r| r.prefix.as_str()).collect();
    assert_eq!(prefixes, vec!["app", "redis", "server"]);
}

#[test]
fn the_same_prefix_from_one_contract_is_not_a_duplicate() {
    let rows = vec![row("app", 1), row("app", 1)];
    let rollup = roll_up(&rows);
    assert!(rollup.is_clean(), "duplicates: {:?}", rollup.duplicates);
    assert_eq!(rollup.rows.len(), 1);
}

#[test]
fn two_contracts_on_one_prefix_is_a_loud_duplicate() {
    let rows = vec![row("app", 7), row("app", 2)];
    let rollup = roll_up(&rows);
    assert!(!rollup.is_clean());
    assert_eq!(rollup.duplicates.len(), 1);
    let dup = &rollup.duplicates[0];
    assert_eq!(dup.prefix, "app");
    assert_eq!(dup.contracts, vec![ContractId(2), ContractId(7)]);
}

#[test]
fn the_representative_row_is_the_lowest_contract() {
    let rows = vec![row("app", 9), row("app", 4)];
    let rollup = roll_up(&rows);
    assert_eq!(rollup.row("app").unwrap().contract, ContractId(4));
}

#[test]
fn duplicates_are_sorted_by_prefix() {
    let rows = vec![
        row("zeta", 1),
        row("zeta", 2),
        row("alpha", 3),
        row("alpha", 4),
    ];
    let rollup = roll_up(&rows);
    let dup_prefixes: Vec<&str> = rollup.duplicates.iter().map(|d| d.prefix.as_str()).collect();
    assert_eq!(dup_prefixes, vec!["alpha", "zeta"]);
}

#[test]
fn an_empty_input_rolls_up_to_an_empty_clean_rollup() {
    let rollup = roll_up(&[]);
    assert!(rollup.is_clean());
    assert!(rollup.rows.is_empty());
}

#[test]
fn roll_up_groups_bridges_through_the_minimal_row() {
    let group_a = ConfigGroup {
        prefix: "app".to_string(),
        type_path: "a::AppProps".to_string(),
        description: None,
        contract: ContractId(5),
    };
    let group_b = ConfigGroup {
        prefix: "app".to_string(),
        type_path: "b::OtherProps".to_string(),
        description: None,
        contract: ContractId(8),
    };
    let rollup = roll_up_groups(&[group_a, group_b]);
    assert!(!rollup.is_clean());
    assert_eq!(rollup.duplicates[0].prefix, "app");
    assert_eq!(rollup.duplicates[0].contracts, vec![ContractId(5), ContractId(8)]);
}
