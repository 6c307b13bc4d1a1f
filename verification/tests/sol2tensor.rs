use smart_ir::sol2tensor::{
    contract_address, get_yul, last_segment, normalize_source, replace, solc_version, yul_key, ContractOutput,
    FileOutput,
};

#[test]
fn solc_versions() {
    assert_eq!(solc_version("v0.8.11+commit.d7f03943").as_deref(), Some("0.8.11"));
    assert_eq!(solc_version("v0.4.24+commit.e67f0147"), Some("0.4.24".to_string()));
    assert_eq!(solc_version("0.8.11"), None);
}

#[test]
fn sources_are_normalized() {
    assert_eq!(normalize_source("{{\r\n  \"a\": 1\r\n}}"), "{\n  \"a\": 1\n}");
    assert_eq!(normalize_source("a\r\r\nb"), "a\r\nb");
    assert_eq!(replace("aaa", "aa", "b"), "ba");
    assert_eq!(replace("", "x", "y"), "");
}

#[test]
fn addresses_and_keys() {
    assert_eq!(contract_address("0xabc.json"), "0xabc");
    assert_eq!(contract_address("0xabc.sol.json"), "0xabc");
    assert_eq!(contract_address("noext"), "noext");
    assert_eq!(last_segment("contracts/token/ERC20.sol"), "ERC20.sol");
    assert_eq!(last_segment("ERC20.sol"), "ERC20.sol");
    assert_eq!(yul_key("0xabc", "src/A.sol", "A"), "0xabc:A.sol:A");
}

fn contract(name: &str, ir: Option<&str>) -> ContractOutput {
    ContractOutput { name: name.to_string(), ir: ir.map(|s| s.to_string()) }
}

#[test]
fn get_yul_keeps_non_empty_programs() {
    let files = vec![
        FileOutput { name: "a/X.sol".to_string(), contracts: vec![contract("A", Some("{ }")), contract("B", Some("")), contract("C", None)] },
        FileOutput { name: "b/X.sol".to_string(), contracts: vec![contract("A", Some("{ stop() }")), contract("D", Some("{ d }"))] },
    ];
    let mut r = get_yul("0x1", &files);
    r.sort();
    assert_eq!(
        r,
        vec![
            ("0x1:X.sol:A".to_string(), "{ stop() }".to_string()),
            ("0x1:X.sol:D".to_string(), "{ d }".to_string()),
        ]
    );
}

#[test]
fn replace_with_an_empty_pattern_interleaves() {
    assert_eq!(replace("abc", "", "x"), "abc".replace("", "x"));
    assert_eq!(replace("abc", "", "x"), "xaxbxcx");
    assert_eq!(replace("", "", "x"), "x");
}
