use smart_ir::ir_config::{IROptions, OptimizationLevel, Target, DEFAULT_ADDRESS_LENGTH, MAX_ADDRESS_LENGTH};

#[test]
fn level_strings_name_each_level() {
    assert_eq!(OptimizationLevel::NoOptimization.level_string(), "O0");
    assert_eq!(OptimizationLevel::Less.level_string(), "O1");
    assert_eq!(OptimizationLevel::Default.level_string(), "O2");
    assert_eq!(OptimizationLevel::Aggressive.level_string(), "O3");
}

#[test]
fn options_new_keeps_every_argument() {
    let o = IROptions::new(Target::Generic, true, 20, OptimizationLevel::Less, true, true, true, true, true, true, true);
    assert!(o.target == Target::Generic);
    assert!(o.overflow_check);
    assert_eq!(o.address_length, 20);
    assert_eq!(o.opt_level, OptimizationLevel::Less);
    assert!(o.no_contract && o.no_inline && o.verbose && o.use_llvm_toolchain);
    assert!(o.is_test && o.coverage && o.create_empty_start);
}

#[test]
fn default_options_target_wasm_at_o3() {
    let o = IROptions::default_with_coverage(false);
    assert!(o.target == Target::Wasm);
    assert!(!o.overflow_check);
    assert_eq!(o.address_length, DEFAULT_ADDRESS_LENGTH);
    assert_eq!(DEFAULT_ADDRESS_LENGTH, MAX_ADDRESS_LENGTH);
    assert_eq!(MAX_ADDRESS_LENGTH, 28);
    assert_eq!(o.opt_level, OptimizationLevel::Aggressive);
    assert!(!o.no_contract && !o.no_inline && !o.verbose && !o.use_llvm_toolchain);
    assert!(!o.is_test && !o.coverage && !o.create_empty_start);
    assert!(IROptions::default_with_coverage(true).coverage);
}

#[test]
fn default_trait_matches_build_without_coverage() {
    let o = IROptions::default();
    assert!(o.target == Target::Wasm);
    assert!(!o.coverage);
    assert_eq!(o.opt_level, OptimizationLevel::Aggressive);
}
