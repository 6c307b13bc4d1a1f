use parity_wasm::builder;
use parity_wasm::elements::{GlobalEntry, GlobalType, InitExpr, Instruction, Internal, Module, ValueType};
use smart_ir::ir_config::{IROptions, OptimizationLevel, Target};
use smart_ir::linker::{
    finish_linked_wasm, get_clang_rt_lib_dir, link, platform_string, remove_exports_named, start_function_index,
    wasm_link_args, Export, ExportInternal, LinkError,
};

fn strs(v: &[&str]) -> Vec<String> {
    v.iter().map(|s| s.to_string()).collect()
}

#[test]
fn platform_strings() {
    assert_eq!(platform_string(true, false, false), "windows");
    assert_eq!(platform_string(false, true, false), "macos");
    assert_eq!(platform_string(false, false, true), "linux");
}

#[test]
fn clang_rt_dir_is_under_wasi() {
    assert_eq!(get_clang_rt_lib_dir("/opt/ir/lib", "linux"), "/opt/ir/lib/wasi/linux");
    assert_eq!(get_clang_rt_lib_dir("/opt/ir/lib/", "macos"), "/opt/ir/lib/wasi/macos");
}

#[test]
fn link_args_for_a_contract() {
    let opts = IROptions::default_with_coverage(false);
    let args = wasm_link_args(
        &OptimizationLevel::Aggressive,
        "rt",
        &strs(&["println", "get_call_sender"]),
        &strs(&["main"]),
        &opts,
        "/tmp/a.o",
        "/tmp/a.wasm",
    );
    assert_eq!(
        args,
        strs(&[
            "-O3",
            "--allow-undefined",
            "--gc-sections",
            "--global-base=0",
            "--stack-first",
            "-lclang_rt.builtins-wasm32",
            "-L/rt",
            "--no-entry",
            "--undefined=println",
            "--undefined=get_call_sender",
            "--export",
            "__wasm_call_ctors",
            "--export",
            "main",
            "/tmp/a.o",
            "-o",
            "/tmp/a.wasm",
        ])
    );
}

#[test]
fn link_args_without_contract_host_apis() {
    let mut opts = IROptions::default_with_coverage(false);
    opts.no_contract = true;
    opts.create_empty_start = true;
    let args = wasm_link_args(&OptimizationLevel::NoOptimization, "rt", &strs(&["println"]), &strs(&["f", "g"]), &opts, "a.o", "a.wasm");
    assert_eq!(
        args,
        strs(&[
            "-O0",
            "--allow-undefined",
            "--gc-sections",
            "--global-base=0",
            "--stack-first",
            "-lclang_rt.builtins-wasm32",
            "-L/rt",
            "--export",
            "__wasm_call_ctors",
            "--export",
            "f",
            "--export",
            "g",
            "--export",
            "$ir_contract_internal_f",
            "--export",
            "$ir_contract_internal_g",
            "a.o",
            "hostapi_mock.wasm",
            "-o",
            "a.wasm",
        ])
    );
    let all = wasm_link_args(&OptimizationLevel::Less, "rt", &vec![], &vec![], &opts, "a.o", "a.wasm");
    assert!(all.contains(&"--export-all".to_string()));
    assert!(!all.contains(&"__wasm_call_ctors".to_string()));
}

fn export(name: &str, internal: ExportInternal) -> Export {
    Export { field: name.to_string(), internal }
}

#[test]
fn start_function_is_the_first_named_export() {
    let exps = vec![
        export("a", ExportInternal::Function(1)),
        export("_inner_start", ExportInternal::Function(4)),
        export("_inner_start", ExportInternal::Function(5)),
    ];
    assert_eq!(start_function_index(&exps, "_inner_start"), Some(4));
    assert_eq!(start_function_index(&exps, "missing"), None);
    let not_fn = vec![export("_inner_start", ExportInternal::Global(0))];
    assert_eq!(start_function_index(&not_fn, "_inner_start"), None);
    let kept = remove_exports_named(&exps, "_inner_start");
    assert_eq!(kept.len(), 1);
    assert_eq!(kept[0].field, "a");
    assert_eq!(kept[0].internal, ExportInternal::Function(1));
}

fn sample_module(with_start_export: bool, with_global: bool) -> Vec<u8> {
    let mut b = builder::module()
        .function()
        .signature()
        .build()
        .body()
        .build()
        .build()
        .export()
        .field("main")
        .internal()
        .func(0)
        .build();
    if with_start_export {
        b = b.export().field("_inner_start").internal().func(0).build();
    }
    if with_global {
        b = b.with_global(GlobalEntry::new(
            GlobalType::new(ValueType::I32, true),
            InitExpr::new(vec![Instruction::I32Const(5), Instruction::End]),
        ));
    }
    parity_wasm::serialize(b.build()).unwrap()
}

#[test]
fn finishing_sets_start_and_stack_pointer() {
    let out = finish_linked_wasm(&sample_module(true, true)).unwrap();
    let m: Module = parity_wasm::deserialize_buffer(&out).unwrap();
    assert_eq!(m.start_section(), Some(0));
    let names: Vec<&str> = m.export_section().unwrap().entries().iter().map(|e| e.field()).collect();
    assert_eq!(names, vec!["main"]);
    assert!(matches!(m.export_section().unwrap().entries()[0].internal(), Internal::Function(0)));
    let g = &m.global_section().unwrap().entries()[0];
    assert_eq!(g.init_expr().code(), &[Instruction::I32Const(0x10000), Instruction::End]);
}

#[test]
fn finishing_without_start_export_keeps_exports() {
    let out = link(Target::Wasm, &sample_module(false, true)).unwrap();
    let m: Module = parity_wasm::deserialize_buffer(&out).unwrap();
    assert_eq!(m.start_section(), None);
    assert_eq!(m.export_section().unwrap().entries().len(), 1);
}

#[test]
fn finishing_reports_errors() {
    assert_eq!(finish_linked_wasm(&[1, 2, 3]).unwrap_err(), LinkError::Deserialize);
    assert_eq!(finish_linked_wasm(&sample_module(true, false)).unwrap_err(), LinkError::NoGlobalSection);
    assert_eq!(LinkError::Deserialize.message(), "cannot deserialize llvm wasm");
}

#[test]
fn clang_rt_dir_on_windows_uses_backslashes() {
    assert_eq!(get_clang_rt_lib_dir("C:\\ir\\lib", "windows"), "C:\\ir\\lib\\wasi\\windows");
    assert_eq!(get_clang_rt_lib_dir("C:/ir/lib/", "windows"), "C:/ir/lib/wasi\\windows");
}

#[test]
fn finishing_keeps_the_other_sections() {
    let input: Module = parity_wasm::deserialize_buffer(&sample_module(true, true)).unwrap();
    let out = finish_linked_wasm(&sample_module(true, true)).unwrap();
    let m: Module = parity_wasm::deserialize_buffer(&out).unwrap();
    assert_eq!(m.code_section().unwrap().bodies(), input.code_section().unwrap().bodies());
    assert_eq!(m.function_section().unwrap().entries(), input.function_section().unwrap().entries());
    assert_eq!(m.type_section().unwrap().types(), input.type_section().unwrap().types());
}
