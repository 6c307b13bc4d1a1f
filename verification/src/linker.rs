//! What the wasm linker is run with and what is done to the module it
//! produces: the platform directory of the compiler-rt library, the
//! command line of `wasm-ld`, and the start function that the linked
//! module gets.

use vstd::prelude::*;
use parity_wasm::builder;
use parity_wasm::elements::{ExportEntry, InitExpr, Instruction, Internal, Module as WasmModule};
use crate::yul::instruction::str_eq;
use crate::ir_config::{IROptions, OptimizationLevel, Target};

verus! {

/// Returns the platform string e.g., "macos", "linux" and "windows", given
/// which of them the build is for.
pub fn platform_string(is_windows: bool, is_macos: bool, is_linux: bool) -> (s: &'static str)
    requires
        is_windows || is_macos || is_linux,
    ensures
        s@ == if is_windows {
            "windows"@
        } else if is_macos {
            "macos"@
        } else {
            "linux"@
        },
{
    if is_windows {
        "windows"
    } else if is_macos {
        "macos"
    } else {
        "linux"
    }
}

/// Whether `c` separates path components: a slash, and on Windows also a
/// backslash.
pub open spec fn is_path_sep(c: char, windows: bool) -> bool {
    c == '/' || (windows && c == '\\')
}

/// `dir` with the relative path `name` appended, a separator between them
/// (a backslash on Windows, else a slash) unless `dir` is empty or already ends with
/// one.
pub open spec fn path_join(dir: Seq<char>, name: Seq<char>, windows: bool) -> Seq<char> {
    if dir.len() == 0 {
        name
    } else if is_path_sep(dir.last(), windows) {
        dir + name
    } else {
        dir + seq![if windows {
            '\\'
        } else {
            '/'
        }] + name
    }
}

fn join(dir: &str, name: &str, windows: bool) -> (s: String)
    ensures
        s@ == path_join(dir@, name@, windows),
{
    let n = dir.unicode_len();
    if n == 0 {
        return String::from_str(name);
    }
    let last = dir.get_char(n - 1);
    if last == '/' || (windows && last == '\\') {
        String::from_str(dir).concat(name)
    } else if windows {
        let s = String::from_str(dir).concat("\\").concat(name);
        proof {
            reveal_strlit("\\");
            assert("\\"@ =~= seq!['\\']);
        }
        s
    } else {
        let s = String::from_str(dir).concat("/").concat(name);
        proof {
            reveal_strlit("/");
            assert("/"@ =~= seq!['/']);
        }
        s
    }
}

/// Returns the clang-rt static library directory under the library
/// directory `lib` for the platform `platform`: `lib/wasi/platform`, with
/// the separators of Windows where `platform` is `windows`.
pub fn get_clang_rt_lib_dir(lib: &str, platform: &str) -> (s: String)
    ensures
        s@ == path_join(path_join(lib@, "wasi"@, platform@ == "windows"@), platform@, platform@ == "windows"@),
{
    let windows = str_eq(platform, "windows");
    let wasi = join(lib, "wasi", windows);
    join(wasi.as_str(), platform, windows)
}

/// The texts of a sequence of strings.
pub open spec fn strs_view(v: Seq<String>) -> Seq<Seq<char>> {
    Seq::new(v.len(), |i: int| v[i]@)
}

/// `--undefined=name` for each name, in order.
pub open spec fn undefined_args(names: Seq<Seq<char>>) -> Seq<Seq<char>>
    decreases names.len(),
{
    if names.len() == 0 {
        Seq::empty()
    } else {
        undefined_args(names.drop_last()).push("--undefined="@ + names.last())
    }
}

/// `--export prefix+name` for each name, in order.
pub open spec fn export_args(prefix: Seq<char>, names: Seq<Seq<char>>) -> Seq<Seq<char>>
    decreases names.len(),
{
    if names.len() == 0 {
        Seq::empty()
    } else {
        export_args(prefix, names.drop_last()).push("--export"@).push(prefix + names.last())
    }
}

/// The flags that every link starts with: the optimization level, the
/// fixed flags and the compiler-rt directory `rt_dir`.
pub open spec fn fixed_link_args(level: Seq<char>, rt_dir: Seq<char>) -> Seq<Seq<char>> {
    seq![
        "-"@ + level,
        "--allow-undefined"@,
        "--gc-sections"@,
        "--global-base=0"@,
        "--stack-first"@,
        "-lclang_rt.builtins-wasm32"@,
        "-L/"@ + rt_dir,
    ]
}

/// The export flags: every symbol when no names are given, else the
/// constructors and each name, and, without contract host APIs, each
/// name's internal ABI function too.
pub open spec fn export_link_args(export_names: Seq<Seq<char>>, no_contract: bool) -> Seq<Seq<char>> {
    if export_names.len() == 0 {
        seq!["--export-all"@]
    } else {
        seq!["--export"@, "__wasm_call_ctors"@] + export_args(Seq::empty(), export_names) + (
        if no_contract {
            export_args("$ir_contract_internal_"@, export_names)
        } else {
            Seq::empty()
        })
    }
}

/// The command line of `wasm-ld` that links the object file `object` into
/// `output` at optimization level `level`: the fixed flags and the
/// compiler-rt directory `rt_dir`; `--no-entry` unless an empty start
/// function is wanted; with contract host APIs, each host API name forced
/// undefined; the export flags; then the object, the host API mock
/// module without contract host APIs, and the output.
pub open spec fn spec_wasm_link_args(
    level: Seq<char>,
    rt_dir: Seq<char>,
    host_api_names: Seq<Seq<char>>,
    export_names: Seq<Seq<char>>,
    no_contract: bool,
    create_empty_start: bool,
    object: Seq<char>,
    output: Seq<char>,
) -> Seq<Seq<char>> {
    fixed_link_args(level, rt_dir) + (if create_empty_start {
        Seq::empty()
    } else {
        seq!["--no-entry"@]
    }) + (if no_contract {
        Seq::empty()
    } else {
        undefined_args(host_api_names)
    }) + export_link_args(export_names, no_contract) + seq![object] + (if no_contract {
        seq!["hostapi_mock.wasm"@]
    } else {
        Seq::empty()
    }) + seq!["-o"@, output]
}

/// The command line starts with the level flag, the fixed flags and the
/// compiler-rt directory; `--no-entry` comes next exactly where no empty
/// start function is wanted, whether or not contract host APIs are on
/// (asking for an empty start only drops that flag); with contract host
/// APIs, each host API is then forced undefined, in order.
pub proof fn law_link_args_entry_and_hosts(
    level: Seq<char>,
    rt_dir: Seq<char>,
    host_api_names: Seq<Seq<char>>,
    export_names: Seq<Seq<char>>,
    no_contract: bool,
    create_empty_start: bool,
    object: Seq<char>,
    output: Seq<char>,
)
    ensures
        ({
            let a = spec_wasm_link_args(
                level,
                rt_dir,
                host_api_names,
                export_names,
                no_contract,
                create_empty_start,
                object,
                output,
            );
            let with_entry = spec_wasm_link_args(
                level,
                rt_dir,
                host_api_names,
                export_names,
                no_contract,
                false,
                object,
                output,
            );
            let e: int = if create_empty_start {
                0
            } else {
                1
            };
            &&& a.len() >= 10
            &&& a.take(7) == seq![
                "-"@ + level,
                "--allow-undefined"@,
                "--gc-sections"@,
                "--global-base=0"@,
                "--stack-first"@,
                "-lclang_rt.builtins-wasm32"@,
                "-L/"@ + rt_dir,
            ]
            &&& !create_empty_start ==> a[7] == "--no-entry"@
            &&& create_empty_start ==> a == with_entry.take(7) + with_entry.skip(8)
            &&& !no_contract ==> forall|k: int|
                0 <= k < host_api_names.len() ==> #[trigger] a[7 + e + k] == "--undefined="@ + host_api_names[k]
        }),
{
    let fixed = fixed_link_args(level, rt_dir);
    let undef = if no_contract {
        Seq::empty()
    } else {
        undefined_args(host_api_names)
    };
    let rest = undef + export_link_args(export_names, no_contract) + seq![object] + (if no_contract {
        seq!["hostapi_mock.wasm"@]
    } else {
        Seq::empty()
    }) + seq!["-o"@, output];
    let entry: Seq<Seq<char>> = if create_empty_start {
        Seq::empty()
    } else {
        seq!["--no-entry"@]
    };
    let a = spec_wasm_link_args(level, rt_dir, host_api_names, export_names, no_contract, create_empty_start, object, output);
    let w = spec_wasm_link_args(level, rt_dir, host_api_names, export_names, no_contract, false, object, output);
    assert(a =~= fixed + entry + rest);
    assert(w =~= fixed + seq!["--no-entry"@] + rest);
    assert(fixed.len() == 7);
    assert(a.take(7) =~= fixed);
    if create_empty_start {
        assert(w.take(7) =~= fixed);
        assert(w.skip(8) =~= rest);
    }
    if !no_contract {
        lemma_undefined_args_index(host_api_names);
        let e: int = if create_empty_start {
            0
        } else {
            1
        };
        assert forall|k: int| 0 <= k < host_api_names.len() implies #[trigger] a[7 + e + k] == "--undefined="@
            + host_api_names[k] by {
            assert(a[7 + e + k] == undef[k]);
        }
    }
}

/// The `--undefined` flags, name by name.
proof fn lemma_undefined_args_index(names: Seq<Seq<char>>)
    ensures
        undefined_args(names).len() == names.len(),
        forall|k: int| 0 <= k < names.len() ==> #[trigger] undefined_args(names)[k] == "--undefined="@ + names[k],
    decreases names.len(),
{
    if names.len() > 0 {
        lemma_undefined_args_index(names.drop_last());
        assert forall|k: int| 0 <= k < names.len() implies #[trigger] undefined_args(names)[k] == "--undefined="@
            + names[k] by {
            if k < names.len() - 1 {
                assert(names.drop_last()[k] == names[k]);
            }
        }
    }
}

fn push_str(v: &mut Vec<String>, s: String)
    ensures
        strs_view(final(v)@) == strs_view(old(v)@).push(s@),
{
    v.push(s);
    assert(strs_view(v@) =~= strs_view(old(v)@).push(s@));
}

fn push_undefined(args: &mut Vec<String>, names: &Vec<String>)
    ensures
        strs_view(final(args)@) == strs_view(old(args)@) + undefined_args(strs_view(names@)),
{
    let ghost base = strs_view(args@);
    let n = names.len();
    let mut i: usize = 0;
    while i < n
        invariant
            n == names@.len(),
            i <= n,
            strs_view(args@) == base + undefined_args(strs_view(names@).take(i as int)),
        decreases n - i,
    {
        proof {
            assert(strs_view(names@).take(i + 1).drop_last() =~= strs_view(names@).take(i as int));
        }
        push_str(args, String::from_str("--undefined=").concat(names[i].as_str()));
        proof {
            assert(base + undefined_args(strs_view(names@).take(i + 1)) =~= (base
                + undefined_args(strs_view(names@).take(i as int))).push(
                "--undefined="@ + names@[i as int]@,
            ));
        }
        i = i + 1;
    }
    assert(strs_view(names@).take(n as int) =~= strs_view(names@));
}

fn push_exports(args: &mut Vec<String>, prefix: &str, names: &Vec<String>)
    ensures
        strs_view(final(args)@) == strs_view(old(args)@) + export_args(prefix@, strs_view(names@)),
{
    let ghost base = strs_view(args@);
    let n = names.len();
    let mut i: usize = 0;
    while i < n
        invariant
            n == names@.len(),
            i <= n,
            strs_view(args@) == base + export_args(prefix@, strs_view(names@).take(i as int)),
        decreases n - i,
    {
        proof {
            assert(strs_view(names@).take(i + 1).drop_last() =~= strs_view(names@).take(i as int));
        }
        push_str(args, String::from_str("--export"));
        push_str(args, String::from_str(prefix).concat(names[i].as_str()));
        proof {
            assert(base + export_args(prefix@, strs_view(names@).take(i + 1)) =~= (base
                + export_args(prefix@, strs_view(names@).take(i as int))).push("--export"@).push(
                prefix@ + names@[i as int]@,
            ));
        }
        i = i + 1;
    }
    assert(strs_view(names@).take(n as int) =~= strs_view(names@));
}

fn push_export_flags(args: &mut Vec<String>, export_names: &Vec<String>, no_contract: bool)
    ensures
        strs_view(final(args)@) == strs_view(old(args)@) + export_link_args(
            strs_view(export_names@),
            no_contract,
        ),
{
    let ghost base = strs_view(args@);
    if export_names.len() == 0 {
        push_str(args, String::from_str("--export-all"));
        assert(strs_view(args@) =~= base + seq!["--export-all"@]);
    } else {
        push_str(args, String::from_str("--export"));
        push_str(args, String::from_str("__wasm_call_ctors"));
        assert(strs_view(args@) =~= base + seq!["--export"@, "__wasm_call_ctors"@]);
        push_exports(args, "", export_names);
        proof {
            reveal_strlit("");
            assert(""@ =~= Seq::<char>::empty());
        }
        let ghost mid = strs_view(args@);
        if no_contract {
            push_exports(args, "$ir_contract_internal_", export_names);
        }
        proof {
            let names = strs_view(export_names@);
            let t = if no_contract {
                export_args("$ir_contract_internal_"@, names)
            } else {
                Seq::empty()
            };
            assert(strs_view(args@) =~= mid + t);
            assert(strs_view(args@) =~= base + (seq!["--export"@, "__wasm_call_ctors"@]
                + export_args(Seq::empty(), names) + t));
        }
    }
}

/// The command line of `wasm-ld` for linking `object` into `output`.
/// `host_api_names` are the names of the host APIs that a contract may
/// call, the extension's included.
pub fn wasm_link_args(
    opt_level: &OptimizationLevel,
    clang_rt_lib_dir: &str,
    host_api_names: &Vec<String>,
    export_names: &Vec<String>,
    options: &IROptions,
    object: &str,
    output: &str,
) -> (args: Vec<String>)
    ensures
        strs_view(args@) == spec_wasm_link_args(
            opt_level.spec_level_string(),
            clang_rt_lib_dir@,
            strs_view(host_api_names@),
            strs_view(export_names@),
            options.no_contract,
            options.create_empty_start,
            object@,
            output@,
        ),
{
    let mut args: Vec<String> = Vec::new();
    push_str(&mut args, String::from_str("-").concat(opt_level.level_string()));
    push_str(&mut args, String::from_str("--allow-undefined"));
    push_str(&mut args, String::from_str("--gc-sections"));
    push_str(&mut args, String::from_str("--global-base=0"));
    push_str(&mut args, String::from_str("--stack-first"));
    push_str(&mut args, String::from_str("-lclang_rt.builtins-wasm32"));
    push_str(&mut args, String::from_str("-L/").concat(clang_rt_lib_dir));
    let ghost p0 = strs_view(args@);
    assert(p0 =~= fixed_link_args(opt_level.spec_level_string(), clang_rt_lib_dir@));
    if !options.create_empty_start {
        push_str(&mut args, String::from_str("--no-entry"));
    }
    let ghost p1 = strs_view(args@);
    let ghost e1: Seq<Seq<char>> = if options.create_empty_start {
        Seq::empty()
    } else {
        seq!["--no-entry"@]
    };
    assert(p1 =~= p0 + e1);
    if !options.no_contract {
        push_undefined(&mut args, host_api_names);
    }
    let ghost p2 = strs_view(args@);
    let ghost e2: Seq<Seq<char>> = if options.no_contract {
        Seq::empty()
    } else {
        undefined_args(strs_view(host_api_names@))
    };
    assert(p2 =~= p1 + e2);
    push_export_flags(&mut args, export_names, options.no_contract);
    let ghost p3 = strs_view(args@);
    push_str(&mut args, String::from_str(object));
    if options.no_contract {
        push_str(&mut args, String::from_str("hostapi_mock.wasm"));
    }
    let ghost p4 = strs_view(args@);
    let ghost e4: Seq<Seq<char>> = if options.no_contract {
        seq!["hostapi_mock.wasm"@]
    } else {
        Seq::empty()
    };
    assert(p4 =~= p3 + seq![object@] + e4);
    push_str(&mut args, String::from_str("-o"));
    push_str(&mut args, String::from_str(output));
    assert(strs_view(args@) =~= p4 + seq!["-o"@, output@]);
    args
}

/// What an export entry refers to: a function, a table, a memory or a
/// global, by its index.
#[derive(Clone, Copy, Debug, PartialEq, Eq, Structural)]
pub enum ExportInternal {
    Function(u32),
    Table(u32),
    Memory(u32),
    Global(u32),
}

/// An entry of a wasm module's export section: its public name and what it
/// refers to.
#[derive(Debug)]
pub struct Export {
    pub field: String,
    pub internal: ExportInternal,
}

impl View for Export {
    type V = (Seq<char>, ExportInternal);

    open spec fn view(&self) -> (Seq<char>, ExportInternal) {
        (self.field@, self.internal)
    }
}

/// The views of a sequence of export entries.
pub open spec fn exports_view(v: Seq<Export>) -> Seq<(Seq<char>, ExportInternal)> {
    Seq::new(v.len(), |i: int| v[i]@)
}

/// `parity_wasm::elements::Module`, a decoded wasm module, held opaque.
#[verifier::external_type_specification]
#[verifier::external_body]
pub struct ExWasmModule(parity_wasm::elements::Module);

/// `parity_wasm::elements::Error`, why a module could not be decoded or
/// encoded, held opaque.
#[verifier::external_type_specification]
#[verifier::external_body]
pub struct ExWasmError(parity_wasm::elements::Error);

/// The module that `parity_wasm::deserialize_buffer` decodes from the
/// bytes, if they hold one with nothing after it.
pub uninterp spec fn wasm_parsed(bytes: Seq<u8>) -> Option<WasmModule>;

/// The bytes that `parity_wasm::serialize` encodes the module into, if it
/// succeeds.
pub uninterp spec fn wasm_serialized(m: WasmModule) -> Option<Seq<u8>>;

/// The module that a `parity_wasm` module builder started from the module
/// builds.
pub uninterp spec fn wasm_rebuilt(m: WasmModule) -> WasmModule;

/// The entries of the module's export section, in order.
pub uninterp spec fn wasm_exports(m: WasmModule) -> Seq<(Seq<char>, ExportInternal)>;

/// Whether the module has an export section.
pub uninterp spec fn wasm_has_export_section(m: WasmModule) -> bool;

/// The function index of the module's start section, if it has one.
pub uninterp spec fn wasm_start(m: WasmModule) -> Option<u32>;

/// Whether the module has a global section.
pub uninterp spec fn wasm_has_global_section(m: WasmModule) -> bool;

/// For each entry of the module's global section, in order, the constant
/// when its initializer is `i32.const` of it followed by `end`, else `None`.
pub uninterp spec fn wasm_global_i32_inits(m: WasmModule) -> Seq<Option<i32>>;

/// The module that `Module::set_start_section` makes of `m`: `m` with its
/// start function set to `index`.
pub uninterp spec fn wasm_with_start(m: WasmModule, index: u32) -> WasmModule;

/// The module that replacing the entries of the export section of `m` by
/// `entries` (`ExportSection::entries_mut`) makes.
pub uninterp spec fn wasm_with_exports(m: WasmModule, entries: Seq<(Seq<char>, ExportInternal)>) -> WasmModule;

/// The module that setting the initializer of every global of `m` to
/// `i32.const value` and `end` makes.
pub uninterp spec fn wasm_with_global_inits(m: WasmModule, value: i32) -> WasmModule;

/// Decodes a wasm module with `parity_wasm::deserialize_buffer`; claims
/// that the outcome is a function of the bytes alone.
#[verifier::external_body]
fn deserialize_module(bytes: &[u8]) -> (r: Result<WasmModule, parity_wasm::elements::Error>)
    ensures
        r is Ok <==> wasm_parsed(bytes@) is Some,
        r matches Ok(m) ==> wasm_parsed(bytes@) == Some(m),
{
    parity_wasm::deserialize_buffer::<WasmModule>(bytes)
}

/// Encodes a wasm module with `parity_wasm::serialize`; claims that the
/// outcome is a function of the module alone.
#[verifier::external_body]
fn serialize_module(m: WasmModule) -> (r: Result<Vec<u8>, parity_wasm::elements::Error>)
    ensures
        r is Ok <==> wasm_serialized(m) is Some,
        r matches Ok(b) ==> wasm_serialized(m) == Some(b@),
{
    parity_wasm::serialize(m)
}

/// Runs the module through `parity_wasm::builder::module().with_module(..)`
/// and `build()`, which lays its sections out in the builder's order;
/// claims that the result is a function of the module alone.
#[verifier::external_body]
fn rebuild_module(m: WasmModule) -> (r: WasmModule)
    ensures
        r == wasm_rebuilt(m),
{
    builder::module().with_module(m).build()
}

/// The entries of the module's export section (`Module::export_section`
/// and `ExportSection::entries`), each converted to an `Export`; `None`
/// when the module has no export section.
#[verifier::external_body]
fn export_entries(m: &WasmModule) -> (r: Option<Vec<Export>>)
    ensures
        r is Some <==> wasm_has_export_section(*m),
        r matches Some(v) ==> exports_view(v@) == wasm_exports(*m),
{
    m.export_section().map(|sec| sec.entries().iter().map(|e| Export {
        field: e.field().to_string(),
        internal: match *e.internal() {
            Internal::Function(i) => ExportInternal::Function(i),
            Internal::Table(i) => ExportInternal::Table(i),
            Internal::Memory(i) => ExportInternal::Memory(i),
            Internal::Global(i) => ExportInternal::Global(i),
        },
    }).collect())
}

/// Replaces the entries of the module's export section
/// (`Module::export_section_mut` and `ExportSection::entries_mut`); claims
/// that the result is a function of the module and the entries, and that
/// nothing else that the names here speak of changes.
#[verifier::external_body]
fn set_export_entries(m: &mut WasmModule, entries: Vec<Export>)
    requires
        wasm_has_export_section(*old(m)),
    ensures
        *final(m) == wasm_with_exports(*old(m), exports_view(entries@)),
        wasm_exports(*final(m)) == exports_view(entries@),
        wasm_has_export_section(*final(m)),
        wasm_start(*final(m)) == wasm_start(*old(m)),
        wasm_has_global_section(*final(m)) == wasm_has_global_section(*old(m)),
        wasm_global_i32_inits(*final(m)) == wasm_global_i32_inits(*old(m)),
{
    if let Some(sec) = m.export_section_mut() {
        *sec.entries_mut() = entries.into_iter().map(|e| ExportEntry::new(e.field, match e.internal {
            ExportInternal::Function(i) => Internal::Function(i),
            ExportInternal::Table(i) => Internal::Table(i),
            ExportInternal::Memory(i) => Internal::Memory(i),
            ExportInternal::Global(i) => Internal::Global(i),
        })).collect();
    }
}

/// Sets the module's start function (`Module::set_start_section`), which
/// replaces a start section or inserts one; claims that the result is a
/// function of the module and the index, and that nothing else that the
/// names here speak of changes.
#[verifier::external_body]
fn set_start_section(m: &mut WasmModule, index: u32)
    ensures
        *final(m) == wasm_with_start(*old(m), index),
        wasm_start(*final(m)) == Some(index),
        wasm_exports(*final(m)) == wasm_exports(*old(m)),
        wasm_has_export_section(*final(m)) == wasm_has_export_section(*old(m)),
        wasm_has_global_section(*final(m)) == wasm_has_global_section(*old(m)),
        wasm_global_i32_inits(*final(m)) == wasm_global_i32_inits(*old(m)),
{
    m.set_start_section(index)
}

/// Whether the module has a global section (`Module::global_section`).
#[verifier::external_body]
fn has_global_section(m: &WasmModule) -> (r: bool)
    ensures
        r == wasm_has_global_section(*m),
{
    m.global_section().is_some()
}

/// Sets the initializer of every entry of the module's global section to
/// `i32.const value` and `end` (`Module::global_section_mut`,
/// `GlobalEntry::init_expr_mut`, `InitExpr::new`); claims that the result
/// is a function of the module and the value, and that nothing else that
/// the names here speak of changes.
#[verifier::external_body]
fn set_global_i32_inits(m: &mut WasmModule, value: i32)
    requires
        wasm_has_global_section(*old(m)),
    ensures
        *final(m) == wasm_with_global_inits(*old(m), value),
        wasm_global_i32_inits(*final(m)) == Seq::new(
            wasm_global_i32_inits(*old(m)).len(),
            |i: int| Some(value),
        ),
        wasm_has_global_section(*final(m)),
        wasm_exports(*final(m)) == wasm_exports(*old(m)),
        wasm_has_export_section(*final(m)) == wasm_has_export_section(*old(m)),
        wasm_start(*final(m)) == wasm_start(*old(m)),
{
    if let Some(sec) = m.global_section_mut() {
        for global in sec.entries_mut() {
            *global.init_expr_mut() = InitExpr::new(vec![Instruction::I32Const(value), Instruction::End]);
        }
    }
}

/// The name of the export whose function becomes the start function of a
/// linked module.
pub open spec fn start_export_name() -> Seq<char> {
    "_inner_start"@
}

/// What the first entry named `name` refers to, if an entry is so named.
pub open spec fn first_export_named(
    exports: Seq<(Seq<char>, ExportInternal)>,
    name: Seq<char>,
) -> Option<ExportInternal> {
    if exists|i: int| 0 <= i < exports.len() && exports[i].0 == name {
        let i = choose|i: int|
            0 <= i < exports.len() && exports[i].0 == name && forall|j: int|
                0 <= j < i ==> exports[j].0 != name;
        Some(exports[i].1)
    } else {
        None
    }
}

/// The function index that the first entry named `name` exports, if that
/// entry exports a function.
pub open spec fn spec_start_function(
    exports: Seq<(Seq<char>, ExportInternal)>,
    name: Seq<char>,
) -> Option<u32> {
    match first_export_named(exports, name) {
        Some(ExportInternal::Function(f)) => Some(f),
        _ => None,
    }
}

/// The entries not named `name`, in order.
pub open spec fn exports_without(
    exports: Seq<(Seq<char>, ExportInternal)>,
    name: Seq<char>,
) -> Seq<(Seq<char>, ExportInternal)>
    decreases exports.len(),
{
    if exports.len() == 0 {
        Seq::empty()
    } else {
        let rest = exports_without(exports.drop_last(), name);
        if exports.last().0 == name {
            rest
        } else {
            rest.push(exports.last())
        }
    }
}

/// Whether an entry is not named `name`.
pub open spec fn not_named(name: Seq<char>) -> spec_fn((Seq<char>, ExportInternal)) -> bool {
    |e: (Seq<char>, ExportInternal)| e.0 != name
}

/// Dropping the entries named `name` leaves no entry so named and keeps
/// every other entry, in order: what is left is the subsequence of the
/// entries not so named.
pub proof fn law_exports_without(exports: Seq<(Seq<char>, ExportInternal)>, name: Seq<char>)
    ensures
        forall|i: int|
            0 <= i < exports_without(exports, name).len() ==> (#[trigger] exports_without(exports, name)[i]).0
                != name,
        exports_without(exports, name) == exports.filter(not_named(name)),
    decreases exports.len(),
{
    reveal(Seq::filter);
    if exports.len() > 0 {
        law_exports_without(exports.drop_last(), name);
        let f = not_named(name);
        assert(exports.filter(f) == if f(exports.last()) {
            exports.drop_last().filter(f).push(exports.last())
        } else {
            exports.drop_last().filter(f)
        });
    } else {
        assert(exports.filter(not_named(name)) =~= Seq::empty());
    }
}

/// Of the entries, the index of the function that the first one named
/// `name` exports; `None` where no entry is so named or the first one so
/// named exports no function.
pub fn start_function_index(exports: &Vec<Export>, name: &str) -> (r: Option<u32>)
    ensures
        r == spec_start_function(exports_view(exports@), name@),
{
    let ghost ev = exports_view(exports@);
    let n = exports.len();
    let mut i: usize = 0;
    while i < n
        invariant
            n == exports@.len(),
            i <= n,
            ev == exports_view(exports@),
            forall|j: int| 0 <= j < i ==> ev[j].0 != name@,
        decreases n - i,
    {
        if str_eq(exports[i].field.as_str(), name) {
            proof {
                assert(ev[i as int].0 == name@);
                let k = choose|k: int|
                    0 <= k < ev.len() && ev[k].0 == name@ && forall|j: int|
                        0 <= j < k ==> ev[j].0 != name@;
                assert(0 <= k < ev.len() && ev[k].0 == name@ && forall|j: int|
                    0 <= j < k ==> ev[j].0 != name@);
                assert(k == i);
            }
            return match exports[i].internal {
                ExportInternal::Function(f) => Some(f),
                _ => None,
            };
        }
        i = i + 1;
    }
    None
}

/// The entries not named `name`, in order.
pub fn remove_exports_named(exports: &Vec<Export>, name: &str) -> (r: Vec<Export>)
    ensures
        exports_view(r@) == exports_without(exports_view(exports@), name@),
{
    let ghost ev = exports_view(exports@);
    let mut r: Vec<Export> = Vec::new();
    let n = exports.len();
    let mut i: usize = 0;
    while i < n
        invariant
            n == exports@.len(),
            i <= n,
            ev == exports_view(exports@),
            exports_view(r@) == exports_without(ev.take(i as int), name@),
        decreases n - i,
    {
        proof {
            assert(ev.take(i + 1).drop_last() =~= ev.take(i as int));
        }
        if !str_eq(exports[i].field.as_str(), name) {
            let e = Export { field: exports[i].field.clone(), internal: exports[i].internal };
            r.push(e);
            assert(exports_view(r@) =~= exports_without(ev.take(i as int), name@).push(ev[i as int]));
        }
        i = i + 1;
    }
    assert(ev.take(n as int) =~= ev);
    r
}

/// The stack pointer that a linked module starts with: 64 KiB.
pub const INITIAL_STACK_POINTER: i32 = 0x10000;

/// What a linked module `after` holds of the module `before` that the
/// linker produced: the function exported as `_inner_start`, if any, is the
/// start function and no longer exported, and every global starts at the
/// initial stack pointer.
pub open spec fn is_prepared(before: WasmModule, after: WasmModule) -> bool {
    let exports = wasm_exports(before);
    let start = if wasm_has_export_section(before) {
        spec_start_function(exports, start_export_name())
    } else {
        None
    };
    &&& wasm_has_export_section(after) == wasm_has_export_section(before)
    &&& match start {
        Some(f) => {
            &&& wasm_start(after) == Some(f)
            &&& wasm_exports(after) == exports_without(exports, start_export_name())
        },
        None => {
            &&& wasm_start(after) == wasm_start(before)
            &&& wasm_exports(after) == exports
        },
    }
    &&& wasm_has_global_section(after)
    &&& wasm_global_i32_inits(after) == Seq::new(
        wasm_global_i32_inits(before).len(),
        |i: int| Some(INITIAL_STACK_POINTER),
    )
}

/// The module that the linker's output `m` becomes: where its first export
/// named `_inner_start` exports a function, `m` with that function as start
/// function and the exports so named removed; then every global started at
/// the initial stack pointer. Every other part of `m` is left as it is.
pub open spec fn prepared_module(m: WasmModule) -> WasmModule {
    let exports = wasm_exports(m);
    let start = if wasm_has_export_section(m) {
        spec_start_function(exports, start_export_name())
    } else {
        None
    };
    let m1 = match start {
        Some(f) => wasm_with_exports(wasm_with_start(m, f), exports_without(exports, start_export_name())),
        None => m,
    };
    wasm_with_global_inits(m1, INITIAL_STACK_POINTER)
}

/// Makes the function exported as `_inner_start` the module's start
/// function and drops that export, and starts every global at the initial
/// stack pointer.
pub fn prepare_linked_module(m: &mut WasmModule)
    requires
        wasm_has_global_section(*old(m)),
    ensures
        *final(m) == prepared_module(*old(m)),
        is_prepared(*old(m), *final(m)),
{
    let name = "_inner_start";
    proof {
        reveal_strlit("_inner_start");
    }
    if let Some(entries) = export_entries(m) {
        if let Some(f) = start_function_index(&entries, name) {
            set_start_section(m, f);
            let kept = remove_exports_named(&entries, name);
            set_export_entries(m, kept);
        }
    }
    set_global_i32_inits(m, INITIAL_STACK_POINTER);
}

/// A prepared module whose start function was taken from an export named
/// `_inner_start` exports nothing under that name any more, and keeps every
/// other export in order.
pub proof fn law_prepared_drops_start_export(before: WasmModule, after: WasmModule)
    requires
        is_prepared(before, after),
        wasm_has_export_section(before),
        spec_start_function(wasm_exports(before), start_export_name()) is Some,
    ensures
        wasm_start(after) == spec_start_function(wasm_exports(before), start_export_name()),
        forall|i: int|
            0 <= i < wasm_exports(after).len() ==> (#[trigger] wasm_exports(after)[i]).0 != start_export_name(),
        wasm_exports(after) == wasm_exports(before).filter(not_named(start_export_name())),
{
    law_exports_without(wasm_exports(before), start_export_name());
}

/// Why a linked module could not be finished.
#[derive(Clone, Copy, Debug, PartialEq, Eq, Structural)]
pub enum LinkError {
    /// The linker's output is no wasm module.
    Deserialize,
    /// The module has no global section.
    NoGlobalSection,
    /// The finished module could not be encoded.
    Serialize,
}

impl LinkError {
    /// The message that the error is reported with.
    pub fn message(&self) -> (s: String)
        ensures
            s@ == self.spec_message(),
    {
        match self {
            LinkError::Deserialize => String::from_str("cannot deserialize llvm wasm"),
            LinkError::NoGlobalSection => String::from_str("linked wasm has no global section"),
            LinkError::Serialize => String::from_str("cannot serialize linked wasm"),
        }
    }

    pub open spec fn spec_message(&self) -> Seq<char> {
        match self {
            LinkError::Deserialize => "cannot deserialize llvm wasm"@,
            LinkError::NoGlobalSection => "linked wasm has no global section"@,
            LinkError::Serialize => "cannot serialize linked wasm"@,
        }
    }
}

/// Prepares the module that the linker produced and encodes it: the bytes,
/// or `Serialize` where the encoding fails.
pub fn finish_module(m: WasmModule) -> (r: Result<Vec<u8>, LinkError>)
    requires
        wasm_has_global_section(m),
    ensures
        is_prepared(m, prepared_module(m)),
        match wasm_serialized(wasm_rebuilt(prepared_module(m))) {
            Some(b) => r matches Ok(v) && v@ == b,
            None => r == Err::<Vec<u8>, LinkError>(LinkError::Serialize),
        },
{
    let mut m = m;
    prepare_linked_module(&mut m);
    let built = rebuild_module(m);
    match serialize_module(built) {
        Ok(b) => Ok(b),
        Err(_) => Err(LinkError::Serialize),
    }
}

/// What finishing the linker's output `bytes` gives: `Deserialize` where
/// they hold no module, `NoGlobalSection` where the module has no global
/// section, else the encoding of the rebuilt `prepared_module`, or
/// `Serialize` where that fails.
pub open spec fn is_finished(bytes: Seq<u8>, r: Result<Vec<u8>, LinkError>) -> bool {
    match wasm_parsed(bytes) {
        None => r == Err::<Vec<u8>, LinkError>(LinkError::Deserialize),
        Some(m) => if !wasm_has_global_section(m) {
            r == Err::<Vec<u8>, LinkError>(LinkError::NoGlobalSection)
        } else {
            is_prepared(m, prepared_module(m)) && match wasm_serialized(wasm_rebuilt(prepared_module(m))) {
                Some(b) => r matches Ok(v) && v@ == b,
                None => r == Err::<Vec<u8>, LinkError>(LinkError::Serialize),
            }
        },
    }
}

/// Finishes the module that the linker wrote as `bytes`: decodes it,
/// prepares it and encodes it again. `Deserialize` where the bytes hold no
/// module, `NoGlobalSection` where the module has no global section, else
/// as `finish_module`.
pub fn finish_linked_wasm(bytes: &[u8]) -> (r: Result<Vec<u8>, LinkError>)
    ensures
        is_finished(bytes@, r),
{
    match deserialize_module(bytes) {
        Err(_) => Err(LinkError::Deserialize),
        Ok(m) => {
            if has_global_section(&m) {
                finish_module(m)
            } else {
                Err(LinkError::NoGlobalSection)
            }
        },
    }
}

/// Turns what the linker wrote for the target into the final binary ready
/// for deployment: for wasm, as `finish_linked_wasm`. Only the wasm target
/// can be linked.
pub fn link(target: Target, linked: &[u8]) -> (r: Result<Vec<u8>, LinkError>)
    requires
        target is Wasm,
    ensures
        is_finished(linked@, r),
{
    match target {
        Target::Wasm => finish_linked_wasm(linked),
        Target::Generic => {
            proof {
                assert(false);
            }
            Err(LinkError::Deserialize)
        },
    }
}

} // verus!
