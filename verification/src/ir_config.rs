use vstd::prelude::*;

verus! {

/// The largest address length (in bytes) that the compiler supports.
pub const MAX_ADDRESS_LENGTH: usize = 28;

/// The address length used when none is given.
pub const DEFAULT_ADDRESS_LENGTH: usize = 28;

/// The compile target.
#[derive(PartialEq, Eq, Clone, Copy, Debug, Structural)]
pub enum Target {
    /// Generate a generic object file for linking.
    Generic,
    /// Generate a WASM module file for linking.
    Wasm,
}

/// Defines the optimization level used to compile a module.
#[derive(Debug, PartialEq, Eq, Copy, Clone, Structural)]
pub enum OptimizationLevel {
    /// Optimization level: O0
    NoOptimization,
    /// Optimization level: O1
    Less,
    /// Optimization level: O2
    Default,
    /// Optimization level: O3
    Aggressive,
}

impl OptimizationLevel {
    /// The number of the level: 0 for `None` up to 3 for `Aggressive`.
    pub open spec fn spec_level(self) -> nat {
        match self {
            OptimizationLevel::NoOptimization => 0,
            OptimizationLevel::Less => 1,
            OptimizationLevel::Default => 2,
            OptimizationLevel::Aggressive => 3,
        }
    }

    /// The level string, `"O"` followed by the level number.
    pub open spec fn spec_level_string(self) -> Seq<char> {
        seq!['O', (('0' as u8) + self.spec_level()) as char]
    }

    /// Get the optimization level string.
    /// - OptimizationLevel::NoOptimization => "O0",
    /// - OptimizationLevel::Less => "O1",
    /// - OptimizationLevel::Default => "O2",
    /// - OptimizationLevel::Aggressive => "O3",
    pub fn level_string(&self) -> (s: &'static str)
        ensures
            s@ == self.spec_level_string(),
    {
        match self {
            OptimizationLevel::NoOptimization => {
                proof { reveal_strlit("O0"); }
                "O0"
            },
            OptimizationLevel::Less => {
                proof { reveal_strlit("O1"); }
                "O1"
            },
            OptimizationLevel::Default => {
                proof { reveal_strlit("O2"); }
                "O2"
            },
            OptimizationLevel::Aggressive => {
                proof { reveal_strlit("O3"); }
                "O3"
            },
        }
    }
}

/// Compile options.
#[derive(Clone, Copy, Debug)]
pub struct IROptions {
    /// Compile target including native so lib, wasm module, etc.
    pub target: Target,
    /// Whether to enable overflow checking for addition,
    /// subtraction, multiplication and division operations.
    pub overflow_check: bool,
    /// Address number of bits. The number of bits of the Address
    /// address, the default address length is 28.
    pub address_length: usize,
    /// Compiled optimization level, default is O3.
    pub opt_level: OptimizationLevel,
    /// Whether to generate wasm without contract hostapis and export abi internal functions.
    pub no_contract: bool,
    /// Disable function  inlining
    pub no_inline: bool,
    /// Print test information verbosely
    pub verbose: bool,
    /// Use llvm toolchain for more info. optional.
    pub use_llvm_toolchain: bool,
    /// Run the unit test
    pub is_test: bool,
    /// Generate coverage info
    pub coverage: bool,
    /// Create empty _start function for compatible(eg. wasi). this may slow down the perf a little.
    pub create_empty_start: bool,
}

impl IROptions {
    /// The default options of a build whose coverage switch is `coverage`:
    /// a wasm target without overflow checks, the default address length,
    /// O3, contract host APIs on, inlining on, quiet, no llvm toolchain,
    /// not a test run and no empty start function.
    pub fn default_with_coverage(coverage: bool) -> (o: IROptions)
        ensures
            o.target == Target::Wasm,
            !o.overflow_check,
            o.address_length == DEFAULT_ADDRESS_LENGTH,
            o.opt_level == OptimizationLevel::Aggressive,
            !o.no_contract,
            !o.no_inline,
            !o.verbose,
            !o.use_llvm_toolchain,
            !o.is_test,
            o.coverage == coverage,
            !o.create_empty_start,
    {
        IROptions {
            target: Target::Wasm,
            overflow_check: false,
            address_length: DEFAULT_ADDRESS_LENGTH,
            opt_level: OptimizationLevel::Aggressive,
            no_contract: false,
            no_inline: false,
            verbose: false,
            use_llvm_toolchain: false,
            is_test: false,
            coverage,
            create_empty_start: false,
        }
    }

    /// Build the options from each of their fields.
    #[allow(clippy::too_many_arguments)]
    pub fn new(
        target: Target,
        overflow_check: bool,
        address_length: usize,
        opt_level: OptimizationLevel,
        no_contract: bool,
        no_inline: bool,
        verbose: bool,
        use_llvm_toolchain: bool,
        is_test: bool,
        coverage: bool,
        create_empty_start: bool,
    ) -> (o: Self)
        ensures
            o.target == target,
            o.overflow_check == overflow_check,
            o.address_length == address_length,
            o.opt_level == opt_level,
            o.no_contract == no_contract,
            o.no_inline == no_inline,
            o.verbose == verbose,
            o.use_llvm_toolchain == use_llvm_toolchain,
            o.is_test == is_test,
            o.coverage == coverage,
            o.create_empty_start == create_empty_start,
    {
        Self {
            target,
            overflow_check,
            address_length,
            opt_level,
            no_contract,
            no_inline,
            verbose,
            use_llvm_toolchain,
            is_test,
            coverage,
            create_empty_start,
        }
    }
}

impl Default for IROptions {
    /// The default options of a build without coverage instrumentation.
    fn default() -> (o: IROptions)
        ensures
            o.target == Target::Wasm,
            !o.overflow_check,
            o.address_length == DEFAULT_ADDRESS_LENGTH,
            o.opt_level == OptimizationLevel::Aggressive,
            !o.no_contract,
            !o.no_inline,
            !o.verbose,
            !o.use_llvm_toolchain,
            !o.is_test,
            !o.coverage,
            !o.create_empty_start,
    {
        IROptions::default_with_coverage(false)
    }
}

} // verus!
