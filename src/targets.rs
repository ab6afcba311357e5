//! The description of the i686 MS-DOS 6 target: its base options and the full target.
use vstd::prelude::*;

verus! {

/// Whether the linker is driven through a C compiler.
#[derive(Clone, Copy, Debug, PartialEq, Eq, Structural)]
pub enum Cc {
    Yes,
    No,
}

/// Whether the linker is LLVM's lld.
#[derive(Clone, Copy, Debug, PartialEq, Eq, Structural)]
pub enum Lld {
    Yes,
    No,
}

/// The command-line interface the linker speaks.
#[derive(Clone, Copy, Debug, PartialEq, Eq, Structural)]
pub enum LinkerFlavor {
    Gnu(Cc, Lld),
    Darwin(Cc, Lld),
    Msvc(Lld),
}

/// How stack overflow is detected.
#[derive(Clone, Copy, Debug, PartialEq, Eq, Structural)]
pub enum StackProbeType {
    NoProbe,
    Inline,
    Call,
}

/// How code is relocated when loaded.
#[derive(Clone, Copy, Debug, PartialEq, Eq, Structural)]
pub enum RelocModel {
    Static,
    Pic,
    Pie,
    DynamicNoPic,
}

/// What a panic does.
#[derive(Clone, Copy, Debug, PartialEq, Eq, Structural)]
pub enum PanicStrategy {
    Unwind,
    Abort,
}

/// Options of a target that have a common default.
#[derive(Clone, Debug)]
pub struct TargetOptions {
    pub os: String,
    pub linker: Option<String>,
    pub linker_flavor: LinkerFlavor,
    pub stack_probes: StackProbeType,
    pub relocation_model: RelocModel,
    pub cpu: String,
    pub disable_redzone: bool,
    pub panic_strategy: PanicStrategy,
    pub features: String,
}

/// Descriptive data about a target.
#[derive(Clone, Debug)]
pub struct TargetMetadata {
    pub description: Option<String>,
    pub tier: Option<u64>,
    pub host_tools: Option<bool>,
    pub std: Option<bool>,
}

/// A complete target description.
#[derive(Clone, Debug)]
pub struct Target {
    pub llvm_target: String,
    pub pointer_width: u32,
    pub data_layout: String,
    pub arch: String,
    pub options: TargetOptions,
    pub metadata: TargetMetadata,
}

impl Default for TargetOptions {
    fn default() -> (r: Self)
        ensures
            r.os@ == "none"@,
            r.linker is None,
            r.linker_flavor == LinkerFlavor::Gnu(Cc::Yes, Lld::No),
            r.stack_probes == StackProbeType::NoProbe,
            r.relocation_model == RelocModel::Pic,
            r.cpu@ == "generic"@,
            !r.disable_redzone,
            r.panic_strategy == PanicStrategy::Unwind,
            r.features@ == Seq::<char>::empty(),
    {
        TargetOptions {
            os: String::from_str("none"),
            linker: None,
            linker_flavor: LinkerFlavor::Gnu(Cc::Yes, Lld::No),
            stack_probes: StackProbeType::NoProbe,
            relocation_model: RelocModel::Pic,
            cpu: String::from_str("generic"),
            disable_redzone: false,
            panic_strategy: PanicStrategy::Unwind,
            features: String::new(),
        }
    }
}

/// The options shared by MS-DOS 6 targets.
pub fn opts() -> (r: TargetOptions)
    ensures
        r.os@ == "msdos6"@,
        r.linker matches Some(l) && l@ == "rust-lld"@,
        r.linker_flavor == LinkerFlavor::Gnu(Cc::No, Lld::Yes),
        r.stack_probes == StackProbeType::Inline,
        r.relocation_model == RelocModel::Static,
        r.cpu@ == "generic"@,
        !r.disable_redzone,
        r.panic_strategy == PanicStrategy::Unwind,
        r.features@ == Seq::<char>::empty(),
{
    let d = TargetOptions::default();
    TargetOptions {
        os: String::from_str("msdos6"),
        linker: Some(String::from_str("rust-lld")),
        linker_flavor: LinkerFlavor::Gnu(Cc::No, Lld::Yes),
        stack_probes: StackProbeType::Inline,
        relocation_model: RelocModel::Static,
        ..d
    }
}

/// The i686 MS-DOS 6 target: a 32-bit x86 target without a red zone, MMX or SSE,
/// that aborts on panic.
pub fn target() -> (r: Target)
    ensures
        r.llvm_target@ == "i686-unknown-none"@,
        r.pointer_width == 32,
        r.data_layout@
            == "e-m:x-p:32:32-p270:32:32-p271:32:32-p272:64:64-i64:64-i128:128-f80:32-n8:16:32-a:0:32-S32"@,
        r.arch@ == "x86"@,
        r.options.os@ == "msdos6"@,
        r.options.linker matches Some(l) && l@ == "rust-lld"@,
        r.options.linker_flavor == LinkerFlavor::Gnu(Cc::No, Lld::Yes),
        r.options.stack_probes == StackProbeType::Inline,
        r.options.relocation_model == RelocModel::Static,
        r.options.cpu@ == "i686"@,
        r.options.disable_redzone,
        r.options.panic_strategy == PanicStrategy::Abort,
        r.options.features@ == "-mmx,-sse,+soft-float"@,
        r.metadata.description is None,
        r.metadata.tier is None,
        r.metadata.host_tools is None,
        r.metadata.std is None,
{
    let mut base = opts();
    base.cpu = String::from_str("i686");
    base.disable_redzone = true;
    base.panic_strategy = PanicStrategy::Abort;
    base.features = String::from_str("-mmx,-sse,+soft-float");
    Target {
        llvm_target: String::from_str("i686-unknown-none"),
        pointer_width: 32,
        data_layout: String::from_str(
            "e-m:x-p:32:32-p270:32:32-p271:32:32-p272:64:64-i64:64-i128:128-f80:32-n8:16:32-a:0:32-S32",
        ),
        arch: String::from_str("x86"),
        options: base,
        metadata: TargetMetadata { description: None, tier: None, host_tools: None, std: None },
    }
}

} // verus!
