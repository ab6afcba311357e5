use tt_bridge::targets::{
    opts, target, Cc, LinkerFlavor, Lld, PanicStrategy, RelocModel, StackProbeType, TargetOptions,
};

#[test]
fn default_options() {
    let d = TargetOptions::default();
    assert_eq!(d.os, "none");
    assert_eq!(d.linker, None);
    assert_eq!(d.linker_flavor, LinkerFlavor::Gnu(Cc::Yes, Lld::No));
    assert_eq!(d.relocation_model, RelocModel::Pic);
    assert_eq!(d.panic_strategy, PanicStrategy::Unwind);
}

#[test]
fn msdos_base_options() {
    let o = opts();
    assert_eq!(o.os, "msdos6");
    assert_eq!(o.linker.as_deref(), Some("rust-lld"));
    assert_eq!(o.linker_flavor, LinkerFlavor::Gnu(Cc::No, Lld::Yes));
    assert_eq!(o.stack_probes, StackProbeType::Inline);
    assert_eq!(o.relocation_model, RelocModel::Static);
    assert_eq!(o.cpu, "generic");
}

#[test]
fn i686_msdos_target() {
    let t = target();
    assert_eq!(t.llvm_target, "i686-unknown-none");
    assert_eq!(t.pointer_width, 32);
    assert_eq!(t.arch, "x86");
    assert_eq!(
        t.data_layout,
        "e-m:x-p:32:32-p270:32:32-p271:32:32-p272:64:64-i64:64-i128:128-f80:32-n8:16:32-a:0:32-S32"
    );
    assert_eq!(t.options.cpu, "i686");
    assert!(t.options.disable_redzone);
    assert_eq!(t.options.panic_strategy, PanicStrategy::Abort);
    assert_eq!(t.options.features, "-mmx,-sse,+soft-float");
    assert_eq!(t.options.os, "msdos6");
    assert!(t.metadata.description.is_none());
}
