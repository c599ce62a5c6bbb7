use semantic_analysis::llvm_codegen::CompilationTarget;

#[test]
fn default_selects_arm64_darwin() {
    assert_eq!(CompilationTarget::try_from("default").unwrap(), CompilationTarget::Arm64AppleDarwin);
    assert_eq!(CompilationTarget::try_from("arm64-apple-darwin").unwrap(), CompilationTarget::Arm64AppleDarwin);
    assert_eq!(CompilationTarget::try_from("wasm32-unknown-unknown").unwrap(), CompilationTarget::Wasm32UnknownUnknown);
}

#[test]
fn unknown_target_is_rejected_with_its_name() {
    let e = CompilationTarget::try_from("riscv64").unwrap_err();
    assert_eq!(e.target, "riscv64");
}

#[test]
fn triples() {
    let a = CompilationTarget::Arm64AppleDarwin;
    let w = CompilationTarget::Wasm32UnknownUnknown;
    assert_eq!(a.margarine_target_triple(), "arm64-apple-darwin");
    assert_eq!(a.llvm_target_triple(), "arm64-apple-darwin");
    assert_eq!(a.c_target_triple(), "aarch64-apple-darwin");
    assert_eq!(w.margarine_target_triple(), "wasm32-unknown-unknown");
    assert_eq!(w.llvm_target_triple(), "wasm32-unknown-unknown");
    assert_eq!(w.c_target_triple(), "wasm32-unknown-unknown");
}

#[test]
fn triple_round_trip() {
    for t in [CompilationTarget::Arm64AppleDarwin, CompilationTarget::Wasm32UnknownUnknown] {
        assert_eq!(CompilationTarget::try_from(&t.margarine_target_triple()).unwrap(), t);
    }
}

use semantic_analysis::ids::StringIndex;
use semantic_analysis::llvm_codegen::{Env, Local};
use semantic_analysis::syms::ty::Sym;

#[test]
fn the_innermost_variable_of_a_name_wins() {
    let mut env = Env { vars: vec![] };
    assert_eq!(env.find_var(StringIndex(1)), None);
    assert!(!env.is_var_param(StringIndex(1)));
    env.alloc_var(StringIndex(1), Local(0), Sym::i64(), true);
    env.alloc_var(StringIndex(2), Local(1), Sym::bool(), false);
    env.alloc_var(StringIndex(1), Local(2), Sym::str(), false);
    assert_eq!(env.find_var(StringIndex(1)), Some(Local(2)));
    assert_eq!(env.find_var_ty(StringIndex(1)), Some(Sym::str()));
    assert!(!env.is_var_param(StringIndex(1)));
    assert_eq!(env.find_var(StringIndex(2)), Some(Local(1)));
    assert_eq!(env.find_var_ty(StringIndex(3)), None);
}

#[test]
fn owned_names_parse_like_borrowed_ones() {
    assert_eq!(CompilationTarget::try_from_string("wasm32-unknown-unknown".to_string()).unwrap(), CompilationTarget::Wasm32UnknownUnknown);
    assert_eq!(CompilationTarget::try_from_string("default".to_string()).unwrap(), CompilationTarget::Arm64AppleDarwin);
    assert_eq!(CompilationTarget::try_from_string("x86".to_string()).unwrap_err().target, "x86");
}

#[test]
fn an_unknown_target_names_itself_in_its_message() {
    let e = CompilationTarget::try_from("riscv").unwrap_err();
    assert_eq!(e.message(), "unsupported compilation target: riscv");
}
