use semantic_analysis::syms::ty::Sym;
use semantic_analysis::{AnalysisResult, ControlFlowState};

#[test]
fn enter_then_exit_reports_no_break() {
    let mut cf = ControlFlowState::default();
    cf.enter_loop();
    let l = cf.exit_loop();
    assert!(!l.has_break);
    assert!(cf.loops.is_empty());
}

#[test]
fn break_marks_only_the_innermost_loop() {
    let mut cf = ControlFlowState::default();
    cf.enter_loop();
    cf.enter_loop();
    assert!(cf.mark_break());
    let inner = cf.exit_loop();
    assert!(inner.has_break);
    let outer = cf.exit_loop();
    assert!(!outer.has_break);
}

#[test]
fn break_outside_a_loop_is_reported() {
    let mut cf = ControlFlowState::default();
    assert!(!cf.mark_break());
    assert!(cf.loops.is_empty());
}

#[test]
fn suspend_and_restore_keep_the_stack() {
    let mut cf = ControlFlowState::default();
    cf.enter_loop();
    cf.mark_break();
    let saved = cf.suspend();
    assert!(cf.loops.is_empty());
    cf.enter_loop();
    cf.restore(saved);
    assert_eq!(cf.loops.len(), 1);
    assert!(cf.loops[0].has_break);
}

#[test]
fn analysis_results() {
    let r = AnalysisResult::new(Sym::i64());
    assert!(r.is_mut && !r.is_captured);
    assert!(r.ty == Sym::i64());
    let c = AnalysisResult::captured(Sym::unit());
    assert!(!c.is_mut && c.is_captured);
    let n = AnalysisResult::never();
    assert!(n.ty == Sym::never());
    assert!(n.is_mut && !n.is_captured);
}
