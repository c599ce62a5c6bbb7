use semantic_analysis::codegen::{BlockIndex, Env};
use semantic_analysis::ids::StringIndex;
use semantic_analysis::syms::sym_map::GenListId;

fn env() -> Env {
    Env {
        vars: vec![],
        var_counter: 0,
        block_counter: 0,
        loop_cont: None,
        loop_brek: None,
        gens: GenListId(GenListId::EMPTY),
    }
}

#[test]
fn slots_are_handed_out_in_order() {
    let mut e = env();
    assert_eq!(e.alloc_var(StringIndex(1)), 0);
    assert_eq!(e.alloc_anon_var(), 1);
    assert_eq!(e.alloc_var(StringIndex(2)), 2);
    assert_eq!(e.var_counter, 3);
    assert_eq!(e.vars, vec![(StringIndex(1), 0), (StringIndex(2), 2)]);
}

#[test]
fn blocks_are_numbered_in_order() {
    let mut e = env();
    assert_eq!(e.next_block_index(), BlockIndex(0));
    assert_eq!(e.next_block_index(), BlockIndex(1));
    assert_eq!(e.block_counter, 2);
    assert_eq!(e.var_counter, 0);
}

#[test]
fn the_latest_variable_of_a_name_is_found() {
    let mut e = env();
    assert_eq!(e.find_var(StringIndex(1)), None);
    e.alloc_var(StringIndex(1));
    e.alloc_var(StringIndex(2));
    e.alloc_var(StringIndex(1));
    assert_eq!(e.find_var(StringIndex(1)), Some(2));
    assert_eq!(e.find_var(StringIndex(2)), Some(1));
    assert_eq!(e.find_var(StringIndex(3)), None);
}
