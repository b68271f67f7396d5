use rrrrr_rs::compile::bindings::{Bindings, Id, Scopes};
use rrrrr_rs::compile::ident::Symbol;

#[test]
fn test_resolve_with_empty_bindings() {
    let bindings = Bindings::new();
    assert_eq!(bindings.resolve_sym(&Id::new("a", [])), None);
}

#[test]
fn test_resolve_with_single_bindings() {
    let mut bindings = Bindings::new();
    bindings.add_binding(&Id::new("a", []), &Symbol::new("1"));
    assert_eq!(
        bindings.resolve_sym(&Id::new("a", [])),
        Some(Symbol::new("1"))
    );
    assert_eq!(bindings.resolve_sym(&Id::new("b", [])), None);
}

#[test]
fn test_resolve_with_multiple_stacked_bindings() {
    let mut bindings = Bindings::new();
    bindings.add_binding(&Id::new("a", [1, 2]), &Symbol::new("middle"));
    bindings.add_binding(&Id::new("a", [1, 2, 3]), &Symbol::new("inner"));
    bindings.add_binding(&Id::new("a", [1]), &Symbol::new("outer"));
    assert_eq!(
        bindings.resolve_sym(&Id::new("a", [1, 2, 4])),
        Some(Symbol::new("middle"))
    );
    assert_eq!(
        bindings.resolve_sym(&Id::new("a", [1])),
        Some(Symbol::new("outer"))
    );
    assert_eq!(bindings.resolve_sym(&Id::new("a", [2])), None);
    assert_eq!(bindings.resolve_sym(&Id::new("a", [])), None);
}

#[test]
fn test_gen_sym() {
    let mut bindings = Bindings::new();
    let gen_sym_1 = bindings.gen_sym(&Id::new("foo", [1]));
    let gen_sym_2 = bindings.gen_sym(&Id::new("bar", [1]));
    let gen_sym_3 = bindings.gen_sym(&Id::new("foo", [1, 2]));
    assert_eq!(gen_sym_1, Symbol::new("gensym_1:foo"));
    assert_eq!(gen_sym_2, Symbol::new("gensym_2:bar"));
    assert_eq!(gen_sym_3, Symbol::new("gensym_3:foo"));
}

#[test]
fn test_add_binding_overwrites_with_same_scopes() {
    let mut bindings = Bindings::new();
    bindings.add_binding(&Id::new("a", [1, 2]), &Symbol::new("first"));
    assert_eq!(
        bindings.resolve_sym(&Id::new("a", [1, 2])),
        Some(Symbol::new("first"))
    );
    bindings.add_binding(&Id::new("a", [1, 2]), &Symbol::new("second"));
    assert_eq!(
        bindings.resolve_sym(&Id::new("a", [1, 2])),
        Some(Symbol::new("second"))
    );
}

#[test]
fn test_resolve_with_core_bindings() {
    let bindings = Bindings::new();
    for core_binding in Bindings::CORE_BINDINGS {
        assert_eq!(
            bindings.resolve_sym(&Id::new(core_binding, [Bindings::CORE_SCOPE])),
            Some(Symbol::new(core_binding))
        );
    }
}

#[test]
fn bindings_new_scope_ids_count_up() {
    let mut bindings = Bindings::new();
    assert_eq!(bindings.new_scope_id(), 1);
    assert_eq!(bindings.new_scope_id(), 2);
    assert_eq!(bindings.new_scope_id(), 3);
}

#[test]
fn bindings_resolve_scopes_gives_the_scopes_of_the_binding() {
    let mut bindings = Bindings::new();
    bindings.add_binding(&Id::new("a", [1]), &Symbol::new("outer"));
    bindings.add_binding(&Id::new("a", [1, 2]), &Symbol::new("inner"));
    assert_eq!(bindings.resolve_scopes(&Id::new("a", [1, 2, 3])), Some(Scopes::from_array([1, 2])));
    assert_eq!(bindings.resolve_scopes(&Id::new("a", [1, 3])), Some(Scopes::from_array([1])));
    assert_eq!(bindings.resolve_scopes(&Id::new("a", [3])), None);
}

#[test]
fn bindings_equal_candidates_take_the_later_binding() {
    let mut bindings = Bindings::new();
    bindings.add_binding(&Id::new("a", [1]), &Symbol::new("one"));
    bindings.add_binding(&Id::new("a", [2]), &Symbol::new("two"));
    assert_eq!(bindings.resolve_sym(&Id::new("a", [1, 2])), Some(Symbol::new("two")));
}

#[test]
fn bindings_unrelated_scopes_leave_resolution_unchanged() {
    let mut bindings = Bindings::new();
    bindings.add_binding(&Id::new("a", [1]), &Symbol::new("outer"));
    bindings.add_binding(&Id::new("a", [1, 5]), &Symbol::new("elsewhere"));
    bindings.add_binding(&Id::new("b", [1]), &Symbol::new("other name"));
    assert_eq!(bindings.resolve_sym(&Id::new("a", [1, 2])), Some(Symbol::new("outer")));
}

#[test]
fn bindings_fresh_scopes_exceed_the_core_scope_and_earlier_ones() {
    let mut bindings = Bindings::new();
    let mut seen = vec![Bindings::CORE_SCOPE];
    for _ in 0..5 {
        let s = bindings.new_scope_id();
        assert!(seen.iter().all(|&e| e < s));
        seen.push(s);
    }
}
