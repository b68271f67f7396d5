use rrrrr_rs::compile::{ident::Symbol, symbol_map::SymbolMap};

#[test]
fn symbol_map_starts_empty() {
    let map: SymbolMap<Symbol> = SymbolMap::new();
    assert!(map.get(&Symbol::new("x")).is_none());
}

#[test]
fn symbol_map_gives_back_what_was_inserted() {
    let mut map: SymbolMap<Symbol> = SymbolMap::new();
    map.insert(Symbol::new("x:1"), Symbol::new("y:2"));
    map.insert(Symbol::new("z:3"), Symbol::new("w:4"));
    assert_eq!(map.get(&Symbol::new("x:1")), Some(&Symbol::new("y:2")));
    assert_eq!(map.get(&Symbol::new("z:3")), Some(&Symbol::new("w:4")));
    assert!(map.get(&Symbol::new("y:2")).is_none());
}

#[test]
fn symbol_map_insert_replaces_the_value() {
    let mut map: SymbolMap<Symbol> = SymbolMap::new();
    map.insert(Symbol::new("x:1"), Symbol::new("a"));
    map.insert(Symbol::new("x:1"), Symbol::new("b"));
    assert_eq!(map.get(&Symbol::new("x:1")), Some(&Symbol::new("b")));
}
