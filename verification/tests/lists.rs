use rrrrr_rs::compile::{
    ident::Symbol,
    read::{lex::tokenize, parse::parse},
    sexpr::{Cons, Num, SExpr, Vector},
    span::Span,
    util::{
        append, first, for_each, is_proper_list, len, rest, split, try_dotted_tail, try_first, try_for_each,
        try_last, try_map, try_nth, try_rest,
    },
};

fn read(src: &str) -> SExpr<Symbol> {
    let mut v = parse(&tokenize(src).unwrap()).unwrap();
    assert_eq!(v.len(), 1);
    v.pop().unwrap()
}

fn num_of(e: &SExpr<Symbol>) -> String {
    match e {
        SExpr::Num(Num(text), _) => text.clone(),
        _ => panic!("expected a number"),
    }
}

#[test]
fn test_first_rest_nth_last() {
    let l = read("(1 2 3)");
    assert_eq!(num_of(first(&l)), "1");
    assert_eq!(num_of(first(rest(&l))), "2");
    assert_eq!(num_of(try_nth(&l, 2).unwrap()), "3");
    assert!(try_nth(&l, 3).is_none());
    assert_eq!(num_of(try_last(&l).unwrap()), "3");
    assert!(try_first(&read("42")).is_none());
    assert!(try_rest(&read("()")).is_none());
    assert!(try_last(&read("()")).is_none());
}

#[test]
fn test_first_by_value() {
    let l = read("(7 8)");
    assert_eq!(num_of(&first(l)), "7");
}

#[test]
fn test_len_and_proper_lists() {
    assert_eq!(len(&read("(1 2 3)")), 3);
    assert_eq!(len(&read("(1 2 . 3)")), 2);
    assert_eq!(len(&read("()")), 0);
    assert!(is_proper_list(&read("(1 2)")));
    assert!(is_proper_list(&read("()")));
    assert!(!is_proper_list(&read("(1 . 2)")));
    assert!(!is_proper_list(&read("5")));
    assert_eq!(num_of(try_dotted_tail(&read("(1 2 . 3)")).unwrap()), "3");
    assert!(matches!(try_dotted_tail(&read("(1 2)")), Some(SExpr::Nil(_))));
    assert!(try_dotted_tail(&read("x")).is_none());
}

#[test]
fn test_for_each_visits_elements_in_order() {
    let l = read("(1 2 3)");
    let seen = std::cell::RefCell::new(Vec::new());
    for_each(&l, |e| seen.borrow_mut().push(num_of(e)));
    assert_eq!(seen.into_inner(), vec!["1", "2", "3"]);
}

#[test]
fn test_try_for_each_stops_at_first_error() {
    let l = read("(1 2 3)");
    let r = try_for_each(&l, |e| if num_of(e) == "2" { Err("two") } else { Ok(()) });
    assert_eq!(r, Err("two"));
    assert_eq!(try_for_each(&l, |_| Ok::<(), &str>(())), Ok(()));
}

#[test]
fn test_try_map_replaces_elements_and_keeps_tail() {
    let l = read("(1 2 . 3)");
    let r = try_map(l, |e| match e {
        SExpr::Num(Num(text), span) => Ok::<_, ()>(SExpr::Num(Num(format!("{}0", text)), span)),
        other => Ok(other),
    })
    .unwrap();
    assert_eq!(num_of(first(&r)), "10");
    assert_eq!(num_of(first(rest(&r))), "20");
    assert_eq!(num_of(rest(rest(&r))), "3");
    let failed = try_map(read("(1 x 2)"), |e| match e {
        SExpr::Var(..) => Err("not a number"),
        other => Ok(other),
    });
    assert_eq!(failed.unwrap_err(), "not a number");
}

#[test]
fn test_append_replaces_end() {
    let r = append(read("(1 2)"), read("(3)"));
    assert_eq!(len(&r), 3);
    assert!(is_proper_list(&r));
    let dotted = append(read("(1 . 2)"), read("9"));
    assert_eq!(num_of(rest(&dotted)), "9");
    let from_nil = append(read("()"), read("(5)"));
    assert_eq!(num_of(first(&from_nil)), "5");
}

#[test]
fn test_split_after_n() {
    let (head, tail) = split(read("(1 2 3 4)"), 2);
    assert_eq!(len(&head), 2);
    assert!(is_proper_list(&head));
    assert_eq!(num_of(first(&tail)), "3");
    assert_eq!(len(&tail), 2);
    let (none, all) = split(read("(1 2)"), 0);
    assert!(matches!(none, SExpr::Nil(_)));
    assert_eq!(len(&all), 2);
}

#[test]
fn test_try_into_vector() {
    let SExpr::Cons(cons, _) = read("(1 2 3)") else { panic!("expected a list") };
    let v = cons.try_into_vector(Span { lo: 0, hi: 7 }).unwrap();
    let SExpr::Vector(Vector(items), span) = v else { panic!("expected a vector") };
    assert_eq!(span, Span { lo: 0, hi: 7 });
    assert_eq!(items.iter().map(num_of).collect::<Vec<_>>(), vec!["1", "2", "3"]);
    let SExpr::Cons(dotted, _) = read("(1 . 2)") else { panic!("expected a pair") };
    assert!(dotted.try_into_vector(Span { lo: 0, hi: 7 }).is_none());
}

#[test]
fn test_vector_list_roundtrip() {
    let SExpr::Vector(vector, span) = read("#(4 5)") else { panic!("expected a vector") };
    let SExpr::Cons(cons, _) = vector.into_cons_list(span) else { panic!("expected a list") };
    let SExpr::Vector(Vector(items), _) = cons.try_into_vector(span).unwrap() else { panic!("expected a vector") };
    assert_eq!(items.iter().map(num_of).collect::<Vec<_>>(), vec!["4", "5"]);
}

#[test]
fn test_map_var_keeps_shape_and_spans() {
    let l = read("(a #(b) . c)");
    let mapped = l.map_var(&|s: Symbol| s.0.len());
    let SExpr::Cons(Cons { car, cdr }, span) = mapped else { panic!("expected a pair") };
    assert_eq!(span, Span { lo: 0, hi: 12 });
    assert!(matches!(*car, SExpr::Var(1, Span { lo: 1, hi: 2 })));
    let SExpr::Cons(Cons { car: v, cdr: tail }, _) = *cdr else { panic!("expected a pair") };
    assert!(matches!(*v, SExpr::Vector(Vector(ref items), _) if matches!(items[0], SExpr::Var(1, _))));
    assert!(matches!(*tail, SExpr::Var(1, _)));
}

#[test]
fn test_is_atomic() {
    assert!(read("x").is_atomic());
    assert!(read("42").is_atomic());
    assert!(!read("(x)").is_atomic());
    assert!(!read("\"s\"").is_atomic());
    assert!(!read("#(1)").is_atomic());
}

#[test]
fn test_update_span() {
    let mut e = read("x");
    e.update_span(Span { lo: 3, hi: 9 });
    assert_eq!(e.get_span(), Span { lo: 3, hi: 9 });
}

#[test]
fn try_for_each_makes_no_call_after_the_first_error() {
    let l = read("(1 2 3 4)");
    let calls = std::cell::RefCell::new(Vec::new());
    let r = try_for_each(&l, |e| {
        calls.borrow_mut().push(num_of(e));
        if num_of(e) == "2" || num_of(e) == "3" { Err(num_of(e)) } else { Ok(()) }
    });
    assert_eq!(r, Err("2".to_string()));
    assert_eq!(calls.into_inner(), vec!["1", "2"]);
}

#[test]
fn try_map_returns_the_first_error_and_stops() {
    let calls = std::cell::RefCell::new(0);
    let r = try_map(read("(1 x y 2)"), |e| {
        *calls.borrow_mut() += 1;
        match e {
            SExpr::Var(s, _) => Err(s.0),
            other => Ok(other),
        }
    });
    assert_eq!(r.unwrap_err(), "x");
    assert_eq!(calls.into_inner(), 2);
}
