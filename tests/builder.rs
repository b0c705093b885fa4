use std::cell::Cell;

use mustache::{Data, Lambda, MapBuilder, VecBuilder};

struct Counter {
    count: Cell<u32>,
}

impl Lambda for Counter {
    fn call(&self, text: String) -> String {
        let n = self.count.get() + 1;
        self.count.set(n);
        text + &n.to_string()
    }
}

fn counter() -> Counter {
    Counter { count: Cell::new(0) }
}

fn call(d: &Data, text: &str) -> String {
    match d {
        Data::Fun(f) => f.call(text.to_string()),
        _ => panic!("not a callback"),
    }
}

#[test]
fn test_empty_builders() {
    assert_eq!(MapBuilder::new().build().try_eq(&Data::Table(Vec::new())), Some(true));

    assert_eq!(VecBuilder::new().build().try_eq(&Data::Vec(Vec::new())), Some(true));
}

#[test]
fn equality_ignores_table_order() {
    let a = MapBuilder::new()
        .insert_str("x".to_string(), "1".to_string())
        .insert_bool("y".to_string(), true)
        .build();
    let b = MapBuilder::new()
        .insert_bool("y".to_string(), true)
        .insert_str("x".to_string(), "1".to_string())
        .build();
    let c = MapBuilder::new()
        .insert_bool("y".to_string(), false)
        .insert_str("x".to_string(), "1".to_string())
        .build();
    assert_eq!(a.try_eq(&b), Some(true));
    assert_eq!(a.try_eq(&c), Some(false));
    assert_eq!(Data::Bool(true).try_eq(&Data::Str("true".to_string())), Some(false));
}

#[test]
fn callbacks_are_not_comparable() {
    let f = MapBuilder::new().insert_fn("f".to_string(), counter()).build();
    let g = VecBuilder::new().push_fn(counter()).build();
    assert_eq!(f.try_eq(&Data::Bool(true)), None);
    assert_eq!(Data::Bool(true).try_eq(&g), None);
    assert!(f.contains_fun());
    assert!(!Data::Vec(vec![Data::Bool(true)]).contains_fun());
}

#[test]
fn test_map_fn_builder() {
    let data = MapBuilder::new().insert_fn("count".to_string(), counter()).build();

    match data {
        Data::Table(m) => {
            let f = &m.iter().find(|(k, _)| k == "count").unwrap().1;
            assert_eq!(call(f, "count: "), "count: 1".to_string());
            assert_eq!(call(f, "count: "), "count: 2".to_string());
            assert_eq!(call(f, "count: "), "count: 3".to_string());
        }
        _ => panic!(),
    }
}

#[test]
fn test_vec_fn_builder() {
    let data = VecBuilder::new().push_fn(counter()).build();

    match data {
        Data::Vec(vs) => {
            assert_eq!(vs.len(), 1);
            let f = &vs[0];
            assert_eq!(call(f, "count: "), "count: 1".to_string());
            assert_eq!(call(f, "count: "), "count: 2".to_string());
            assert_eq!(call(f, "count: "), "count: 3".to_string());
        }
        _ => panic!(),
    }
}

#[test]
fn map_builder_replaces_a_key() {
    let data = MapBuilder::new()
        .insert_str("a".to_string(), "1".to_string())
        .insert_bool("b".to_string(), true)
        .insert_str("a".to_string(), "2".to_string())
        .build();
    match data {
        Data::Table(t) => {
            assert_eq!(t.len(), 2);
            let a: Vec<&Data> = t.iter().filter(|(k, _)| k == "a").map(|(_, v)| v).collect();
            assert_eq!(a.len(), 1);
            assert!(matches!(a[0], Data::Str(s) if s == "2"));
            assert!(t.iter().any(|(k, v)| k == "b" && matches!(v, Data::Bool(true))));
        }
        _ => panic!(),
    }
}

#[test]
fn nested_builders() {
    let data = MapBuilder::new()
        .insert_vec("works".to_string(), |b| {
            b.push_str("Sense and Sensibility".to_string()).push_map(|m| {
                m.insert_str("title".to_string(), "Pride and Prejudice".to_string())
            })
        })
        .insert_map("author".to_string(), |m| m.insert_bool("died".to_string(), true))
        .build();
    match data {
        Data::Table(t) => {
            assert_eq!(t.len(), 2);
            let works = &t.iter().find(|(k, _)| k == "works").unwrap().1;
            match works {
                Data::Vec(v) => {
                    assert_eq!(v.len(), 2);
                    assert!(matches!(&v[0], Data::Str(s) if s == "Sense and Sensibility"));
                    assert!(matches!(&v[1], Data::Table(m) if m.len() == 1));
                }
                _ => panic!(),
            }
            let author = &t.iter().find(|(k, _)| k == "author").unwrap().1;
            assert!(matches!(author, Data::Table(m) if m.len() == 1));
        }
        _ => panic!(),
    }
}

#[test]
fn vec_builder_keeps_order() {
    let data = VecBuilder::new()
        .push_bool(false)
        .push_str("x".to_string())
        .push_vec(|b| b.push_bool(true))
        .build();
    match data {
        Data::Vec(v) => {
            assert_eq!(v.len(), 3);
            assert!(matches!(v[0], Data::Bool(false)));
            assert!(matches!(&v[1], Data::Str(s) if s == "x"));
            assert!(matches!(&v[2], Data::Vec(w) if w.len() == 1));
        }
        _ => panic!(),
    }
}

#[test]
fn equality_is_symmetric_on_repeated_keys() {
    let a = Data::Table(vec![
        ("a".to_string(), Data::Str("1".to_string())),
        ("a".to_string(), Data::Str("1".to_string())),
    ]);
    let b = Data::Table(vec![
        ("a".to_string(), Data::Str("1".to_string())),
        ("b".to_string(), Data::Str("2".to_string())),
    ]);
    assert_eq!(a.try_eq(&b), Some(false));
    assert_eq!(b.try_eq(&a), Some(false));
}
