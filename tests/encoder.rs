use mustache::{Data, Encoder, Error};

#[test]
fn encodes_a_struct() {
    let mut e = Encoder::new();
    e.emit_struct();
    assert_eq!(e.field_start(), Ok(()));
    e.emit_str("Jane");
    assert_eq!(e.field_end("name"), Ok(()));
    assert_eq!(e.field_start(), Ok(()));
    e.emit_seq();
    assert_eq!(e.elt_start(), Ok(()));
    e.emit_bool(true);
    assert_eq!(e.elt_end(), Ok(()));
    assert_eq!(e.elt_start(), Ok(()));
    e.emit_char('x');
    assert_eq!(e.elt_end(), Ok(()));
    assert_eq!(e.field_end("list"), Ok(()));
    match e.finish() {
        Ok(Data::Table(t)) => {
            assert_eq!(t.len(), 2);
            assert!(t.iter().any(|(k, v)| k == "name" && matches!(v, Data::Str(s) if s == "Jane")));
            assert!(t.iter().any(|(k, v)| k == "list"
                && matches!(v, Data::Vec(items) if items.len() == 2
                    && matches!(items[0], Data::Bool(true))
                    && matches!(&items[1], Data::Str(s) if s == "x"))));
        }
        _ => panic!(),
    }
}

#[test]
fn encodes_a_map() {
    let mut e = Encoder::new();
    e.emit_struct();
    e.emit_str("k");
    assert_eq!(e.map_key_end(), Ok(()));
    e.emit_str("v");
    assert_eq!(e.map_val_end(), Ok(()));
    e.emit_str("k");
    assert_eq!(e.map_key_end(), Ok(()));
    e.emit_str("w");
    assert_eq!(e.map_val_end(), Ok(()));
    match e.finish() {
        Ok(Data::Table(t)) => {
            assert_eq!(t.len(), 1);
            assert!(matches!(&t[0].1, Data::Str(s) if s == "w"));
        }
        _ => panic!(),
    }
}

#[test]
fn encoder_errors() {
    let e = Encoder::new();
    assert_eq!(e.field_start(), Err(Error::UnsupportedType));
    assert_eq!(e.elt_start(), Err(Error::UnsupportedType));
    assert_eq!(e.map_key_end(), Err(Error::MissingElements));
    assert!(matches!(Encoder::new().finish(), Err(Error::MissingElements)));

    let mut e = Encoder::new();
    e.emit_struct();
    e.emit_bool(true);
    assert_eq!(e.map_key_end(), Err(Error::KeyIsNotString));
    assert_eq!(e.elt_end(), Err(Error::UnsupportedType));

    let mut e = Encoder::new();
    e.emit_seq();
    e.emit_bool(false);
    assert_eq!(e.field_end("f"), Err(Error::UnsupportedType));
    assert_eq!(e.elt_end(), Ok(()));
    assert!(matches!(e.finish(), Ok(Data::Vec(v)) if v.len() == 1));
}

#[test]
fn error_descriptions() {
    assert_eq!(Error::UnsupportedType.description(), "unsupported type".to_string());
    assert_eq!(Error::KeyIsNotString.description(), "key is not a string".to_string());
    assert_eq!(Error::IoError("gone".to_string()).description(), "gone".to_string());
    assert_eq!(Error::UnbalancedSection.description(), "unbalanced section".to_string());
}

#[test]
fn map_value_needs_a_key_first() {
    let mut e = Encoder::new();
    e.emit_struct();
    assert_eq!(e.map_val_start(), Err(Error::KeyIsNotString));
    e.emit_str("k");
    assert_eq!(e.map_val_start(), Ok(()));
    let mut e = Encoder::new();
    e.emit_seq();
    e.emit_str("k");
    assert_eq!(e.map_val_start(), Err(Error::UnsupportedType));
    e.emit_bool(true);
    assert_eq!(e.map_val_end(), Err(Error::UnsupportedType));
    let mut e = Encoder::new();
    e.emit_str("k");
    assert_eq!(e.map_val_end(), Err(Error::MissingElements));
}
