use cenum::{Declaration, Discriminant, LookupError, Registry, Table};

fn registry(decls: &[(&str, Option<usize>)]) -> Registry {
    let decls: Vec<Declaration> = decls
        .iter()
        .map(|(label, code)| Declaration {
            label: label.to_string(),
            has_fields: false,
            discriminant: match code {
                Some(c) => Discriminant::Explicit(*c),
                None => Discriminant::Implicit,
            },
        })
        .collect();
    Registry::new(Table::build(&decls).unwrap())
}

fn colours() -> Registry {
    registry(&[("Red", None), ("Green", None), ("Blue", None)])
}

#[test]
fn colours_map_both_ways() {
    let mut r = colours();
    assert_eq!(r.to_code("Red"), Ok(0));
    assert_eq!(r.to_code("Green"), Ok(1));
    assert_eq!(r.to_code("Blue"), Ok(2));
    assert_eq!(r.from_code(1), Ok("Green".to_string()));
    assert!(!r.is_valid_code(3));
}

#[test]
fn levels_take_explicit_and_following_codes() {
    let mut r = registry(&[("Low", Some(10)), ("Medium", None), ("High", Some(20))]);
    assert_eq!(r.to_code("Low"), Ok(10));
    assert_eq!(r.to_code("Medium"), Ok(11));
    assert_eq!(r.to_code("High"), Ok(20));
    assert_eq!(r.from_code(11), Ok("Medium".to_string()));
}

#[test]
fn label_round_trip() {
    let mut r = registry(&[("A", Some(3)), ("B", None), ("C", Some(9)), ("D", None)]);
    for label in ["A", "B", "C", "D"] {
        let code = r.to_code(label).unwrap();
        assert_eq!(r.from_code(code), Ok(label.to_string()));
    }
}

#[test]
fn code_round_trip() {
    let mut r = registry(&[("A", Some(3)), ("B", None), ("C", Some(9)), ("D", None)]);
    for code in 0..12usize {
        if r.is_valid_code(code) {
            let label = r.from_code(code).unwrap();
            assert_eq!(r.to_code(&label), Ok(code));
        }
    }
}

#[test]
fn valid_codes_are_the_resolved_codes() {
    let mut r = registry(&[("A", Some(3)), ("B", None), ("C", Some(9)), ("D", None)]);
    let valid: Vec<usize> = (0..12usize).filter(|c| r.is_valid_code(*c)).collect();
    assert_eq!(valid, vec![3, 4, 9, 10]);
}

#[test]
fn unknown_label_fails() {
    let mut r = colours();
    assert_eq!(r.to_code("Purple"), Err(LookupError::UnknownLabel));
    assert_eq!(r.to_i64("Purple"), Err(LookupError::UnknownLabel));
    assert_eq!(r.to_u64("Purple"), Err(LookupError::UnknownLabel));
}

#[test]
fn unknown_code_fails() {
    let mut r = colours();
    assert_eq!(r.from_code(3), Err(LookupError::UnknownCode));
    assert!(r.is_valid_code(2));
}

#[test]
fn empty_registry_knows_nothing() {
    let mut r = registry(&[]);
    assert_eq!(r.to_code(""), Err(LookupError::UnknownLabel));
    assert_eq!(r.from_code(0), Err(LookupError::UnknownCode));
    assert!(!r.is_valid_code(0));
}

#[test]
fn caches_fill_on_first_use_only() {
    let mut r = colours();
    assert!(!r.is_forward_built());
    assert!(!r.is_reverse_built());
    assert_eq!(r.to_code("Blue"), Ok(2));
    assert!(r.is_forward_built());
    assert!(!r.is_reverse_built());
    assert_eq!(r.to_code("Blue"), Ok(2));
    assert_eq!(r.to_code("Red"), Ok(0));
    assert_eq!(r.from_code(2), Ok("Blue".to_string()));
    assert!(r.is_reverse_built());
    assert_eq!(r.from_code(2), Ok("Blue".to_string()));
    assert_eq!(r.from_code(0), Ok("Red".to_string()));
}

#[test]
fn numeric_views_carry_the_code() {
    let mut r = registry(&[("Low", Some(10)), ("Medium", None)]);
    assert_eq!(r.to_i64("Medium"), Ok(11i64));
    assert_eq!(r.to_u64("Medium"), Ok(11u64));
}

#[test]
fn numeric_views_of_largest_code() {
    let mut r = registry(&[("Top", Some(usize::MAX))]);
    assert_eq!(r.to_u64("Top"), Ok(usize::MAX as u64));
    assert_eq!(r.to_i64("Top"), Ok(usize::MAX as i64));
}
