use cenum::{BuildError, Declaration, Discriminant, Table};

fn unit(label: &str, discriminant: Discriminant) -> Declaration {
    Declaration { label: label.to_string(), has_fields: false, discriminant }
}

fn implicit(label: &str) -> Declaration {
    unit(label, Discriminant::Implicit)
}

fn explicit(label: &str, code: usize) -> Declaration {
    unit(label, Discriminant::Explicit(code))
}

fn pairs(table: &Table) -> Vec<(String, usize)> {
    (0..table.len()).map(|i| (table.label(i).clone(), table.code(i))).collect()
}

#[test]
fn implicit_codes_count_from_zero() {
    let table = Table::build(&vec![implicit("Red"), implicit("Green"), implicit("Blue")]).unwrap();
    assert_eq!(
        pairs(&table),
        vec![("Red".to_string(), 0), ("Green".to_string(), 1), ("Blue".to_string(), 2)]
    );
}

#[test]
fn implicit_codes_are_positions() {
    let names = ["A", "B", "C", "D", "E", "F"];
    let decls: Vec<Declaration> = names.iter().map(|n| implicit(n)).collect();
    let table = Table::build(&decls).unwrap();
    assert_eq!(table.len(), names.len());
    for (i, n) in names.iter().enumerate() {
        assert_eq!(table.label(i), n);
        assert_eq!(table.code(i), i);
    }
}

#[test]
fn implicit_code_follows_explicit() {
    let table = Table::build(&vec![explicit("Low", 10), implicit("Medium"), explicit("High", 20)])
        .unwrap();
    assert_eq!(
        pairs(&table),
        vec![("Low".to_string(), 10), ("Medium".to_string(), 11), ("High".to_string(), 20)]
    );
}

#[test]
fn empty_declarations_make_empty_table() {
    let table = Table::build(&vec![]).unwrap();
    assert_eq!(table.len(), 0);
}

#[test]
fn explicit_repeat_of_previous_code_is_duplicate() {
    assert_eq!(
        Table::build(&vec![explicit("A", 2), explicit("B", 2)]).err(),
        Some(BuildError::DuplicateCode)
    );
}

#[test]
fn explicit_code_equal_to_implicit_previous_is_duplicate() {
    let decls = vec![implicit("A"), implicit("B"), implicit("C"), explicit("D", 2)];
    assert_eq!(Table::build(&decls).err(), Some(BuildError::DuplicateCode));
}

#[test]
fn explicit_code_below_next_is_non_monotonic() {
    let decls = vec![explicit("A", 0), implicit("B"), explicit("C", 0)];
    assert_eq!(Table::build(&decls).err(), Some(BuildError::NonMonotonicCode));
}

#[test]
fn explicit_code_may_skip_ahead() {
    let table = Table::build(&vec![implicit("A"), explicit("B", 7), implicit("C")]).unwrap();
    assert_eq!(
        pairs(&table),
        vec![("A".to_string(), 0), ("B".to_string(), 7), ("C".to_string(), 8)]
    );
}

#[test]
fn member_with_fields_is_invalid() {
    let decls = vec![
        implicit("A"),
        Declaration { label: "B".to_string(), has_fields: true, discriminant: Discriminant::Implicit },
    ];
    assert_eq!(Table::build(&decls).err(), Some(BuildError::InvalidSource));
}

#[test]
fn fields_are_refused_before_codes() {
    let decls = vec![
        explicit("A", 3),
        explicit("B", 3),
        Declaration { label: "C".to_string(), has_fields: true, discriminant: Discriminant::Implicit },
    ];
    assert_eq!(Table::build(&decls).err(), Some(BuildError::InvalidSource));
}

#[test]
fn malformed_discriminant_is_invalid() {
    let decls = vec![implicit("A"), unit("B", Discriminant::Malformed)];
    assert_eq!(Table::build(&decls).err(), Some(BuildError::InvalidSource));
}

#[test]
fn repeated_label_is_invalid() {
    let decls = vec![implicit("A"), implicit("B"), implicit("A")];
    assert_eq!(Table::build(&decls).err(), Some(BuildError::InvalidSource));
}

#[test]
fn first_failure_in_order_decides() {
    let decls = vec![explicit("A", 5), explicit("B", 1), unit("C", Discriminant::Malformed)];
    assert_eq!(Table::build(&decls).err(), Some(BuildError::NonMonotonicCode));
}

#[test]
fn largest_code_is_accepted_last() {
    let table = Table::build(&vec![implicit("A"), explicit("B", usize::MAX)]).unwrap();
    assert_eq!(table.code(1), usize::MAX);
}

#[test]
fn implicit_code_after_largest_overflows() {
    let decls = vec![explicit("A", usize::MAX), implicit("B")];
    assert_eq!(Table::build(&decls).err(), Some(BuildError::CodeOverflow));
}
