use sql_param::area::{get_area_by_coordinate, AreaEnum, Region};
use sql_param::argument::{ArgOutcome, Argument};

#[test]
fn area_titles() {
    assert_eq!("Sql with placeholders", AreaEnum::Sql.title());
    assert_eq!("Value", AreaEnum::Value.title());
    assert_eq!("Result", AreaEnum::Result.title());
}

#[test]
fn focus_cycles_forward_and_backward() {
    assert_eq!(AreaEnum::Value, AreaEnum::Sql.next_area());
    assert_eq!(AreaEnum::Result, AreaEnum::Value.next_area());
    assert_eq!(AreaEnum::Sql, AreaEnum::Result.next_area());
    assert_eq!(AreaEnum::Result, AreaEnum::Sql.prev_area());
    assert_eq!(AreaEnum::Sql, AreaEnum::Value.prev_area());
    assert_eq!(AreaEnum::Value, AreaEnum::Result.prev_area());
}

#[test]
fn area_lookup_finds_first_covering_region() {
    let areas = vec![
        (AreaEnum::Sql, Region { x: 0, y: 0, width: 10, height: 5 }),
        (AreaEnum::Value, Region { x: 10, y: 0, width: 10, height: 5 }),
        (AreaEnum::Result, Region { x: 0, y: 5, width: 20, height: 5 }),
    ];
    assert_eq!(Some(AreaEnum::Sql), get_area_by_coordinate(&areas, 3, 2));
    assert_eq!(Some(AreaEnum::Value), get_area_by_coordinate(&areas, 10, 0));
    assert_eq!(Some(AreaEnum::Result), get_area_by_coordinate(&areas, 19, 9));
    assert_eq!(None, get_area_by_coordinate(&areas, 25, 2));
}

#[test]
fn both_arguments_substitute() {
    let argument = Argument {
        sql: Some("a = ?".to_string()),
        value: Some("1(Integer)".to_string()),
    };
    match argument.resolve() {
        ArgOutcome::Substituted(out) => assert_eq!("a = 1", out),
        _ => panic!("expected a substituted statement"),
    }
}

#[test]
fn one_argument_is_a_usage_error() {
    let only_sql = Argument { sql: Some("a = ?".to_string()), value: None };
    assert!(matches!(only_sql.resolve(), ArgOutcome::UsageError));
    let only_value = Argument { sql: None, value: Some("1(Integer)".to_string()) };
    assert!(matches!(only_value.resolve(), ArgOutcome::UsageError));
}

#[test]
fn no_arguments_fall_back_to_interactive() {
    let none = Argument { sql: None, value: None };
    assert!(matches!(none.resolve(), ArgOutcome::Interactive));
}
