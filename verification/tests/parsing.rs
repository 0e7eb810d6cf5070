use student_grades::grade::parse_grade;
use student_grades::pipeline::assign_data_to_student;
use student_grades::csv_input::extract_data_csv;
use student_grades::ReadError;

#[test]
fn grade_values_exact() {
    assert_eq!(parse_grade("7.5"), 750);
    assert_eq!(parse_grade("10"), 1000);
    assert_eq!(parse_grade("0"), 0);
    assert_eq!(parse_grade("0.05"), 5);
    assert_eq!(parse_grade("1.25"), 125);
    assert_eq!(parse_grade("9.9"), 990);
}

#[test]
fn malformed_grades_become_zero() {
    assert_eq!(parse_grade(""), 0);
    assert_eq!(parse_grade("x"), 0);
    assert_eq!(parse_grade("7,5"), 0);
    assert_eq!(parse_grade(".5"), 0);
    assert_eq!(parse_grade("5."), 0);
    assert_eq!(parse_grade("1.234"), 0);
    assert_eq!(parse_grade("1.2.3"), 0);
    assert_eq!(parse_grade("-3"), 0);
    assert_eq!(parse_grade(" 7"), 0);
    assert_eq!(parse_grade("7 "), 0);
}

#[test]
fn oversized_grade_becomes_zero() {
    assert_eq!(parse_grade("999999999999999999999999"), 0);
    assert_eq!(parse_grade("999999999999999999.99"), 0);
}

#[test]
fn malformed_field_recovery_in_row() {
    let rows = vec![vec![
        "Ana".to_string(),
        "7.5".to_string(),
        "x".to_string(),
        "9.0".to_string(),
    ]];
    let students = assign_data_to_student(rows).unwrap();
    assert_eq!(students.len(), 1);
    assert_eq!(students[0].name, "Ana");
    assert_eq!(students[0].grades, vec![750, 0, 900]);
}

#[test]
fn row_order_preserved() {
    let rows = vec![
        vec!["First".to_string(), "1".to_string()],
        vec!["Second".to_string(), "2".to_string()],
        vec!["Third".to_string()],
    ];
    let students = assign_data_to_student(rows).unwrap();
    assert_eq!(students.len(), 3);
    assert_eq!(students[0].name, "First");
    assert_eq!(students[1].name, "Second");
    assert_eq!(students[2].name, "Third");
    assert_eq!(students[0].grades, vec![100]);
    assert_eq!(students[1].grades, vec![200]);
    assert!(students[2].grades.is_empty());
}

#[test]
fn empty_row_yields_blank_student() {
    let rows = vec![vec![]];
    let students = assign_data_to_student(rows).unwrap();
    assert_eq!(students.len(), 1);
    assert_eq!(students[0].name, "");
    assert!(students[0].grades.is_empty());
}

#[test]
fn csv_rows_in_source_order() {
    let rows = extract_data_csv("a,b,c\nd,e\nf\n".as_bytes()).unwrap();
    assert_eq!(rows, vec![
        vec!["a".to_string(), "b".to_string(), "c".to_string()],
        vec!["d".to_string(), "e".to_string()],
        vec!["f".to_string()],
    ]);
}

#[test]
fn csv_first_row_is_data() {
    let rows = extract_data_csv("name,grade\nAna,8\n".as_bytes()).unwrap();
    assert_eq!(rows.len(), 2);
    assert_eq!(rows[0], vec!["name".to_string(), "grade".to_string()]);
}

#[test]
fn csv_quoted_field_is_unquoted() {
    let rows = extract_data_csv("\"Ana Maria\",7.5\n".as_bytes()).unwrap();
    assert_eq!(rows.len(), 1);
    assert_eq!(rows[0][0], "Ana Maria");
    assert_eq!(rows[0][1], "7.5");
}

#[test]
fn csv_invalid_utf8_is_parse_error() {
    let bytes: Vec<u8> = vec![0x41, 0x2c, 0xff, 0xfe, 0x0a];
    let err = extract_data_csv(&bytes).unwrap_err();
    assert_eq!(err, ReadError::ParseError);
}

#[test]
fn csv_empty_input_yields_no_rows() {
    let rows = extract_data_csv("".as_bytes()).unwrap();
    assert!(rows.is_empty());
}

#[test]
fn error_labels() {
    assert_eq!(ReadError::IoError.label(), "IOError");
    assert_eq!(ReadError::ParseError.label(), "ParseError");
}
