use student_grades::pipeline::{process_report, process_students};
use student_grades::report::render_report;
use student_grades::student::{Mean, Student};
use student_grades::ReadError;

fn student(name: &str, grades: Vec<u64>) -> Student {
    let mut s = Student::new(name.to_string(), grades);
    s.calculate_grades();
    s
}

#[test]
fn report_block_exact() {
    let s = student("Ana", vec![800, 600, 1000]);
    assert_eq!(
        s.report(),
        "Student: Ana\nGrades: [8.0, 6.0, 10.0]\nAverage: 8.00\nHighest: 10.00\nLowest: 6.00\nResult: Passed"
    );
}

#[test]
fn grade_list_entries_debug_style() {
    let s = student("Mix", vec![750, 0, 925]);
    assert_eq!(s.report().lines().nth(1), Some("Grades: [7.5, 0.0, 9.25]"));
}

#[test]
fn report_block_empty_grades() {
    let s = student("Nobody", vec![]);
    assert_eq!(
        s.report(),
        "Student: Nobody\nGrades: []\nAverage: 0.00\nHighest: 0.00\nLowest: 0.00\nResult: Failed"
    );
}

#[test]
fn average_rounds_half_up() {
    // mean of 0.01 and 0.02 is 0.015, shown as 0.02
    let s = student("R", vec![1, 2]);
    assert_eq!(s.report().lines().nth(2), Some("Average: 0.02"));
    // mean of 1.00, 1.00, 2.00 is 1.333..., shown as 1.33
    let t = student("T", vec![100, 100, 200]);
    assert_eq!(t.report().lines().nth(2), Some("Average: 1.33"));
}

#[test]
fn scenario_two_rows() {
    let students = process_students("Ana,8,6,10\nLuis,3,4\n".as_bytes()).unwrap();
    assert_eq!(students.len(), 2);

    assert_eq!(students[0].name, "Ana");
    assert_eq!(students[0].grades, vec![800, 600, 1000]);
    assert_eq!(students[0].average, Mean { total: 2400, count: 3 });
    assert_eq!(students[0].highest_grade, 1000);
    assert_eq!(students[0].lowest_grade, 600);
    assert!(students[0].result);

    assert_eq!(students[1].name, "Luis");
    assert_eq!(students[1].grades, vec![300, 400]);
    assert_eq!(students[1].average, Mean { total: 700, count: 2 });
    assert_eq!(students[1].highest_grade, 400);
    assert_eq!(students[1].lowest_grade, 300);
    assert!(!students[1].result);
}

#[test]
fn full_report_blocks_in_order() {
    let text = process_report("Ana,8,6,10\nLuis,3,4\n".as_bytes()).unwrap();
    let ana = "Student: Ana\nGrades: [8.0, 6.0, 10.0]\nAverage: 8.00\nHighest: 10.00\nLowest: 6.00\nResult: Passed";
    let luis = "Student: Luis\nGrades: [3.0, 4.0]\nAverage: 3.50\nHighest: 4.00\nLowest: 3.00\nResult: Failed";
    assert_eq!(text, format!("{}\n\n{}\n\n", ana, luis));
}

#[test]
fn report_of_no_students_is_empty() {
    let students = process_students("".as_bytes()).unwrap();
    assert!(students.is_empty());
    assert_eq!(render_report(&students), "");
}

#[test]
fn parse_failure_yields_no_report() {
    let bytes: Vec<u8> = vec![0x41, 0x2c, 0xff, 0xfe, 0x0a];
    assert_eq!(process_report(&bytes).unwrap_err(), ReadError::ParseError);
}

#[test]
fn malformed_grade_in_full_run() {
    let students = process_students("Ana,7.5,x,9.0\n".as_bytes()).unwrap();
    assert_eq!(students[0].grades, vec![750, 0, 900]);
    assert_eq!(students[0].average, Mean { total: 1650, count: 3 });
    assert!(students[0].result);
}
