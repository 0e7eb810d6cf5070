use student_grades::student::{Mean, Student};

fn student(name: &str, grades: Vec<u64>) -> Student {
    let mut s = Student::new(name.to_string(), grades);
    s.calculate_grades();
    s
}

#[test]
fn empty_grades_all_zero() {
    let s = student("Nobody", vec![]);
    assert_eq!(s.average, Mean { total: 0, count: 1 });
    assert_eq!(s.highest_grade, 0);
    assert_eq!(s.lowest_grade, 0);
    assert!(!s.result);
}

#[test]
fn mean_lies_within_extremes() {
    let s = student("Ana", vec![800, 600, 1000]);
    // lowest <= average <= highest, as exact rationals
    let total = s.average.total;
    let count = s.average.count as u128;
    assert!((s.lowest_grade as u128) * count <= total);
    assert!(total <= (s.highest_grade as u128) * count);
}

#[test]
fn pass_boundary_inclusive() {
    let exactly_five = student("B", vec![500]);
    assert!(exactly_five.result);
    let just_below = student("C", vec![499]);
    assert!(!just_below.result);
    let just_above = student("D", vec![501]);
    assert!(just_above.result);
}

#[test]
fn pass_boundary_on_mean_not_rounding() {
    // mean 4.995 rounds to 5.00 for display but does not pass
    let s = student("E", vec![499, 500]);
    assert_eq!(s.average, Mean { total: 999, count: 2 });
    assert!(!s.result);
}

#[test]
fn calculate_twice_is_idempotent() {
    let mut s = Student::new("Ana".to_string(), vec![750, 0, 900]);
    s.calculate_grades();
    let average = s.average;
    let highest = s.highest_grade;
    let lowest = s.lowest_grade;
    let result = s.result;
    s.calculate_grades();
    assert_eq!(s.average, average);
    assert_eq!(s.highest_grade, highest);
    assert_eq!(s.lowest_grade, lowest);
    assert_eq!(s.result, result);
}

#[test]
fn extremes_and_mean_exact() {
    let s = student("Ana", vec![800, 600, 1000]);
    assert_eq!(s.average, Mean { total: 2400, count: 3 });
    assert_eq!(s.highest_grade, 1000);
    assert_eq!(s.lowest_grade, 600);
    assert!(s.result);
}

#[test]
fn single_grade_is_its_own_extremes() {
    let s = student("Solo", vec![425]);
    assert_eq!(s.average, Mean { total: 425, count: 1 });
    assert_eq!(s.highest_grade, 425);
    assert_eq!(s.lowest_grade, 425);
    assert!(!s.result);
}

#[test]
fn tied_extremes() {
    let s = student("Tie", vec![700, 700, 700]);
    assert_eq!(s.highest_grade, 700);
    assert_eq!(s.lowest_grade, 700);
    assert_eq!(s.average, Mean { total: 2100, count: 3 });
    assert!(s.result);
}
