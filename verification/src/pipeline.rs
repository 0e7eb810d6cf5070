//! From raw rows to students with populated statistics.
//!
//! The mapping keeps row order: the nth student comes from the nth row. The
//! first field of a row is the name, taken verbatim; every further field is
//! parsed as a grade, with zero standing in for a malformed value.

use vstd::prelude::*;
use crate::ReadError;
use crate::csv_input::{csv_parse_of, extract_data_csv, row_view, rows_view};
use crate::grade::grade_of_field;
use crate::report::{render_report, report_view, report_view_parts, reports_view};
use crate::student::{
    calculated, derived_ok, highest_of, lowest_of, mean_of, passes, zero_mean, Student,
};

verus! {

/// The name a row gives its student: the first field, empty if there is none.
pub open spec fn name_of_row(row: Seq<Seq<char>>) -> Seq<char> {
    if row.len() == 0 {
        Seq::empty()
    } else {
        row[0]
    }
}

/// The grades a row gives its student: one per field after the first, in
/// order, each malformed value read as zero.
pub open spec fn grades_of_row(row: Seq<Seq<char>>) -> Seq<u64> {
    if row.len() == 0 {
        Seq::empty()
    } else {
        row.skip(1).map_values(|f: Seq<char>| grade_of_field(f))
    }
}

/// The student freshly mapped from a row: name and grades taken from the
/// row, statistics still zeroed.
pub open spec fn mapped_student(s: Student, row: Seq<Seq<char>>) -> bool {
    &&& s.name@ == name_of_row(row)
    &&& s.grades@ == grades_of_row(row)
    &&& s.average == zero_mean()
    &&& s.highest_grade == 0
    &&& s.lowest_grade == 0
    &&& s.result == false
}

/// Every student fully processed from its row, in row order: name and
/// grades taken from the row, statistics derived from the grades.
pub open spec fn processed_rows(students: Seq<Student>, rows: Seq<Seq<Seq<char>>>) -> bool {
    &&& students.len() == rows.len()
    &&& forall|i: int|
        0 <= i < rows.len() ==> {
            &&& (#[trigger] students[i]).name@ == name_of_row(rows[i])
            &&& students[i].grades@ == grades_of_row(rows[i])
            &&& derived_ok(students[i])
        }
}

/// Maps each raw row to one student, in row order: first field the name,
/// the rest the grades, statistics zeroed. Never fails; a malformed grade
/// value is read as zero rather than rejected.
pub fn assign_data_to_student(data: Vec<Vec<String>>) -> (r: Result<Vec<Student>, ReadError>)
    ensures
        r is Ok,
        r matches Ok(students) ==> {
            &&& students@.len() == data@.len()
            &&& forall|i: int|
                0 <= i < data@.len() ==> mapped_student(
                    #[trigger] students@[i],
                    row_view(data@[i]@),
                )
        },
{
    let mut students: Vec<Student> = Vec::new();
    let mut i: usize = 0;
    while i < data.len()
        invariant
            i <= data@.len(),
            students@.len() == i as int,
            forall|k: int|
                0 <= k < i ==> mapped_student(#[trigger] students@[k], row_view(data@[k]@)),
        decreases data@.len() - i,
    {
        let row = &data[i];
        let mut name = String::new();
        let mut grades: Vec<u64> = Vec::new();
        if row.len() > 0 {
            name = row[0].clone();
            let mut j: usize = 1;
            while j < row.len()
                invariant
                    1 <= j <= row@.len(),
                    name == row@[0],
                    grades@.len() == j - 1,
                    forall|k: int|
                        0 <= k < j - 1 ==> grades@[k] == grade_of_field(#[trigger] row@[k + 1]@),
                decreases row@.len() - j,
            {
                grades.push(crate::grade::parse_grade(row[j].as_str()));
                j += 1;
            }
        }
        proof {
            assert(grades@ =~= grades_of_row(row_view(row@)));
            if row@.len() == 0 {
                assert(name@ =~= name_of_row(row_view(row@)));
            }
        }
        let student = Student::new(name, grades);
        students.push(student);
        i += 1;
    }
    Ok(students)
}

/// Reads students out of comma-separated source bytes: one per row, in row
/// order, names verbatim, grades parsed with zero for malformed values, and
/// all derived statistics populated.
///
/// Fails with `ParseError` exactly when the bytes cannot be decomposed into
/// rows of fields.
pub fn process_students(bytes: &[u8]) -> (r: Result<Vec<Student>, ReadError>)
    ensures
        r is Ok <==> csv_parse_of(bytes@) is Some,
        r matches Err(e) ==> e == ReadError::ParseError,
        r matches Ok(students) ==> processed_rows(students@, csv_parse_of(bytes@)->Some_0),
{
    let rows = match extract_data_csv(bytes) {
        Ok(rows) => rows,
        Err(e) => return Err(e),
    };
    let ghost rows_v = rows_view(rows@);
    let mut pending = match assign_data_to_student(rows) {
        Ok(s) => s,
        Err(e) => return Err(e),
    };
    let ghost pending0 = pending@;
    let mut students: Vec<Student> = Vec::new();
    while pending.len() > 0
        invariant
            students@.len() + pending@.len() == pending0.len(),
            pending@ == pending0.skip(students@.len() as int),
            rows_v.len() == pending0.len(),
            forall|k: int|
                0 <= k < pending0.len() ==> mapped_student(#[trigger] pending0[k], rows_v[k]),
            forall|k: int|
                0 <= k < students@.len() ==> {
                    &&& #[trigger] students@[k] == calculated(pending0[k])
                    &&& derived_ok(students@[k])
                },
        decreases pending@.len(),
    {
        let ghost idx = students@.len() as int;
        let mut s = pending.remove(0);
        proof {
            assert(s == pending0[idx]);
            assert(pending@ =~= pending0.skip(idx + 1));
        }
        s.calculate_grades();
        proof {
            if pending0[idx].grades@.len() == 0 {
                assert(s == pending0[idx]);
                assert(crate::student::highest_of(Seq::<u64>::empty()) == 0);
                assert(crate::student::lowest_of(Seq::<u64>::empty()) == 0);
                assert(derived_ok(s));
            }
        }
        students.push(s);
    }
    Ok(students)
}

/// The report block a row determines: rendered from the row's name, the
/// grades read from its fields, and the statistics those grades fix.
pub open spec fn row_report(row: Seq<Seq<char>>) -> Seq<char> {
    let g = grades_of_row(row);
    report_view_parts(name_of_row(row), g, mean_of(g), highest_of(g), lowest_of(g), passes(g))
}

/// The report blocks of all rows, in row order, each followed by a blank
/// line.
pub open spec fn rows_report(rows: Seq<Seq<Seq<char>>>) -> Seq<char>
    decreases rows.len(),
{
    if rows.len() == 0 {
        Seq::empty()
    } else {
        rows_report(rows.drop_last()) + row_report(rows.last()) + seq!['\n', '\n']
    }
}

/// A processed student's report block is the block its row determines.
proof fn lemma_report_of_processed(s: Student, row: Seq<Seq<char>>)
    requires
        s.name@ == name_of_row(row),
        s.grades@ == grades_of_row(row),
        derived_ok(s),
    ensures
        report_view(s) == row_report(row),
{
    let g = grades_of_row(row);
    if g.len() > 0 {
        assert(s.average =~= mean_of(g));
    }
}

/// Processed students report, block by block, what their rows determine.
proof fn lemma_reports_of_processed(students: Seq<Student>, rows: Seq<Seq<Seq<char>>>)
    requires
        processed_rows(students, rows),
    ensures
        reports_view(students) == rows_report(rows),
    decreases rows.len(),
{
    if rows.len() > 0 {
        assert(processed_rows(students.drop_last(), rows.drop_last()));
        lemma_reports_of_processed(students.drop_last(), rows.drop_last());
        lemma_report_of_processed(students.last(), rows.last());
    }
}

/// The full run on source bytes: one report block per row, in row order,
/// each block followed by a blank line.
///
/// Fails with `ParseError` exactly when the bytes cannot be decomposed into
/// rows of fields.
pub fn process_report(bytes: &[u8]) -> (r: Result<String, ReadError>)
    ensures
        r is Ok <==> csv_parse_of(bytes@) is Some,
        r matches Err(e) ==> e == ReadError::ParseError,
        r matches Ok(text) ==> text@ == rows_report(csv_parse_of(bytes@)->Some_0),
{
    let students = match process_students(bytes) {
        Ok(s) => s,
        Err(e) => return Err(e),
    };
    proof {
        lemma_reports_of_processed(students@, csv_parse_of(bytes@)->Some_0);
    }
    Ok(render_report(&students))
}

} // verus!
