//! Rendering one student as a multi-line text block.
//!
//! Every number is rendered from its exact integer form. A grade in the
//! list is a debug-style entry — the fewest fraction digits that keep its
//! value, at least one. The three statistics get exactly two decimal
//! places, the mean rounded half-up to the nearest hundredth first. The
//! block lists the name, the grades, the statistics and the verdict label.

use vstd::prelude::*;
use crate::student::{Mean, Student};

verus! {

/// The digit character for a value below ten.
pub open spec fn digit_char(d: int) -> char {
    if d == 0 {
        '0'
    } else if d == 1 {
        '1'
    } else if d == 2 {
        '2'
    } else if d == 3 {
        '3'
    } else if d == 4 {
        '4'
    } else if d == 5 {
        '5'
    } else if d == 6 {
        '6'
    } else if d == 7 {
        '7'
    } else if d == 8 {
        '8'
    } else {
        '9'
    }
}

/// The decimal numeral of a number, most significant digit first.
pub open spec fn dec_view(n: nat) -> Seq<char>
    decreases n,
{
    if n < 10 {
        seq![digit_char(n as int)]
    } else {
        dec_view(n / 10) + seq![digit_char((n % 10) as int)]
    }
}

/// A count of hundredths rendered with two decimal places: the whole units,
/// a dot, and exactly two fraction digits.
pub open spec fn hundredths_view(h: nat) -> Seq<char> {
    dec_view(h / 100) + seq!['.', digit_char(((h / 10) % 10) as int), digit_char((h % 10) as int)]
}

/// The mean rounded half-up to the nearest hundredth, clamped to what a
/// grade can hold; zero for a mean with no grades behind it.
pub open spec fn display_hundredths(m: Mean) -> int {
    if m.count == 0 {
        0
    } else {
        let q = m.total as int / m.count as int;
        let r = m.total as int % m.count as int;
        let rounded = q + if 2 * r >= m.count as int {
            1int
        } else {
            0int
        };
        if rounded > u64::MAX as int {
            u64::MAX as int
        } else {
            rounded
        }
    }
}

/// One grade as a debug-style list entry: the fewest fraction digits that
/// keep the exact value, at least one — `8.0`, `7.5`, `9.25`.
pub open spec fn grade_entry_view(h: nat) -> Seq<char> {
    if h % 10 == 0 {
        dec_view(h / 100) + seq!['.', digit_char(((h / 10) % 10) as int)]
    } else {
        hundredths_view(h)
    }
}

/// The grade list without its brackets: the grades in order, separated by
/// a comma and a space, each a debug-style entry.
pub open spec fn grades_inner_view(gs: Seq<u64>) -> Seq<char>
    decreases gs.len(),
{
    if gs.len() == 0 {
        Seq::empty()
    } else if gs.len() == 1 {
        grade_entry_view(gs[0] as nat)
    } else {
        grades_inner_view(gs.drop_last()) + seq![',', ' '] + grade_entry_view(gs.last() as nat)
    }
}

/// The grade list in brackets.
pub open spec fn grades_list_view(gs: Seq<u64>) -> Seq<char> {
    seq!['['] + grades_inner_view(gs) + seq![']']
}

/// The report block for the given fields: name, grade list, the three
/// statistics with two decimal places, and the verdict label.
pub open spec fn report_view_parts(
    name: Seq<char>,
    grades: Seq<u64>,
    average: Mean,
    highest: u64,
    lowest: u64,
    result: bool,
) -> Seq<char> {
    "Student: "@ + name + "\nGrades: "@ + grades_list_view(grades) + "\nAverage: "@
        + hundredths_view(display_hundredths(average) as nat) + "\nHighest: "@ + hundredths_view(
        highest as nat,
    ) + "\nLowest: "@ + hundredths_view(lowest as nat) + "\nResult: "@ + if result {
        "Passed"@
    } else {
        "Failed"@
    }
}

/// The report block of a student.
pub open spec fn report_view(s: Student) -> Seq<char> {
    report_view_parts(s.name@, s.grades@, s.average, s.highest_grade, s.lowest_grade, s.result)
}

/// The report blocks of a sequence of students, in order, each block
/// followed by a blank line.
pub open spec fn reports_view(students: Seq<Student>) -> Seq<char>
    decreases students.len(),
{
    if students.len() == 0 {
        Seq::empty()
    } else {
        reports_view(students.drop_last()) + report_view(students.last()) + seq!['\n', '\n']
    }
}

/// The one-character text of a single digit.
fn digit_str(d: u64) -> (r: &'static str)
    requires
        d < 10,
    ensures
        r@ == seq![digit_char(d as int)],
{
    let s: &'static str = match d {
        0 => "0",
        1 => "1",
        2 => "2",
        3 => "3",
        4 => "4",
        5 => "5",
        6 => "6",
        7 => "7",
        8 => "8",
        _ => "9",
    };
    proof {
        reveal_strlit("0");
        reveal_strlit("1");
        reveal_strlit("2");
        reveal_strlit("3");
        reveal_strlit("4");
        reveal_strlit("5");
        reveal_strlit("6");
        reveal_strlit("7");
        reveal_strlit("8");
        reveal_strlit("9");
        assert(s@ =~= seq![digit_char(d as int)]);
    }
    s
}

/// The decimal numeral of a number.
fn u64_to_string(n: u64) -> (r: String)
    ensures
        r@ == dec_view(n as nat),
    decreases n,
{
    if n < 10 {
        return digit_str(n).to_owned();
    }
    let mut s = u64_to_string(n / 10);
    s.append(digit_str(n % 10));
    s
}

/// A count of hundredths rendered with two decimal places.
fn hundredths_to_string(h: u64) -> (r: String)
    ensures
        r@ == hundredths_view(h as nat),
{
    let mut s = u64_to_string(h / 100);
    s.append(".");
    s.append(digit_str((h / 10) % 10));
    s.append(digit_str(h % 10));
    proof {
        reveal_strlit(".");
        assert(s@ =~= hundredths_view(h as nat));
    }
    s
}

/// One grade as a debug-style list entry: a second fraction digit only when
/// the value needs it.
fn grade_entry_to_string(h: u64) -> (r: String)
    ensures
        r@ == grade_entry_view(h as nat),
{
    if h % 10 != 0 {
        return hundredths_to_string(h);
    }
    let mut s = u64_to_string(h / 100);
    s.append(".");
    s.append(digit_str((h / 10) % 10));
    proof {
        reveal_strlit(".");
        assert(s@ =~= grade_entry_view(h as nat));
    }
    s
}

/// The mean rounded half-up to the nearest hundredth, clamped to what a
/// grade can hold.
fn display_mean(m: &Mean) -> (r: u64)
    ensures
        r as int == display_hundredths(*m),
{
    if m.count == 0 {
        return 0;
    }
    let count = m.count as u128;
    let q = m.total / count;
    let rem = m.total % count;
    if q >= u64::MAX as u128 {
        return u64::MAX;
    }
    let up: u64 = if 2 * rem >= count {
        1
    } else {
        0
    };
    (q as u64) + up
}

/// The grade list in brackets, each grade a debug-style entry.
fn grades_list(gs: &Vec<u64>) -> (r: String)
    ensures
        r@ == grades_list_view(gs@),
{
    let ghost g = gs@;
    let mut out = String::new();
    out.append("[");
    proof {
        reveal_strlit("[");
        assert(out@ =~= seq!['['] + grades_inner_view(g.take(0)));
    }
    let mut i: usize = 0;
    while i < gs.len()
        invariant
            g == gs@,
            i <= g.len(),
            out@ == seq!['['] + grades_inner_view(g.take(i as int)),
        decreases g.len() - i,
    {
        if i > 0 {
            out.append(", ");
        }
        let piece = grade_entry_to_string(gs[i]);
        out.append(piece.as_str());
        proof {
            reveal_strlit(", ");
            let t = g.take(i as int + 1);
            assert(t.drop_last() =~= g.take(i as int));
            assert(t.last() == g[i as int]);
            assert(out@ =~= seq!['['] + grades_inner_view(t));
        }
        i += 1;
    }
    out.append("]");
    proof {
        reveal_strlit("]");
        assert(g.take(g.len() as int) =~= g);
        assert(out@ =~= grades_list_view(g));
    }
    out
}

impl Student {
    /// The report block for this student: the name, the grade list, average,
    /// highest and lowest with two decimal places, and the verdict label.
    pub fn report(&self) -> (r: String)
        ensures
            r@ == report_view(*self),
    {
        let mut out = String::new();
        out.append("Student: ");
        out.append(self.name.as_str());
        out.append("\nGrades: ");
        let list = grades_list(&self.grades);
        out.append(list.as_str());
        out.append("\nAverage: ");
        let avg = hundredths_to_string(display_mean(&self.average));
        out.append(avg.as_str());
        out.append("\nHighest: ");
        let hi = hundredths_to_string(self.highest_grade);
        out.append(hi.as_str());
        out.append("\nLowest: ");
        let lo = hundredths_to_string(self.lowest_grade);
        out.append(lo.as_str());
        out.append("\nResult: ");
        if self.result {
            out.append("Passed");
        } else {
            out.append("Failed");
        }
        proof {
            assert(out@ =~= report_view(*self));
        }
        out
    }
}

/// The report blocks of all students, in order, each block followed by a
/// blank line.
pub fn render_report(students: &Vec<Student>) -> (r: String)
    ensures
        r@ == reports_view(students@),
{
    let ghost ss = students@;
    let mut out = String::new();
    let mut i: usize = 0;
    proof {
        assert(out@ =~= reports_view(ss.take(0)));
    }
    while i < students.len()
        invariant
            ss == students@,
            i <= ss.len(),
            out@ == reports_view(ss.take(i as int)),
        decreases ss.len() - i,
    {
        let block = students[i].report();
        out.append(block.as_str());
        out.append("\n\n");
        proof {
            reveal_strlit("\n\n");
            let t = ss.take(i as int + 1);
            assert(t.drop_last() =~= ss.take(i as int));
            assert(t.last() == ss[i as int]);
            assert(out@ =~= reports_view(t));
        }
        i += 1;
    }
    proof {
        assert(ss.take(ss.len() as int) =~= ss);
    }
    out
}

} // verus!
