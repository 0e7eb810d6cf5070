//! The student entity and its derived statistics.
//!
//! A grade is a whole number of hundredths of a grade unit, so a score of
//! `7.5` is held as `750`. The mean of the grades is kept exact, as the pair
//! of the grade total and the grade count, and every comparison against it
//! is an integer comparison.

use vstd::prelude::*;
use vstd::arithmetic::mul::lemma_mul_inequality;

verus! {

/// The pass threshold, in hundredths of a grade unit: five full units.
pub const PASS_HUNDREDTHS: u64 = 500;

/// The sum of a sequence of grades.
pub open spec fn sum_of(g: Seq<u64>) -> int
    decreases g.len(),
{
    if g.len() == 0 {
        0
    } else {
        sum_of(g.drop_last()) + g.last()
    }
}

/// The largest grade of a sequence; zero when the sequence is empty.
pub open spec fn highest_of(g: Seq<u64>) -> u64
    decreases g.len(),
{
    if g.len() == 0 {
        0u64
    } else if g.len() == 1 {
        g[0]
    } else if g.last() > highest_of(g.drop_last()) {
        g.last()
    } else {
        highest_of(g.drop_last())
    }
}

/// The smallest grade of a sequence; zero when the sequence is empty.
pub open spec fn lowest_of(g: Seq<u64>) -> u64
    decreases g.len(),
{
    if g.len() == 0 {
        0u64
    } else if g.len() == 1 {
        g[0]
    } else if g.last() < lowest_of(g.drop_last()) {
        g.last()
    } else {
        lowest_of(g.drop_last())
    }
}

/// The exact arithmetic mean of a list of grades: the total of the grades in
/// hundredths over the number of grades. The represented value is the
/// rational `total / count`; keeping the pair avoids any rounding until a
/// value is rendered.
#[derive(Clone, Copy, Debug, PartialEq, Eq, Structural)]
#[verifier::ext_equal]
pub struct Mean {
    /// Sum of the grades, in hundredths of a grade unit.
    pub total: u128,
    /// Number of grades summed; at least one, so the value is well defined.
    pub count: usize,
}

/// The mean of an empty grade list: exactly zero.
pub open spec fn zero_mean() -> Mean {
    Mean { total: 0, count: 1 }
}

/// The mean `m` is at least `h` hundredths: `m.total / m.count >= h`,
/// cleared of the division.
pub open spec fn mean_ge_hundredths(m: Mean, h: int) -> bool {
    m.total as int >= h * m.count as int
}

/// The mean `m` is at most `h` hundredths: `m.total / m.count <= h`,
/// cleared of the division.
pub open spec fn mean_le_hundredths(m: Mean, h: int) -> bool {
    m.total as int <= h * m.count as int
}

/// The mean of a grade sequence; exactly zero for an empty sequence.
pub open spec fn mean_of(g: Seq<u64>) -> Mean {
    if g.len() == 0 {
        zero_mean()
    } else {
        Mean { total: sum_of(g) as u128, count: g.len() as usize }
    }
}

impl Mean {
    /// Whether this mean is at least `h` hundredths of a grade unit.
    pub fn ge_hundredths(&self, h: u64) -> (r: bool)
        ensures
            r == mean_ge_hundredths(*self, h as int),
    {
        proof {
            lemma_mul_inequality(h as int, u64::MAX as int, self.count as int);
            lemma_mul_inequality(self.count as int, u64::MAX as int, u64::MAX as int);
        }
        self.total >= (h as u128) * (self.count as u128)
    }
}

/// One student record: the name, the grades in hundredths of a grade unit,
/// and the statistics derived from the grades.
#[verifier::ext_equal]
pub struct Student {
    /// The name, taken verbatim from the first field of the source row.
    pub name: String,
    /// The grades, in source order, in hundredths of a grade unit.
    pub grades: Vec<u64>,
    /// The exact mean of the grades; zero while not yet calculated.
    pub average: Mean,
    /// The largest grade; zero while not yet calculated.
    pub highest_grade: u64,
    /// The smallest grade; zero while not yet calculated.
    pub lowest_grade: u64,
    /// Whether the mean reaches the pass threshold; false while not yet
    /// calculated.
    pub result: bool,
}

/// Whether these grades earn a pass: the exact mean reaches the pass
/// threshold, the boundary included. An empty list never passes.
pub open spec fn passes(g: Seq<u64>) -> bool {
    g.len() > 0 && sum_of(g) >= (PASS_HUNDREDTHS as int) * (g.len() as int)
}

/// The mean `m` is exactly the mean of the grades `g`: the grade total over
/// the grade count, or the zero mean when there are no grades.
pub open spec fn mean_represents(m: Mean, g: Seq<u64>) -> bool {
    if g.len() == 0 {
        m == zero_mean()
    } else {
        m.total as int == sum_of(g) && m.count as int == g.len() as int
    }
}

/// The derived fields a student with these grades must carry once
/// calculated: the exact mean, the extremes, and the pass verdict.
pub open spec fn derived_ok(s: Student) -> bool {
    &&& mean_represents(s.average, s.grades@)
    &&& s.highest_grade == highest_of(s.grades@)
    &&& s.lowest_grade == lowest_of(s.grades@)
    &&& s.result == passes(s.grades@)
}

/// The student as the calculation step leaves it: with an empty grade list
/// the fields are left untouched, otherwise all four derived fields are
/// recomputed from the grades.
pub open spec fn calculated(s: Student) -> Student {
    if s.grades@.len() == 0 {
        s
    } else {
        Student {
            average: mean_of(s.grades@),
            highest_grade: highest_of(s.grades@),
            lowest_grade: lowest_of(s.grades@),
            result: mean_ge_hundredths(mean_of(s.grades@), PASS_HUNDREDTHS as int),
            ..s
        }
    }
}

impl Student {
    /// A new student with the given name and grades and zeroed statistics.
    pub fn new(student_name: String, student_grades: Vec<u64>) -> (s: Student)
        ensures
            s.name == student_name,
            s.grades == student_grades,
            s.average == zero_mean(),
            s.highest_grade == 0,
            s.lowest_grade == 0,
            s.result == false,
    {
        Student {
            name: student_name,
            grades: student_grades,
            average: Mean { total: 0, count: 1 },
            highest_grade: 0,
            lowest_grade: 0,
            result: false,
        }
    }

    /// Populates the four derived fields from the grades; with an empty
    /// grade list the fields are left as they are.
    pub fn calculate_grades(&mut self)
        ensures
            *final(self) == calculated(*old(self)),
            old(self).grades@.len() > 0 ==> derived_ok(*final(self)),
    {
        if self.grades.len() == 0 {
            return;
        }
        self.average = self.calculate_average();
        self.highest_grade = self.calculate_highest_grade();
        self.lowest_grade = self.calculate_lowest_grade();
        self.result = self.passed();
        proof {
            assert(*self =~= calculated(*old(self)));
            lemma_sum_within_word_bound(self.grades@);
        }
    }

    /// The exact mean of the grades, as a total over a count.
    pub fn calculate_average(&self) -> (m: Mean)
        ensures
            m == mean_of(self.grades@),
    {
        let n = self.grades.len();
        if n == 0 {
            return Mean { total: 0, count: 1 };
        }
        let mut total: u128 = 0;
        let mut i: usize = 0;
        while i < n
            invariant
                n == self.grades@.len(),
                i <= n,
                total == sum_of(self.grades@.take(i as int)),
            decreases n - i,
        {
            proof {
                let next = self.grades@.take(i as int + 1);
                assert(next.drop_last() =~= self.grades@.take(i as int));
                lemma_sum_within_word_bound(next);
                lemma_mul_inequality(next.len() as int, u64::MAX as int, u64::MAX as int);
            }
            total = total + (self.grades[i] as u128);
            i += 1;
        }
        proof {
            assert(self.grades@.take(n as int) =~= self.grades@);
        }
        Mean { total, count: n }
    }

    /// The largest grade, found by a linear scan; zero for an empty list.
    pub fn calculate_highest_grade(&self) -> (r: u64)
        ensures
            r == highest_of(self.grades@),
    {
        if self.grades.len() == 0 {
            return 0;
        }
        let mut max_grade: u64 = self.grades[0];
        let mut i: usize = 1;
        while i < self.grades.len()
            invariant
                1 <= i <= self.grades@.len(),
                max_grade == highest_of(self.grades@.take(i as int)),
            decreases self.grades@.len() - i,
        {
            proof {
                assert(self.grades@.take(i as int + 1).drop_last() =~= self.grades@.take(i as int));
            }
            if self.grades[i] > max_grade {
                max_grade = self.grades[i];
            }
            i += 1;
        }
        proof {
            assert(self.grades@.take(self.grades@.len() as int) =~= self.grades@);
        }
        max_grade
    }

    /// The smallest grade, found by a linear scan; zero for an empty list.
    pub fn calculate_lowest_grade(&self) -> (r: u64)
        ensures
            r == lowest_of(self.grades@),
    {
        if self.grades.len() == 0 {
            return 0;
        }
        let mut min_grade: u64 = self.grades[0];
        let mut i: usize = 1;
        while i < self.grades.len()
            invariant
                1 <= i <= self.grades@.len(),
                min_grade == lowest_of(self.grades@.take(i as int)),
            decreases self.grades@.len() - i,
        {
            proof {
                assert(self.grades@.take(i as int + 1).drop_last() =~= self.grades@.take(i as int));
            }
            if self.grades[i] < min_grade {
                min_grade = self.grades[i];
            }
            i += 1;
        }
        proof {
            assert(self.grades@.take(self.grades@.len() as int) =~= self.grades@);
        }
        min_grade
    }

    /// Whether the stored mean reaches the pass threshold of five units.
    pub fn passed(&self) -> (r: bool)
        ensures
            r == mean_ge_hundredths(self.average, PASS_HUNDREDTHS as int),
    {
        self.average.ge_hundredths(PASS_HUNDREDTHS)
    }
}

/// The sum of a grade sequence is nonnegative and at most the length times
/// the largest value a single grade can take.
pub proof fn lemma_sum_within_word_bound(g: Seq<u64>)
    ensures
        0 <= sum_of(g) <= g.len() * (u64::MAX as int),
    decreases g.len(),
{
    if g.len() > 0 {
        lemma_sum_within_word_bound(g.drop_last());
    }
}

/// The sum of a nonempty grade sequence lies between the length times its
/// smallest element and the length times its largest element.
pub proof fn lemma_sum_within_extremes(g: Seq<u64>)
    requires
        g.len() > 0,
    ensures
        (g.len() as int) * (lowest_of(g) as int) <= sum_of(g),
        sum_of(g) <= (g.len() as int) * (highest_of(g) as int),
    decreases g.len(),
{
    if g.len() == 1 {
        assert(sum_of(g) == sum_of(g.drop_last()) + g.last());
        assert(sum_of(g.drop_last()) == 0);
        assert(lowest_of(g) == g[0] && highest_of(g) == g[0] && g.last() == g[0]);
        assert((1int) * (g[0] as int) == g[0] as int);
    } else {
        let h = g.drop_last();
        lemma_sum_within_extremes(h);
        let n = h.len() as int;
        let lo_h = lowest_of(h) as int;
        let hi_h = highest_of(h) as int;
        let lo = lowest_of(g) as int;
        let hi = highest_of(g) as int;
        let last = g.last() as int;
        assert(sum_of(g) == sum_of(h) + last);
        assert(lo <= lo_h && lo <= last && hi_h <= hi && last <= hi);
        assert((n + 1) * lo <= sum_of(h) + last) by (nonlinear_arith)
            requires
                n * lo_h <= sum_of(h),
                lo <= lo_h,
                lo <= last,
                n >= 1,
        ;
        assert(sum_of(h) + last <= (n + 1) * hi) by (nonlinear_arith)
            requires
                sum_of(h) <= n * hi_h,
                hi_h <= hi,
                last <= hi,
                n >= 1,
        ;
        assert(g.len() as int == n + 1);
    }
}

/// Law: a student whose grade list is empty carries zero statistics — a zero
/// mean, zero extremes — and has not passed.
pub proof fn lemma_empty_grades_zero(s: Student)
    requires
        derived_ok(s),
        s.grades@.len() == 0,
    ensures
        s.average == zero_mean(),
        s.highest_grade == 0,
        s.lowest_grade == 0,
        s.result == false,
{
}

/// Law: the mean of a student with at least one grade lies between the
/// lowest and the highest grade.
pub proof fn lemma_mean_within_bounds(s: Student)
    requires
        derived_ok(s),
        s.grades@.len() > 0,
    ensures
        mean_ge_hundredths(s.average, s.lowest_grade as int),
        mean_le_hundredths(s.average, s.highest_grade as int),
{
    lemma_sum_within_extremes(s.grades@);
    vstd::arithmetic::mul::lemma_mul_is_commutative(
        s.grades@.len() as int,
        s.lowest_grade as int,
    );
    vstd::arithmetic::mul::lemma_mul_is_commutative(
        s.grades@.len() as int,
        s.highest_grade as int,
    );
}

/// Law: the pass verdict holds exactly when the mean reaches five grade
/// units, the boundary included.
pub proof fn lemma_pass_boundary(s: Student)
    requires
        derived_ok(s),
    ensures
        s.result == mean_ge_hundredths(s.average, PASS_HUNDREDTHS as int),
{
}

/// Law: the calculation step is idempotent — deriving the fields a second
/// time from the same grades changes nothing.
pub proof fn lemma_calculate_idempotent(s: Student)
    ensures
        calculated(calculated(s)) == calculated(s),
{
    if s.grades@.len() > 0 {
        assert(calculated(calculated(s)) =~= calculated(s));
    }
}

} // verus!
