//! Parsing one grade field into hundredths of a grade unit.
//!
//! A grade value is decimal text: one or more digits, optionally followed by
//! a dot and one or two fraction digits, the whole value fitting in a `u64`
//! count of hundredths. Any field that is not of this shape — or whose value
//! does not fit — yields zero, the recovery policy for malformed grades: a
//! bad field is never an error, it is an earned score of nothing.

use vstd::prelude::*;

verus! {

/// Whether the character is a decimal digit.
pub open spec fn is_grade_digit(c: char) -> bool {
    48 <= c as int <= 57
}

/// The numeric value of a digit character.
pub open spec fn digit_val(c: char) -> int {
    c as int - 48
}

/// Whether every character of the sequence is a decimal digit.
pub open spec fn all_digits(s: Seq<char>) -> bool {
    forall|i: int| 0 <= i < s.len() ==> is_grade_digit(#[trigger] s[i])
}

/// The position of the first dot in the text, or its length if it has none.
pub open spec fn dot_pos(f: Seq<char>) -> int
    decreases f.len(),
{
    if f.len() == 0 {
        0
    } else if f[0] == '.' {
        0
    } else {
        1 + dot_pos(f.skip(1))
    }
}

/// The value of a digit sequence read as a decimal numeral.
pub open spec fn digits_value(s: Seq<char>) -> int
    decreases s.len(),
{
    if s.len() == 0 {
        0
    } else {
        10 * digits_value(s.drop_last()) + digit_val(s.last())
    }
}

/// The hundredths contributed by the fraction digits: one digit counts in
/// tenths, two count in hundredths.
pub open spec fn frac_hundredths(fr: Seq<char>) -> int {
    if fr.len() == 1 {
        10 * digit_val(fr[0])
    } else if fr.len() == 2 {
        10 * digit_val(fr[0]) + digit_val(fr[1])
    } else {
        0
    }
}

/// Whether the text is a well-formed grade value: a nonempty run of digits,
/// optionally followed by a dot and one or two fraction digits.
pub open spec fn valid_grade_text(f: Seq<char>) -> bool {
    let d = dot_pos(f);
    &&& 1 <= d
    &&& all_digits(f.take(d))
    &&& (d == f.len() || (d + 2 <= f.len() && f.len() <= d + 3 && all_digits(f.skip(d + 1))))
}

/// The value of a well-formed grade text, in hundredths of a grade unit.
pub open spec fn grade_hundredths(f: Seq<char>) -> int {
    let d = dot_pos(f);
    100 * digits_value(f.take(d)) + if d < f.len() {
        frac_hundredths(f.skip(d + 1))
    } else {
        0
    }
}

/// What one source field contributes as a grade: its value when it is a
/// well-formed grade text whose value fits, and zero otherwise.
pub open spec fn grade_of_field(f: Seq<char>) -> u64 {
    if valid_grade_text(f) && grade_hundredths(f) <= u64::MAX as int {
        grade_hundredths(f) as u64
    } else {
        0
    }
}

/// Any position with the first-dot properties — nothing before it is a dot,
/// the character there, if any, is one — is the first-dot position.
proof fn lemma_dot_pos_unique(f: Seq<char>, d: int)
    requires
        0 <= d <= f.len(),
        forall|j: int| 0 <= j < d ==> f[j] != '.',
        d < f.len() ==> f[d] == '.',
    ensures
        dot_pos(f) == d,
    decreases f.len(),
{
    if f.len() > 0 && f[0] != '.' {
        assert(d >= 1);
        lemma_dot_pos_unique(f.skip(1), d - 1);
        assert(forall|j: int| 0 <= j < d - 1 ==> f.skip(1)[j] == f[j + 1]);
    }
}

/// A sequence of digits has a nonnegative decimal value.
proof fn lemma_digits_value_nonneg(s: Seq<char>)
    requires
        all_digits(s),
    ensures
        0 <= digits_value(s),
    decreases s.len(),
{
    if s.len() > 0 {
        assert(forall|i: int| 0 <= i < s.len() - 1 ==> s.drop_last()[i] == s[i]);
        lemma_digits_value_nonneg(s.drop_last());
    }
}

/// Dropping trailing digits never increases the decimal value.
proof fn lemma_digits_value_prefix(s: Seq<char>, i: int)
    requires
        all_digits(s),
        0 <= i <= s.len(),
    ensures
        digits_value(s.take(i)) <= digits_value(s),
    decreases s.len() - i,
{
    if i == s.len() {
        assert(s.take(i) =~= s);
    } else {
        assert(forall|j: int| 0 <= j < i + 1 ==> s.take(i + 1)[j] == s[j]);
        assert(s.take(i + 1).drop_last() =~= s.take(i));
        lemma_digits_value_nonneg(s.take(i));
        assert(digits_value(s.take(i)) <= digits_value(s.take(i + 1)));
        lemma_digits_value_prefix(s, i + 1);
    }
}

/// Parses one field as a grade, in hundredths of a grade unit.
///
/// A field that is not a well-formed grade value, or whose value does not
/// fit, yields zero rather than an error.
pub fn parse_grade(field: &str) -> (g: u64)
    ensures
        g == grade_of_field(field@),
{
    let ghost f = field@;
    let n = field.unicode_len();

    // Locate the first dot, if there is one.
    let mut d: usize = n;
    let mut i: usize = 0;
    while i < n
        invariant
            n == f.len(),
            f == field@,
            i <= n,
            d <= n,
            d == n ==> forall|j: int| 0 <= j < i ==> f[j] != '.',
            d < n ==> d < i && f[d as int] == '.' && (forall|j: int| 0 <= j < d ==> f[j] != '.'),
        decreases n - i,
    {
        if d == n && field.get_char(i) == '.' {
            d = i;
        }
        i += 1;
    }
    proof {
        lemma_dot_pos_unique(f, d as int);
    }
    if d == 0 {
        // Empty text, or a dot with no integer part before it.
        return 0;
    }

    // Read the integer part, bailing out once its value alone cannot fit.
    let mut ip: u64 = 0;
    let mut k: usize = 0;
    while k < d
        invariant
            n == f.len(),
            f == field@,
            1 <= d <= n,
            dot_pos(f) == d as int,
            k <= d,
            all_digits(f.take(k as int)),
            ip as int == digits_value(f.take(k as int)),
        decreases d - k,
    {
        let c = field.get_char(k);
        let v = c as u32;
        if v < 48 || v > 57 {
            // A non-digit inside the integer part: the text is malformed.
            proof {
                assert(!is_grade_digit(f.take(d as int)[k as int]));
            }
            return 0;
        }
        let digit = (v - 48) as u64;
        proof {
            assert(forall|j: int| 0 <= j < k + 1 ==> f.take(k as int + 1)[j] == f[j]);
            assert(f.take(k as int + 1).drop_last() =~= f.take(k as int));
        }
        if ip > (u64::MAX - digit) / 10 {
            // Even the integer part overflows a u64 count of hundredths.
            proof {
                assert(digits_value(f.take(k as int + 1)) > u64::MAX as int);
                if valid_grade_text(f) {
                    assert(f.take(d as int).take(k as int + 1) =~= f.take(k as int + 1));
                    lemma_digits_value_prefix(f.take(d as int), k as int + 1);
                    if d < n {
                        lemma_frac_hundredths_nonneg(f.skip(d as int + 1));
                    }
                }
            }
            return 0;
        }
        ip = ip * 10 + digit;
        k += 1;
    }

    // Read the fraction part: one or two digits after the dot, or nothing.
    let mut frac: u64 = 0;
    if d < n {
        let flen = n - d - 1;
        if flen == 0 || flen > 2 {
            // A trailing dot, or more fraction digits than hundredths hold.
            return 0;
        }
        let c0 = field.get_char(d + 1);
        let v0 = c0 as u32;
        if v0 < 48 || v0 > 57 {
            proof {
                assert(f.skip(d as int + 1)[0] == f[d as int + 1]);
            }
            return 0;
        }
        frac = ((v0 - 48) as u64) * 10;
        if flen == 2 {
            let c1 = field.get_char(d + 2);
            let v1 = c1 as u32;
            if v1 < 48 || v1 > 57 {
                proof {
                    assert(f.skip(d as int + 1)[1] == f[d as int + 2]);
                }
                return 0;
            }
            frac = frac + (v1 - 48) as u64;
        }
        proof {
            let fr = f.skip(d as int + 1);
            assert(fr.len() == flen as int);
            assert(fr[0] == f[d as int + 1]);
            if flen == 2 {
                assert(fr[1] == f[d as int + 2]);
            }
            assert(all_digits(fr)) by {
                assert(forall|j: int| 0 <= j < fr.len() ==> #[trigger] fr[j] == f[d as int + 1 + j]);
            }
            assert(frac as int == frac_hundredths(fr));
        }
    }

    proof {
        assert(f.take(d as int) =~= f.take(dot_pos(f)));
        assert(valid_grade_text(f));
    }

    // Combine, unless a hundredfold integer part leaves no room.
    if ip > (u64::MAX - frac) / 100 {
        return 0;
    }
    let g = ip * 100 + frac;
    proof {
        assert(g as int == grade_hundredths(f));
    }
    g
}

/// The fraction digits of a well-formed grade contribute nonnegatively.
proof fn lemma_frac_hundredths_nonneg(fr: Seq<char>)
    requires
        all_digits(fr),
    ensures
        0 <= frac_hundredths(fr),
{
}

} // verus!
