//! Character classes, greedy character runs, and the numeric value of
//! a digit sequence — the shared bottom layer of both grammars.

use vstd::prelude::*;

verus! {

/// An ASCII decimal digit.
pub open spec fn is_digit(c: char) -> bool {
    '0' <= c && c <= '9'
}

/// A wildcard version component: `x`, `X` or `*`.
pub open spec fn is_wildcard_char(c: char) -> bool {
    c == 'x' || c == 'X' || c == '*'
}

/// A character of a pre-release or build identifier.
pub open spec fn is_ident_char(c: char) -> bool {
    is_digit(c) || ('a' <= c && c <= 'z') || ('A' <= c && c <= 'Z') || c == '-'
}

/// Conjunction whitespace: a plain space.
pub open spec fn is_space(c: char) -> bool {
    c == ' '
}

/// End of the longest run of digits starting at `i`.
pub open spec fn digit_run_end(s: Seq<char>, i: int) -> int
    decreases s.len() - i when 0 <= i <= s.len()
{
    if i < s.len() && is_digit(s[i]) {
        digit_run_end(s, i + 1)
    } else {
        i
    }
}

/// End of the longest run of identifier characters starting at `i`.
pub open spec fn ident_run_end(s: Seq<char>, i: int) -> int
    decreases s.len() - i when 0 <= i <= s.len()
{
    if i < s.len() && is_ident_char(s[i]) {
        ident_run_end(s, i + 1)
    } else {
        i
    }
}

/// End of the longest run of spaces starting at `i`.
pub open spec fn space_run_end(s: Seq<char>, i: int) -> int
    decreases s.len() - i when 0 <= i <= s.len()
{
    if i < s.len() && is_space(s[i]) {
        space_run_end(s, i + 1)
    } else {
        i
    }
}

/// A run never moves backwards and never leaves the sequence.
pub proof fn lemma_digit_run_bounds(s: Seq<char>, i: int)
    requires
        0 <= i <= s.len(),
    ensures
        i <= digit_run_end(s, i) <= s.len(),
    decreases s.len() - i,
{
    if i < s.len() && is_digit(s[i]) {
        lemma_digit_run_bounds(s, i + 1);
    }
}

/// A run never moves backwards and never leaves the sequence.
pub proof fn lemma_ident_run_bounds(s: Seq<char>, i: int)
    requires
        0 <= i <= s.len(),
    ensures
        i <= ident_run_end(s, i) <= s.len(),
    decreases s.len() - i,
{
    if i < s.len() && is_ident_char(s[i]) {
        lemma_ident_run_bounds(s, i + 1);
    }
}

/// A run never moves backwards and never leaves the sequence.
pub proof fn lemma_space_run_bounds(s: Seq<char>, i: int)
    requires
        0 <= i <= s.len(),
    ensures
        i <= space_run_end(s, i) <= s.len(),
    decreases s.len() - i,
{
    if i < s.len() && is_space(s[i]) {
        lemma_space_run_bounds(s, i + 1);
    }
}

/// Every character inside a digit run is a digit.
pub proof fn lemma_digit_run_chars(s: Seq<char>, i: int)
    requires
        0 <= i <= s.len(),
    ensures
        forall|k: int| i <= k < digit_run_end(s, i) ==> is_digit(#[trigger] s[k]),
    decreases s.len() - i,
{
    if i < s.len() && is_digit(s[i]) {
        lemma_digit_run_chars(s, i + 1);
        lemma_digit_run_bounds(s, i + 1);
    }
}

/// The numeric value of a digit character.
pub open spec fn digit_val(c: char) -> nat {
    (c as nat - '0' as nat) as nat
}

/// The decimal value of a digit sequence; non-digit characters are not
/// meaningful here (callers require all-digit input).
pub open spec fn digits_val(s: Seq<char>) -> nat
    decreases s.len(),
{
    if s.len() == 0 {
        0
    } else {
        digits_val(s.drop_last()) * 10 + digit_val(s.last())
    }
}

/// Every character of `s` is a digit.
pub open spec fn all_digits(s: Seq<char>) -> bool {
    forall|k: int| 0 <= k < s.len() ==> is_digit(#[trigger] s[k])
}

/// Appending a digit multiplies the value by ten and adds the digit.
pub proof fn lemma_digits_val_push(s: Seq<char>, c: char)
    ensures
        digits_val(s.push(c)) == digits_val(s) * 10 + digit_val(c),
{
    assert(s.push(c).drop_last() =~= s);
    assert(s.push(c).last() == c);
}

/// A digit prefix never has a larger value than the whole sequence.
pub proof fn lemma_digits_val_prefix_le(s: Seq<char>, j: int)
    requires
        0 <= j <= s.len(),
    ensures
        digits_val(s.take(j)) <= digits_val(s),
    decreases s.len() - j,
{
    if j < s.len() {
        lemma_digits_val_prefix_le(s, j + 1);
        assert(s.take(j + 1).drop_last() =~= s.take(j));
        assert(digits_val(s.take(j + 1)) == digits_val(s.take(j)) * 10 + digit_val(
            s.take(j + 1).last(),
        ));
        assert(digits_val(s.take(j)) <= digits_val(s.take(j)) * 10) by (nonlinear_arith);
    } else {
        assert(s.take(j) =~= s);
    }
}

/// A numeric component: the single digit `0`, or a nonzero digit
/// followed by any further digits (no leading zeros). Returns the end
/// of the match.
pub open spec fn nr_end(s: Seq<char>, i: int) -> Option<int> {
    if 0 <= i < s.len() && is_digit(s[i]) {
        if s[i] == '0' {
            Option::Some(i + 1)
        } else {
            Option::Some(digit_run_end(s, i))
        }
    } else {
        Option::None
    }
}

/// A matched numeric component consumes at least one character and
/// stays inside the sequence.
pub proof fn lemma_nr_bounds(s: Seq<char>, i: int)
    requires
        0 <= i <= s.len(),
        nr_end(s, i) is Some,
    ensures
        i < nr_end(s, i)->0 <= s.len(),
{
    if s[i] != '0' {
        lemma_digit_run_bounds(s, i + 1);
    }
}

/// One or more dot-separated identifier runs (a pre-release or build
/// qualifier body). Returns the end of the greedy match.
pub open spec fn parts_end(s: Seq<char>, i: int) -> Option<int>
    decreases s.len() - i when 0 <= i <= s.len()
{
    if i < s.len() && is_ident_char(s[i]) {
        let j = ident_run_end(s, i);
        if i < j && j < s.len() && s[j] == '.' && parts_end(s, j + 1) is Some {
            parts_end(s, j + 1)
        } else {
            Option::Some(j)
        }
    } else {
        Option::None
    }
}

/// A matched qualifier body consumes at least one character and stays
/// inside the sequence.
pub proof fn lemma_parts_bounds(s: Seq<char>, i: int)
    requires
        0 <= i <= s.len(),
        parts_end(s, i) is Some,
    ensures
        i < parts_end(s, i)->0 <= s.len(),
    decreases s.len() - i,
{
    lemma_ident_run_bounds(s, i + 1);
    let j = ident_run_end(s, i);
    if i < j && j < s.len() && s[j] == '.' && parts_end(s, j + 1) is Some {
        lemma_parts_bounds(s, j + 1);
    }
}

/// Exec scan: a numeric component starting at `i`.
pub fn scan_nr(s: &str, i: usize) -> (r: Option<usize>)
    requires
        i <= s@.len(),
    ensures
        (r is Some) <==> (nr_end(s@, i as int) is Some),
        r is Some ==> r->0 == nr_end(s@, i as int)->0 && i < r->0 <= s@.len(),
{
    let n = s.unicode_len();
    if i < n {
        let c = s.get_char(i);
        if '0' <= c && c <= '9' {
            proof {
                lemma_nr_bounds(s@, i as int);
            }
            if c == '0' {
                Option::Some(i + 1)
            } else {
                let j = scan_digit_run(s, i);
                Option::Some(j)
            }
        } else {
            Option::None
        }
    } else {
        Option::None
    }
}

/// Exec scan: a dot-separated qualifier body starting at `i`.
pub fn scan_parts(s: &str, i: usize) -> (r: Option<usize>)
    requires
        i <= s@.len(),
    ensures
        (r is Some) <==> (parts_end(s@, i as int) is Some),
        r is Some ==> r->0 == parts_end(s@, i as int)->0 && i < r->0 <= s@.len(),
    decreases s@.len() - i,
{
    let n = s.unicode_len();
    if i >= n {
        return Option::None;
    }
    let c = s.get_char(i);
    if !(('0' <= c && c <= '9') || ('a' <= c && c <= 'z') || ('A' <= c && c <= 'Z') || c == '-') {
        return Option::None;
    }
    let j = scan_ident_run(s, i);
    proof {
        lemma_ident_run_bounds(s@, i as int + 1);
    }
    if j < n {
        let d = s.get_char(j);
        if d == '.' {
            match scan_parts(s, j + 1) {
                Option::Some(e) => {
                    return Option::Some(e);
                },
                Option::None => {
                    return Option::Some(j);
                },
            }
        }
    }
    Option::Some(j)
}

/// Exec scan: the end of the digit run starting at `i`.
pub fn scan_digit_run(s: &str, i: usize) -> (j: usize)
    requires
        i <= s@.len(),
    ensures
        j == digit_run_end(s@, i as int),
        i <= j <= s@.len(),
{
    let n = s.unicode_len();
    let mut j = i;
    loop
        invariant_except_break
            i <= j <= n,
            n == s@.len(),
            digit_run_end(s@, i as int) == digit_run_end(s@, j as int),
        ensures
            i <= j <= n,
            n == s@.len(),
            j == digit_run_end(s@, i as int),
        decreases n - j,
    {
        if j >= n {
            break;
        }
        let c = s.get_char(j);
        if !('0' <= c && c <= '9') {
            break;
        }
        j += 1;
    }
    j
}

/// Exec scan: the end of the identifier-character run starting at `i`.
pub fn scan_ident_run(s: &str, i: usize) -> (j: usize)
    requires
        i <= s@.len(),
    ensures
        j == ident_run_end(s@, i as int),
        i <= j <= s@.len(),
{
    let n = s.unicode_len();
    let mut j = i;
    loop
        invariant_except_break
            i <= j <= n,
            n == s@.len(),
            ident_run_end(s@, i as int) == ident_run_end(s@, j as int),
        ensures
            i <= j <= n,
            n == s@.len(),
            j == ident_run_end(s@, i as int),
        decreases n - j,
    {
        if j >= n {
            break;
        }
        let c = s.get_char(j);
        if !(('0' <= c && c <= '9') || ('a' <= c && c <= 'z') || ('A' <= c && c <= 'Z') || c
            == '-') {
            break;
        }
        j += 1;
    }
    j
}

/// Exec scan: the end of the space run starting at `i`.
pub fn scan_space_run(s: &str, i: usize) -> (j: usize)
    requires
        i <= s@.len(),
    ensures
        j == space_run_end(s@, i as int),
        i <= j <= s@.len(),
{
    let n = s.unicode_len();
    let mut j = i;
    loop
        invariant_except_break
            i <= j <= n,
            n == s@.len(),
            space_run_end(s@, i as int) == space_run_end(s@, j as int),
        ensures
            i <= j <= n,
            n == s@.len(),
            j == space_run_end(s@, i as int),
        decreases n - j,
    {
        if j >= n {
            break;
        }
        if s.get_char(j) != ' ' {
            break;
        }
        j += 1;
    }
    j
}

} // verus!
