//! Small text utilities: decimal numbers and string comparison.

use vstd::prelude::*;

verus! {

/// Whether a character is a decimal digit.
pub open spec fn is_digit(c: char) -> bool {
    '0' <= c && c <= '9'
}

/// Numeric value of a decimal digit character.
pub open spec fn digit_val(c: char) -> int {
    c as int - '0' as int
}

/// Whether every character of `s` is a decimal digit.
pub open spec fn all_digits(s: Seq<char>) -> bool {
    forall|i: int| 0 <= i < s.len() ==> is_digit(#[trigger] s[i])
}

/// The numeric value of a digit string, most significant digit first.
pub open spec fn dec_value(s: Seq<char>) -> int
    decreases s.len(),
{
    if s.len() == 0 {
        0
    } else {
        dec_value(s.drop_last()) * 10 + digit_val(s.last())
    }
}

/// What parsing a string as an unsigned machine integer yields: the numeric
/// value when the string is a non-empty digit string whose value fits in
/// `usize`, nothing otherwise.
pub open spec fn spec_parse_usize(s: Seq<char>) -> Option<usize> {
    if s.len() >= 1 && all_digits(s) && dec_value(s) <= usize::MAX {
        Some(dec_value(s) as usize)
    } else {
        None
    }
}

/// A digit string has a non-negative value.
pub proof fn lemma_dec_value_nonneg(s: Seq<char>)
    requires
        all_digits(s),
    ensures
        dec_value(s) >= 0,
    decreases s.len(),
{
    if s.len() > 0 {
        assert(all_digits(s.drop_last()));
        lemma_dec_value_nonneg(s.drop_last());
    }
}

/// Extending a digit string never lowers its value.
proof fn lemma_dec_value_prefix_le(s: Seq<char>, i: int)
    requires
        all_digits(s),
        0 <= i <= s.len(),
    ensures
        dec_value(s.take(i)) <= dec_value(s),
    decreases s.len() - i,
{
    if i < s.len() {
        lemma_dec_value_prefix_le(s, i + 1);
        assert(s.take(i + 1).drop_last() =~= s.take(i));
        assert(all_digits(s.take(i)));
        lemma_dec_value_nonneg(s.take(i));
        assert(dec_value(s.take(i + 1)) == dec_value(s.take(i)) * 10 + digit_val(s.take(i + 1).last()));
        assert(s.take(i + 1).last() == s[i]);
        assert(dec_value(s.take(i)) * 10 >= dec_value(s.take(i)));
        assert(digit_val(s[i]) >= 0);
    } else {
        assert(s.take(i) =~= s);
    }
}

/// Parse a string as an unsigned integer: succeeds exactly on non-empty
/// digit strings whose value fits in `usize`.
pub fn parse_usize(s: &str) -> (r: Option<usize>)
    ensures
        r == spec_parse_usize(s@),
{
    let n = s.unicode_len();
    if n == 0 {
        return None;
    }
    let mut val: usize = 0;
    let mut i: usize = 0;
    while i < n
        invariant
            0 < n == s@.len(),
            0 <= i <= n,
            all_digits(s@.take(i as int)),
            val == dec_value(s@.take(i as int)),
        decreases n - i,
    {
        let c = s.get_char(i);
        if c < '0' || c > '9' {
            assert(!is_digit(s@[i as int]));
            return None;
        }
        let d: usize = (c as u32 as usize) - 48;
        assert(d == digit_val(s@[i as int])) by {
            assert(is_digit(s@[i as int]));
        }
        proof {
            lemma_dec_value_nonneg(s@.take(i as int));
        }
        if val > (usize::MAX - d) / 10 {
            proof {
                assert(s@.take(i as int + 1).drop_last() =~= s@.take(i as int));
                assert(dec_value(s@.take(i as int + 1)) == val * 10 + d as int);
                assert(val * 10 + d > usize::MAX) by (nonlinear_arith)
                    requires
                        val > (usize::MAX - d) / 10,
                        0 <= d <= 9,
                ;
                if all_digits(s@) {
                    lemma_dec_value_prefix_le(s@, i as int + 1);
                }
            }
            return None;
        }
        assert(val * 10 + d <= usize::MAX) by (nonlinear_arith)
            requires
                val <= (usize::MAX - d) / 10,
                0 <= d <= 9,
        ;
        val = val * 10 + d;
        proof {
            assert(s@.take(i as int + 1).drop_last() =~= s@.take(i as int));
        }
        i = i + 1;
    }
    proof {
        assert(s@.take(n as int) =~= s@);
    }
    Some(val)
}

/// The digit character for a value in 0..=9.
pub open spec fn digit_char(d: int) -> char {
    ((('0' as u8) + d) as u8) as char
}

/// The decimal rendering of a non-negative number, most significant digit
/// first, without leading zeros (except for the number 0 itself).
pub open spec fn dec_digits(n: int) -> Seq<char>
    recommends
        n >= 0,
    decreases n,
{
    if n < 10 {
        seq![digit_char(n)]
    } else {
        dec_digits(n / 10) + seq![digit_char(n % 10)]
    }
}

/// Render a number in decimal.
pub fn dec_string(n: usize) -> (r: String)
    ensures
        r@ == dec_digits(n as int),
    decreases n,
{
    if n < 10 {
        let mut s = String::new();
        let c = (48 + n as u8) as char;
        assert(c == digit_char(n as int));
        s.push(c);
        assert(s@ =~= dec_digits(n as int));
        s
    } else {
        let mut s = dec_string(n / 10);
        let c = (48 + (n % 10) as u8) as char;
        assert(c == digit_char(n as int % 10));
        s.push(c);
        assert(s@ =~= dec_digits(n as int));
        s
    }
}

/// Whether a character is one of the two separators.
pub open spec fn is_sep(c: char, a: char, b: char) -> bool {
    c == a || c == b
}

/// Index of the first separator in `s`, or -1 when there is none.
pub open spec fn first_sep(s: Seq<char>, a: char, b: char) -> int
    decreases s.len(),
{
    if s.len() == 0 {
        -1
    } else if is_sep(s[0], a, b) {
        0
    } else {
        let r = first_sep(s.drop_first(), a, b);
        if r < 0 {
            -1
        } else {
            r + 1
        }
    }
}

/// The tokens of `s` between occurrences of the separators, in order; an
/// empty string yields one empty token, and each separator ends a token, so
/// splitting yields one token more than there are separators.
pub open spec fn split_seps(s: Seq<char>, a: char, b: char) -> Seq<Seq<char>>
    decreases s.len(),
{
    let i = first_sep(s, a, b);
    if 0 <= i && i < s.len() {
        seq![s.take(i)] + split_seps(s.skip(i + 1), a, b)
    } else {
        seq![s]
    }
}

/// `first_sep` finds a separator exactly where one stands first.
proof fn lemma_first_sep_at(s: Seq<char>, a: char, b: char, k: int)
    requires
        0 <= k < s.len(),
        is_sep(s[k], a, b),
        forall|j: int| 0 <= j < k ==> !is_sep(#[trigger] s[j], a, b),
    ensures
        first_sep(s, a, b) == k,
    decreases s.len(),
{
    if k > 0 {
        assert(!is_sep(s[0], a, b));
        assert(s.drop_first()[k - 1] == s[k]);
        assert(forall|j: int|
            0 <= j < k - 1 ==> !is_sep(#[trigger] s.drop_first()[j], a, b)) by {
            assert(forall|j: int| 0 <= j < k - 1 ==> s.drop_first()[j] == s[j + 1]);
        }
        lemma_first_sep_at(s.drop_first(), a, b, k - 1);
    }
}

/// `first_sep` finds nothing exactly when no separator stands in `s`.
proof fn lemma_first_sep_none(s: Seq<char>, a: char, b: char)
    requires
        forall|j: int| 0 <= j < s.len() ==> !is_sep(#[trigger] s[j], a, b),
    ensures
        first_sep(s, a, b) == -1,
    decreases s.len(),
{
    if s.len() > 0 {
        assert(forall|j: int|
            0 <= j < s.drop_first().len() ==> !is_sep(#[trigger] s.drop_first()[j], a, b)) by {
            assert(forall|j: int|
                0 <= j < s.drop_first().len() ==> s.drop_first()[j] == s[j + 1]);
        }
        lemma_first_sep_none(s.drop_first(), a, b);
    }
}

/// Splitting always yields at least one token.
pub proof fn lemma_split_seps_len(s: Seq<char>, a: char, b: char)
    ensures
        split_seps(s, a, b).len() >= 1,
{
}

/// Split a string on the two separator characters.
pub fn split_str(s: &str, a: char, b: char) -> (r: Vec<String>)
    ensures
        r.deep_view() == split_seps(s@, a, b),
{
    let n = s.unicode_len();
    let mut toks: Vec<String> = Vec::new();
    proof {
        assert(s@.skip(0) =~= s@);
        assert(toks.deep_view() =~= Seq::<Seq<char>>::empty());
        assert(split_seps(s@, a, b) =~= toks.deep_view() + split_seps(s@.skip(0), a, b));
    }
    let mut start: usize = 0;
    let mut i: usize = 0;
    while i < n
        invariant
            0 <= start <= i <= n == s@.len(),
            split_seps(s@, a, b) =~= toks.deep_view() + split_seps(s@.skip(start as int), a, b),
            forall|j: int| start <= j < i ==> !is_sep(#[trigger] s@[j], a, b),
        decreases n - i,
    {
        let c = s.get_char(i);
        if c == a || c == b {
            let tok = s.substring_char(start, i).to_owned();
            proof {
                let rest = s@.skip(start as int);
                assert(rest[i - start] == s@[i as int]);
                assert(forall|j: int| 0 <= j < i - start ==> rest[j] == s@[j + start]);
                lemma_first_sep_at(rest, a, b, i - start);
                assert(rest.take(i - start) =~= s@.subrange(start as int, i as int));
                assert(rest.skip(i - start + 1) =~= s@.skip(i as int + 1));
                assert(split_seps(rest, a, b) == seq![s@.subrange(start as int, i as int)]
                    + split_seps(s@.skip(i as int + 1), a, b));
            }
            let ghost old_toks = toks.deep_view();
            toks.push(tok);
            proof {
                assert(toks.deep_view() =~= old_toks + seq![s@.subrange(start as int, i as int)]);
                assert(split_seps(s@, a, b) =~= toks.deep_view() + split_seps(
                    s@.skip(i as int + 1),
                    a,
                    b,
                ));
            }
            start = i + 1;
        }
        i = i + 1;
    }
    let tok = s.substring_char(start, n).to_owned();
    proof {
        let rest = s@.skip(start as int);
        assert(forall|j: int| 0 <= j < rest.len() ==> rest[j] == s@[j + start]);
        lemma_first_sep_none(rest, a, b);
        assert(split_seps(rest, a, b) == seq![rest]);
        assert(rest =~= s@.subrange(start as int, n as int));
    }
    let ghost old_toks = toks.deep_view();
    toks.push(tok);
    proof {
        assert(toks.deep_view() =~= old_toks + seq![s@.subrange(start as int, n as int)]);
    }
    toks
}

/// Compare two strings character by character.
pub fn str_eq(a: &str, b: &str) -> (r: bool)
    ensures
        r == (a@ == b@),
{
    let na = a.unicode_len();
    let nb = b.unicode_len();
    if na != nb {
        return false;
    }
    let mut i: usize = 0;
    while i < na
        invariant
            na == a@.len() == b@.len(),
            0 <= i <= na,
            forall|j: int| 0 <= j < i ==> a@[j] == b@[j],
        decreases na - i,
    {
        if a.get_char(i) != b.get_char(i) {
            return false;
        }
        i = i + 1;
    }
    proof {
        assert(a@ =~= b@);
    }
    true
}

} // verus!
