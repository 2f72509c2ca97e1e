//! Deterministic column naming: a bijection from zero-based column indices to
//! spreadsheet-style alphabetic names ("a", "b", ..., "z", "aa", "ab", ...).

use vstd::prelude::*;

verus! {

/// The lowercase letter with alphabet position `d` (0 -> 'a', ..., 25 -> 'z').
pub open spec fn alpha_char(d: int) -> char {
    ((('a' as u8) + d) as u8) as char
}

/// The name of rank `n` in bijective base-26 numbering, most significant
/// letter first; ranks start at 1 ("a").
pub open spec fn name_chars(n: int) -> Seq<char>
    recommends
        n >= 1,
    decreases n,
{
    if n <= 26 {
        seq![alpha_char(n - 1)]
    } else {
        name_chars((n - 1) / 26) + seq![alpha_char((n - 1) % 26)]
    }
}

/// The name of the column with zero-based index `idx`.
pub open spec fn column_name(idx: int) -> Seq<char> {
    name_chars(idx + 1)
}

/// A name is never empty.
pub proof fn lemma_name_chars_len(n: int)
    requires
        n >= 1,
    ensures
        name_chars(n).len() >= 1,
        n <= 26 ==> name_chars(n).len() == 1,
        n > 26 ==> name_chars(n).len() >= 2,
    decreases n,
{
    if n > 26 {
        lemma_name_chars_len((n - 1) / 26);
    }
}

/// The code point of an alphabet letter.
pub proof fn lemma_alpha_char_val(d: int)
    requires
        0 <= d < 26,
    ensures
        alpha_char(d) as int == 'a' as int + d,
        'a' <= alpha_char(d) <= 'z',
{
    assert((('a' as u8) + d) as u8 == 97 + d);
}

/// Every letter of a name is a lowercase letter.
pub proof fn lemma_name_chars_alpha(n: int)
    requires
        n >= 1,
    ensures
        forall|i: int|
            0 <= i < name_chars(n).len() ==> 'a' <= #[trigger] name_chars(n)[i] <= 'z',
    decreases n,
{
    if n <= 26 {
        lemma_alpha_char_val(n - 1);
        assert(name_chars(n) =~= seq![alpha_char(n - 1)]);
        assert forall|i: int| 0 <= i < name_chars(n).len() implies 'a' <= #[trigger] name_chars(
            n,
        )[i] <= 'z' by {
            assert(name_chars(n)[i] == alpha_char(n - 1));
        }
    } else {
        let p = name_chars((n - 1) / 26);
        lemma_name_chars_alpha((n - 1) / 26);
        lemma_alpha_char_val((n - 1) % 26);
        assert(name_chars(n) =~= p + seq![alpha_char((n - 1) % 26)]);
        assert forall|i: int| 0 <= i < name_chars(n).len() implies 'a' <= #[trigger] name_chars(
            n,
        )[i] <= 'z' by {
            if i < p.len() {
                assert(name_chars(n)[i] == p[i]);
            } else {
                assert(name_chars(n)[i] == alpha_char((n - 1) % 26));
            }
        }
    }
}

/// Distinct alphabet positions give distinct letters.
proof fn lemma_alpha_char_injective(d1: int, d2: int)
    requires
        0 <= d1 < 26,
        0 <= d2 < 26,
        alpha_char(d1) == alpha_char(d2),
    ensures
        d1 == d2,
{
    lemma_alpha_char_val(d1);
    lemma_alpha_char_val(d2);
}

/// Distinct ranks have distinct names.
pub proof fn lemma_name_chars_injective(m: int, n: int)
    requires
        m >= 1,
        n >= 1,
        name_chars(m) == name_chars(n),
    ensures
        m == n,
    decreases m,
{
    lemma_name_chars_len(m);
    lemma_name_chars_len(n);
    if m <= 26 && n <= 26 {
        assert(name_chars(m) =~= seq![alpha_char(m - 1)]);
        assert(name_chars(n) =~= seq![alpha_char(n - 1)]);
        assert(name_chars(m)[0] == alpha_char(m - 1));
        assert(name_chars(n)[0] == alpha_char(n - 1));
        assert(name_chars(m)[0] == name_chars(n)[0]);
        lemma_alpha_char_injective(m - 1, n - 1);
    } else if m > 26 && n > 26 {
        let ms = name_chars((m - 1) / 26);
        let ns = name_chars((n - 1) / 26);
        assert(name_chars(m).last() == alpha_char((m - 1) % 26));
        assert(name_chars(n).last() == alpha_char((n - 1) % 26));
        lemma_alpha_char_injective((m - 1) % 26, (n - 1) % 26);
        assert(name_chars(m).drop_last() =~= ms);
        assert(name_chars(n).drop_last() =~= ns);
        lemma_name_chars_injective((m - 1) / 26, (n - 1) / 26);
        assert((m - 1) / 26 == (n - 1) / 26);
        assert(m - 1 == n - 1) by {
            vstd::arithmetic::div_mod::lemma_fundamental_div_mod(m - 1, 26);
            vstd::arithmetic::div_mod::lemma_fundamental_div_mod(n - 1, 26);
        }
    } else {
        assert(false);
    }
}

/// The rank whose name a lowercase string is: the inverse of `name_chars`.
pub open spec fn name_rank(s: Seq<char>) -> int
    recommends
        s.len() >= 1,
    decreases s.len(),
{
    if s.len() <= 1 {
        s[0] as int - 'a' as int + 1
    } else {
        name_rank(s.drop_last()) * 26 + (s.last() as int - 'a' as int) + 1
    }
}

/// Naming is a bijection between ranks and non-empty lowercase strings:
/// every non-empty lowercase string is the name of exactly one rank,
/// namely `name_rank` of it.
pub proof fn lemma_name_chars_surjective(s: Seq<char>)
    requires
        s.len() >= 1,
        forall|i: int| 0 <= i < s.len() ==> 'a' <= #[trigger] s[i] <= 'z',
    ensures
        name_rank(s) >= 1,
        name_chars(name_rank(s)) == s,
    decreases s.len(),
{
    if s.len() == 1 {
        let d = s[0] as int - 'a' as int;
        assert(0 <= d < 26);
        assert(alpha_char(d) == s[0]);
        assert(name_chars(name_rank(s)) =~= s);
    } else {
        let p = s.drop_last();
        assert(forall|i: int| 0 <= i < p.len() ==> 'a' <= #[trigger] p[i] <= 'z');
        lemma_name_chars_surjective(p);
        let rp = name_rank(p);
        let d = s.last() as int - 'a' as int;
        assert(0 <= d < 26);
        let r = rp * 26 + d + 1;
        assert(rp >= 1);
        assert(r > 26) by (nonlinear_arith)
            requires
                rp >= 1,
                d >= 0,
                r == rp * 26 + d + 1,
        ;
        assert((r - 1) / 26 == rp && (r - 1) % 26 == d) by {
            vstd::arithmetic::div_mod::lemma_fundamental_div_mod_converse(
                r - 1,
                26,
                rp,
                d,
            );
        }
        assert(alpha_char(d) == s.last());
        assert(name_chars(r) == name_chars(rp) + seq![alpha_char(d)]);
        assert(name_chars(r) =~= s);
    }
}

/// Column naming is stable and injective: it depends on the index alone, and
/// two column indices with the same name are the same index, whatever schema
/// they belong to.
pub proof fn lemma_column_name_injective(i: int, j: int)
    requires
        i >= 0,
        j >= 0,
        column_name(i) == column_name(j),
    ensures
        i == j,
{
    lemma_name_chars_injective(i + 1, j + 1);
}

/// Column naming reaches every name: each non-empty lowercase string is the
/// name of some column index, so naming is a bijection between indices and
/// such strings.
pub proof fn lemma_column_name_surjective(s: Seq<char>)
    requires
        s.len() >= 1,
        forall|i: int| 0 <= i < s.len() ==> 'a' <= #[trigger] s[i] <= 'z',
    ensures
        name_rank(s) - 1 >= 0,
        column_name(name_rank(s) - 1) == s,
{
    lemma_name_chars_surjective(s);
}

/// Naming a column: the spreadsheet-style name of the column with zero-based
/// index `idx` ("a" for 0, "z" for 25, "aa" for 26, ...).
pub fn gen_column_name(idx: usize) -> (r: String)
    requires
        idx < usize::MAX,
    ensures
        r@ == column_name(idx as int),
    decreases idx,
{
    let n = idx + 1;
    if n <= 26 {
        let mut s = String::new();
        let c = ((97 + (n - 1) as u8)) as char;
        assert(c == alpha_char(n - 1));
        s.push(c);
        assert(s@ =~= name_chars(n as int));
        s
    } else {
        let mut s = gen_column_name((n - 1) / 26 - 1);
        let d = ((n - 1) % 26) as u8;
        let c = (97 + d) as char;
        assert(c == alpha_char((n as int - 1) % 26));
        s.push(c);
        assert(s@ =~= name_chars(n as int));
        s
    }
}

/// Relies on `String::push`: appends the given character to the string.
pub assume_specification[ String::push ](s: &mut String, c: char)
    ensures
        final(s)@ == old(s)@ + seq![c],
;

} // verus!
