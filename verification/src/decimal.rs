//! Decimal rendering and reading of integers, with a common spec-level
//! digit model shared by the parser, the renderer and the storage codec.
use vstd::prelude::*;

verus! {

/// True of the ten ASCII digit characters.
pub open spec fn is_digit_char(c: char) -> bool {
    '0' <= c <= '9'
}

/// The numeric value of a digit character.
pub open spec fn digit_val(c: char) -> int {
    c as int - '0' as int
}

/// The digit character for a value in `0 ..= 9`.
pub open spec fn digit_char(d: int) -> char
    recommends
        0 <= d <= 9,
{
    (d + '0' as int) as char
}

/// The decimal digits of a non-negative integer, most significant first.
pub open spec fn dec_digits(n: int) -> Seq<char>
    recommends
        0 <= n,
    decreases n,
{
    if n < 10 {
        seq![digit_char(n)]
    } else {
        dec_digits(n / 10).push(digit_char(n % 10))
    }
}

/// The decimal rendering of an integer: digits, with a leading minus sign
/// when negative.
pub open spec fn dec_str(v: int) -> Seq<char> {
    if v < 0 {
        seq!['-'] + dec_digits(-v)
    } else {
        dec_digits(v)
    }
}

/// The value of a digit string, most significant first.
pub open spec fn seq_val(s: Seq<char>) -> int
    decreases s.len(),
{
    if s.len() == 0 {
        0
    } else {
        10 * seq_val(s.drop_last()) + digit_val(s.last())
    }
}

/// Digit renderings consist of digit characters and read back as the number
/// they were made from.
pub proof fn lemma_dec_digits(n: int)
    requires
        0 <= n,
    ensures
        dec_digits(n).len() >= 1,
        forall|i: int| 0 <= i < dec_digits(n).len() ==> is_digit_char(#[trigger] dec_digits(n)[i]),
        seq_val(dec_digits(n)) == n,
    decreases n,
{
    if n < 10 {
        assert(digit_val(digit_char(n)) == n);
        assert(is_digit_char(digit_char(n)));
        let s = dec_digits(n);
        assert(s.last() == digit_char(n));
        assert(s.drop_last() =~= Seq::<char>::empty());
        assert(seq_val(s.drop_last()) == 0);
        assert(seq_val(s) == 10 * seq_val(s.drop_last()) + digit_val(s.last()));
    } else {
        lemma_dec_digits(n / 10);
        assert(dec_digits(n).drop_last() =~= dec_digits(n / 10));
        assert(digit_val(digit_char(n % 10)) == n % 10);
        assert(is_digit_char(digit_char(n % 10)));
    }
}

/// The value of an all-digit string never shrinks as the string grows to
/// the right.
pub proof fn lemma_seq_val_extend(s: Seq<char>, i: int, j: int)
    requires
        0 <= i <= j <= s.len(),
        forall|k: int| 0 <= k < s.len() ==> is_digit_char(#[trigger] s[k]),
    ensures
        0 <= seq_val(s.subrange(0, i)) <= seq_val(s.subrange(0, j)),
    decreases j - i,
{
    if i == j {
        lemma_seq_val_nonneg(s.subrange(0, i));
    } else {
        lemma_seq_val_extend(s, i, j - 1);
        let sj = s.subrange(0, j);
        assert(sj.drop_last() =~= s.subrange(0, j - 1));
        assert(is_digit_char(sj.last()));
    }
}

/// The value of an all-digit string is non-negative.
pub proof fn lemma_seq_val_nonneg(s: Seq<char>)
    requires
        forall|k: int| 0 <= k < s.len() ==> is_digit_char(#[trigger] s[k]),
    ensures
        0 <= seq_val(s),
    decreases s.len(),
{
    if s.len() > 0 {
        lemma_seq_val_nonneg(s.drop_last());
    }
}

/// The digit character for a value in `0 ..= 9`, as executable code.
pub fn digit_char_exec(d: u8) -> (c: char)
    requires
        d <= 9,
    ensures
        c == digit_char(d as int),
        is_digit_char(c),
{
    let c = (48u8 + d) as char;
    proof {
        assert(c == digit_char(d as int));
    }
    c
}

/// Renders `v` in decimal.
pub fn format_i64(v: i64) -> (s: String)
    ensures
        s@ == dec_str(v as int),
{
    let neg = v < 0;
    let m: u64 = if v >= 0 {
        v as u64
    } else {
        ((-(v + 1)) as u64) + 1
    };
    proof {
        if v < 0 {
            assert(m == -(v as int));
        }
    }
    let mut rev: Vec<char> = Vec::new();
    let mut cur: u64 = m;
    while cur >= 10
        invariant
            dec_digits(m as int) =~= dec_digits(cur as int) + rev@.reverse(),
        decreases cur,
    {
        let d = (cur % 10) as u8;
        let ghost prev_rev = rev@;
        rev.push(digit_char_exec(d));
        proof {
            assert(rev@.reverse() =~= seq![digit_char(d as int)] + prev_rev.reverse());
            assert(dec_digits(cur as int) == dec_digits(cur as int / 10).push(
                digit_char(cur as int % 10),
            ));
            assert(dec_digits((cur / 10) as int) + rev@.reverse() =~= dec_digits(cur as int)
                + prev_rev.reverse());
        }
        cur = cur / 10;
    }
    let ghost prev_rev = rev@;
    rev.push(digit_char_exec(cur as u8));
    proof {
        assert(dec_digits(cur as int) =~= seq![digit_char(cur as int)]);
        assert(rev@.reverse() =~= seq![digit_char(cur as int)] + prev_rev.reverse());
        assert(dec_digits(m as int) =~= rev@.reverse());
    }
    let mut out: Vec<char> = Vec::new();
    if neg {
        out.push('-');
    }
    let ghost sign: Seq<char> = if neg { seq!['-'] } else { Seq::empty() };
    let n = rev.len();
    let mut k: usize = 0;
    while k < n
        invariant
            n == rev@.len(),
            k <= n,
            out@ =~= sign + rev@.reverse().subrange(0, k as int),
        decreases n - k,
    {
        out.push(rev[n - 1 - k]);
        proof {
            assert(rev@.reverse()[k as int] == rev@[n - 1 - k as int]);
            assert(rev@.reverse().subrange(0, k + 1 as int) =~= rev@.reverse().subrange(
                0,
                k as int,
            ).push(rev@.reverse()[k as int]));
        }
        k = k + 1;
    }
    proof {
        assert(rev@.reverse().subrange(0, rev@.len() as int) =~= rev@.reverse());
        assert(out@ =~= dec_str(v as int));
    }
    crate::text::string_from_chars(&out)
}

} // verus!
