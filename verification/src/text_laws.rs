//! What holds of texts: how numbers are written, how texts are ordered, cut and compared.
use vstd::arithmetic::div_mod::{lemma_fundamental_div_mod, lemma_mod_bound};
use vstd::prelude::*;
use vstd::utf8::*;

use crate::text;

verus! {

/// What a digit counts.
pub open spec fn worth(c: char) -> int {
    if '0' <= c && c <= '9' {
        c as int - '0' as int
    } else {
        c as int - 'a' as int + 10
    }
}

/// The number that digits stand for, most significant first.
pub open spec fn number(s: Seq<char>, base: int) -> int
    decreases s.len(),
{
    if s.len() == 0 {
        0
    } else {
        number(s.drop_last(), base) * base + worth(s.last())
    }
}

/// A digit counts what it stands for.
pub proof fn law_digits_count(d: int)
    requires
        0 <= d < 16,
    ensures
        worth(text::digit(d)) == d,
{
}

/// A number in base ten is read back as it was, and is written without leading zeros.
pub proof fn law_decimal_is_read_back(n: nat)
    ensures
        number(text::decimal(n), 10) == n,
        text::decimal(n).len() > 0,
        text::decimal(n)[0] == '0' ==> n == 0 && text::decimal(n).len() == 1,
    decreases n,
{
    law_digits_count((n % 10) as int);
    if n < 10 {
        let s = text::decimal(n);
        assert(s.drop_last() =~= Seq::empty());
        reveal_with_fuel(number, 2);
        law_digits_count(n as int);
    } else {
        let q = n / 10;
        law_decimal_is_read_back(q);
        let s = text::decimal(q);
        assert(s.push(text::digit((n % 10) as int)).drop_last() =~= s);
        assert(text::decimal(n)[0] == s[0]);
    }
}

/// A number of a fixed width is read back as it was, where it has room, and takes the whole
/// width.
pub proof fn law_fixed_width_is_read_back(n: nat, base: nat, width: nat)
    requires
        2 <= base <= 16,
        text::fits(n, base, width),
    ensures
        number(text::fixed_width(n, base, width), base as int) == n,
        text::fixed_width(n, base, width).len() == width,
    decreases width,
{
    if width > 0 {
        let q = n / base;
        lemma_fundamental_div_mod(n as int, base as int);
        lemma_mod_bound(n as int, base as int);
        law_fixed_width_is_read_back(q, base, (width - 1) as nat);
        law_digits_count((n % base) as int);
        let s = text::fixed_width(q, base, (width - 1) as nat);
        assert(s.push(text::digit((n % base) as int)).drop_last() =~= s);
        assert(q * base + n % base == n) by (nonlinear_arith)
            requires
                n as int == base as int * (n as int / base as int) + n as int % base as int,
                q == n / base,
        ;
    }
}

/// Bytes are in dictionary order: at the first place where they differ the lesser byte comes
/// first, and what ends there comes before what goes on.
pub proof fn law_dictionary_order(a: Seq<u8>, b: Seq<u8>, i: int)
    requires
        0 <= i <= a.len(),
        i <= b.len(),
        a.take(i) == b.take(i),
    ensures
        i < a.len() && i < b.len() && a[i] < b[i] ==> text::lex_lt(a, b) && !text::lex_lt(b, a),
        i == a.len() && i < b.len() ==> text::lex_lt(a, b) && !text::lex_lt(b, a),
        i == a.len() && i == b.len() ==> !text::lex_lt(a, b),
    decreases i,
{
    if i > 0 {
        let x = a.drop_first();
        let y = b.drop_first();
        assert(a[0] == a.take(i)[0]);
        assert(b[0] == b.take(i)[0]);
        assert(x.take(i - 1) =~= a.take(i).drop_first());
        assert(y.take(i - 1) =~= b.take(i).drop_first());
        law_dictionary_order(x, y, i - 1);
    }
}

/// Capital letters are made small, and nothing else is touched: a text that is made small twice
/// is as it was made once.
pub proof fn law_small_letters(s: Seq<char>, i: int)
    requires
        0 <= i < s.len(),
    ensures
        text::lower(s).len() == s.len(),
        'A' <= s[i] && s[i] <= 'Z' ==> text::lower(s)[i] as int == s[i] as int + 32,
        !('A' <= s[i] && s[i] <= 'Z') ==> text::lower(s)[i] == s[i],
        text::lower(text::lower(s)) == text::lower(s),
{
    assert(text::lower(text::lower(s)) =~= text::lower(s));
}

/// A text is cut at the last place within the limit at which a character ends, so that no
/// character is cut in two and no more is lost than must be.
pub proof fn law_cut_between_characters(bytes: Seq<u8>, limit: int, j: int)
    requires
        0 <= limit <= bytes.len(),
        valid_utf8(bytes),
    ensures
        0 <= text::boundary_at_most(bytes, limit) <= limit,
        is_char_boundary(bytes, text::boundary_at_most(bytes, limit)),
        text::boundary_at_most(bytes, limit) < j <= limit ==> !is_char_boundary(bytes, j),
    decreases limit,
{
    is_char_boundary_start_end_of_seq(bytes);
    if limit > 0 && !is_char_boundary(bytes, limit) {
        law_cut_between_characters(bytes, limit - 1, j);
    }
}

/// A text within the limit is not cut.
pub proof fn law_short_text_is_whole(s: Seq<char>, limit: int)
    requires
        encode_utf8(s).len() <= limit,
    ensures
        text::prefix_within(s, limit) == s,
{
}

} // verus!
