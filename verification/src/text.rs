//! Text: comparison, ASCII case, truncation and number formatting.
use vstd::prelude::*;
use vstd::string::*;
use vstd::utf8::*;

verus! {

/// Whether two strings hold the same text.
pub fn same_text(a: &str, b: &str) -> (r: bool)
    ensures
        r == (a@ == b@),
{
    a.to_owned() == b.to_owned()
}

/// What follows `prefix` in `s`, where `s` starts with it.
pub fn without_prefix<'a>(s: &'a str, prefix: &str) -> (r: Option<&'a str>)
    ensures
        match r {
            Some(rest) => s@ == prefix@ + rest@,
            None => !prefix@.is_prefix_of(s@),
        },
{
    let n: usize = prefix.unicode_len();
    let len: usize = s.unicode_len();
    if len < n {
        return None;
    }
    let mut i: usize = 0;
    while i < n
        invariant
            i <= n <= len,
            n == prefix@.len(),
            len == s@.len(),
            forall|j: int| 0 <= j < i ==> prefix@[j] == s@[j],
        decreases n - i,
    {
        if prefix.get_char(i) != s.get_char(i) {
            return None;
        }
        i += 1;
    }
    let rest = s.substring_char(n, len);
    assert(s@ =~= prefix@ + rest@);
    Some(rest)
}

/// Byte sequences in dictionary order: `a` comes strictly before `b`.
pub open spec fn lex_lt(a: Seq<u8>, b: Seq<u8>) -> bool
    decreases a.len(),
{
    if b.len() == 0 {
        false
    } else if a.len() == 0 {
        true
    } else {
        a[0] < b[0] || (a[0] == b[0] && lex_lt(a.drop_first(), b.drop_first()))
    }
}

/// Texts in the order of their UTF-8 bytes.
pub open spec fn text_lt(a: Seq<char>, b: Seq<char>) -> bool {
    lex_lt(encode_utf8(a), encode_utf8(b))
}

proof fn lemma_lex_irreflexive(a: Seq<u8>)
    ensures
        !lex_lt(a, a),
    decreases a.len(),
{
    if a.len() > 0 {
        lemma_lex_irreflexive(a.drop_first());
    }
}

proof fn lemma_lex_total(a: Seq<u8>, b: Seq<u8>)
    ensures
        lex_lt(a, b) || lex_lt(b, a) || a == b,
    decreases a.len(),
{
    if a.len() > 0 && b.len() > 0 {
        lemma_lex_total(a.drop_first(), b.drop_first());
        if a.drop_first() == b.drop_first() && a[0] == b[0] {
            assert(a =~= seq![a[0]] + a.drop_first());
            assert(b =~= seq![b[0]] + b.drop_first());
        }
    } else if a.len() == 0 && b.len() == 0 {
        assert(a =~= b);
    }
}

proof fn lemma_lex_transitive(a: Seq<u8>, b: Seq<u8>, c: Seq<u8>)
    requires
        lex_lt(a, b),
        lex_lt(b, c),
    ensures
        lex_lt(a, c),
    decreases a.len(),
{
    if a.len() > 0 && b.len() > 0 && c.len() > 0 {
        if a[0] == b[0] && b[0] == c[0] {
            lemma_lex_transitive(a.drop_first(), b.drop_first(), c.drop_first());
        }
    }
}

/// `text_lt` is a strict total order: no text precedes itself.
pub proof fn lemma_text_irreflexive(a: Seq<char>)
    ensures
        !text_lt(a, a),
{
    lemma_lex_irreflexive(encode_utf8(a));
}

/// `text_lt` is a strict total order: of two different texts one precedes the other.
pub proof fn lemma_text_total(a: Seq<char>, b: Seq<char>)
    ensures
        text_lt(a, b) || text_lt(b, a) || a == b,
{
    lemma_lex_total(encode_utf8(a), encode_utf8(b));
    encode_utf8_decode_utf8(a);
    encode_utf8_decode_utf8(b);
}

/// `text_lt` is a strict total order: it is transitive.
pub proof fn lemma_text_transitive(a: Seq<char>, b: Seq<char>, c: Seq<char>)
    requires
        text_lt(a, b),
        text_lt(b, c),
    ensures
        text_lt(a, c),
{
    lemma_lex_transitive(encode_utf8(a), encode_utf8(b), encode_utf8(c));
}

/// `text_lt` is a strict total order: it holds in at most one direction.
pub proof fn lemma_text_asymmetric(a: Seq<char>, b: Seq<char>)
    requires
        text_lt(a, b),
    ensures
        !text_lt(b, a),
{
    if text_lt(b, a) {
        lemma_text_transitive(a, b, a);
        lemma_text_irreflexive(a);
    }
}

/// Dictionary order on bytes.
pub fn bytes_before(a: &[u8], b: &[u8]) -> (r: bool)
    ensures
        r == lex_lt(a@, b@),
{
    let mut i: usize = 0;
    assert(a@.skip(0) =~= a@);
    assert(b@.skip(0) =~= b@);
    while i < a.len() && i < b.len()
        invariant
            i <= a@.len(),
            i <= b@.len(),
            lex_lt(a@, b@) == lex_lt(a@.skip(i as int), b@.skip(i as int)),
        decreases a@.len() - i,
    {
        let ghost x = a@.skip(i as int);
        let ghost y = b@.skip(i as int);
        assert(x.drop_first() =~= a@.skip(i + 1));
        assert(y.drop_first() =~= b@.skip(i + 1));
        if a[i] < b[i] {
            return true;
        }
        if b[i] < a[i] {
            return false;
        }
        i += 1;
    }
    i < b.len()
}

/// Whether `a` comes strictly before `b`.
pub fn text_before(a: &String, b: &String) -> (r: bool)
    ensures
        r == text_lt(a@, b@),
{
    bytes_before(a.as_str().as_bytes(), b.as_str().as_bytes())
}

/// `c` with an ASCII capital letter made small.
pub open spec fn lower_char(c: char) -> char {
    if 'A' <= c && c <= 'Z' {
        ((c as u32) + 32) as char
    } else {
        c
    }
}

/// `s` with its ASCII capital letters made small.
pub open spec fn lower(s: Seq<char>) -> Seq<char> {
    s.map_values(|c: char| lower_char(c))
}

fn lower_ascii(c: char) -> (r: u32)
    ensures
        r == lower_char(c) as u32,
{
    let v: u32 = c as u32;
    if 'A' <= c && c <= 'Z' {
        v + 32
    } else {
        v
    }
}

/// Whether two strings agree up to ASCII case.
pub fn same_text_any_case(a: &str, b: &str) -> (r: bool)
    ensures
        r == (lower(a@) == lower(b@)),
{
    let n: usize = a.unicode_len();
    if n != b.unicode_len() {
        assert(lower(a@).len() != lower(b@).len());
        return false;
    }
    let mut i: usize = 0;
    while i < n
        invariant
            i <= n,
            n == a@.len(),
            n == b@.len(),
            forall|j: int| 0 <= j < i ==> lower_char(a@[j]) == lower_char(b@[j]),
        decreases n - i,
    {
        if lower_ascii(a.get_char(i)) != lower_ascii(b.get_char(i)) {
            assert(lower(a@)[i as int] != lower(b@)[i as int]);
            return false;
        }
        i += 1;
    }
    assert(lower(a@) =~= lower(b@));
    true
}

/// The greatest character boundary of `bytes` that is at most `limit`.
pub open spec fn boundary_at_most(bytes: Seq<u8>, limit: int) -> int
    decreases limit,
{
    if limit <= 0 {
        0
    } else if is_char_boundary(bytes, limit) {
        limit
    } else {
        boundary_at_most(bytes, limit - 1)
    }
}

/// The longest prefix of `s` whose UTF-8 form takes at most `limit` bytes.
pub open spec fn prefix_within(s: Seq<char>, limit: int) -> Seq<char> {
    let bytes = encode_utf8(s);
    if bytes.len() <= limit {
        s
    } else {
        decode_utf8(bytes.subrange(0, boundary_at_most(bytes, limit)))
    }
}

/// The longest prefix of `s` whose UTF-8 form takes at most `limit` bytes.
pub fn truncate_text(s: &str, limit: usize) -> (r: &str)
    requires
        encode_utf8(s@).len() > limit,
        encode_utf8(s@).len() <= usize::MAX,
    ensures
        r@ == prefix_within(s@, limit as int),
{
    proof {
        encode_utf8_valid_utf8(s@);
        is_char_boundary_start_end_of_seq(encode_utf8(s@));
    }
    let mut end: usize = limit;
    while !s.is_char_boundary(end)
        invariant
            end <= limit,
            valid_utf8(encode_utf8(s@)),
            is_char_boundary(encode_utf8(s@), 0),
            boundary_at_most(encode_utf8(s@), limit as int) == boundary_at_most(
                encode_utf8(s@),
                end as int,
            ),
        decreases end,
    {
        end -= 1;
    }
    let (head, _tail) = s.split_at(end);
    proof {
        encode_utf8_decode_utf8(head@);
    }
    head
}

/// The character that stands for the digit `d`, in bases up to sixteen.
pub open spec fn digit(d: int) -> char {
    if d == 0 {
        '0'
    } else if d == 1 {
        '1'
    } else if d == 2 {
        '2'
    } else if d == 3 {
        '3'
    } else if d == 4 {
        '4'
    } else if d == 5 {
        '5'
    } else if d == 6 {
        '6'
    } else if d == 7 {
        '7'
    } else if d == 8 {
        '8'
    } else if d == 9 {
        '9'
    } else if d == 10 {
        'a'
    } else if d == 11 {
        'b'
    } else if d == 12 {
        'c'
    } else if d == 13 {
        'd'
    } else if d == 14 {
        'e'
    } else {
        'f'
    }
}

fn push_digit(s: &mut String, d: u64)
    requires
        d < 16,
    ensures
        final(s)@ == old(s)@.push(digit(d as int)),
{
    proof {
        reveal_strlit("0");
        reveal_strlit("1");
        reveal_strlit("2");
        reveal_strlit("3");
        reveal_strlit("4");
        reveal_strlit("5");
        reveal_strlit("6");
        reveal_strlit("7");
        reveal_strlit("8");
        reveal_strlit("9");
        reveal_strlit("a");
        reveal_strlit("b");
        reveal_strlit("c");
        reveal_strlit("d");
        reveal_strlit("e");
        reveal_strlit("f");
    }
    let text = match d {
        0 => "0",
        1 => "1",
        2 => "2",
        3 => "3",
        4 => "4",
        5 => "5",
        6 => "6",
        7 => "7",
        8 => "8",
        9 => "9",
        10 => "a",
        11 => "b",
        12 => "c",
        13 => "d",
        14 => "e",
        _ => "f",
    };
    s.append(text);
    assert(s@ =~= old(s)@.push(digit(d as int)));
}

/// `n` in base ten, without leading zeros.
pub open spec fn decimal(n: nat) -> Seq<char>
    decreases n,
{
    if n < 10 {
        seq![digit(n as int)]
    } else {
        decimal(n / 10).push(digit((n % 10) as int))
    }
}

/// The last `width` digits of `n` in base `base`, with leading zeros.
pub open spec fn fixed_width(n: nat, base: nat, width: nat) -> Seq<char>
    decreases width,
{
    if width == 0 {
        Seq::empty()
    } else {
        fixed_width(n / base, base, (width - 1) as nat).push(digit((n % base) as int))
    }
}

/// Appends `n` in base ten.
pub fn push_decimal(s: &mut String, n: u64)
    ensures
        final(s)@ == old(s)@ + decimal(n as nat),
    decreases n,
{
    if n < 10 {
        push_digit(s, n);
        assert(s@ =~= old(s)@ + decimal(n as nat));
    } else {
        push_decimal(s, n / 10);
        push_digit(s, n % 10);
        assert(s@ =~= old(s)@ + decimal(n as nat));
    }
}

/// Appends the last `width` digits of `n` in base `base`.
pub fn push_fixed_width(s: &mut String, n: u64, base: u64, width: u64)
    requires
        2 <= base <= 16,
    ensures
        final(s)@ == old(s)@ + fixed_width(n as nat, base as nat, width as nat),
    decreases width,
{
    if width == 0 {
        assert(s@ =~= old(s)@ + fixed_width(n as nat, base as nat, width as nat));
    } else {
        push_fixed_width(s, n / base, base, width - 1);
        push_digit(s, n % base);
        assert(s@ =~= old(s)@ + fixed_width(n as nat, base as nat, width as nat));
    }
}

proof fn lemma_lex_prefix(p: Seq<u8>, a: Seq<u8>, b: Seq<u8>)
    ensures
        lex_lt(p + a, p + b) == lex_lt(a, b),
    decreases p.len(),
{
    if p.len() == 0 {
        assert(p + a =~= a);
        assert(p + b =~= b);
    } else {
        lemma_lex_prefix(p.drop_first(), a, b);
        assert((p + a).drop_first() =~= p.drop_first() + a);
        assert((p + b).drop_first() =~= p.drop_first() + b);
    }
}

/// Texts with a common start are ordered by what follows it.
pub proof fn lemma_text_prefix(p: Seq<char>, a: Seq<char>, b: Seq<char>)
    ensures
        text_lt(p + a, p + b) == text_lt(a, b),
    decreases p.len(),
{
    if p.len() == 0 {
        assert(p + a =~= a);
        assert(p + b =~= b);
    } else {
        let rest = p.drop_first();
        lemma_text_prefix(rest, a, b);
        assert((p + a).drop_first() =~= rest + a);
        assert((p + b).drop_first() =~= rest + b);
        lemma_lex_prefix(
            encode_scalar(p[0] as u32),
            encode_utf8(rest + a),
            encode_utf8(rest + b),
        );
    }
}

/// Texts that start with different ASCII characters are ordered by those.
proof fn lemma_text_ascii(c: char, d: char, a: Seq<char>, b: Seq<char>)
    requires
        c < d,
        d < 128,
    ensures
        text_lt(seq![c] + a, seq![d] + b),
{
    let x = c as u32;
    let y = d as u32;
    assert(x < 128 ==> (x & 0x7F) as u8 == x) by (bit_vector);
    assert(y < 128 ==> (y & 0x7F) as u8 == y) by (bit_vector);
    let l = encode_utf8(seq![c] + a);
    let r = encode_utf8(seq![d] + b);
    assert((seq![c] + a)[0] == c);
    assert((seq![d] + b)[0] == d);
    assert(l[0] == leading_byte_width_1(x));
    assert(r[0] == leading_byte_width_1(y));
}

/// `n` has no more than `width` digits in base `base`.
pub open spec fn fits(n: nat, base: nat, width: nat) -> bool
    decreases width,
{
    if width == 0 {
        n == 0
    } else {
        fits(n / base, base, (width - 1) as nat)
    }
}

/// Numbers of a fixed width are ordered as texts as they are ordered as numbers, whatever
/// follows them.
pub proof fn lemma_fixed_width_order(
    m: nat,
    n: nat,
    base: nat,
    width: nat,
    a: Seq<char>,
    b: Seq<char>,
)
    requires
        2 <= base <= 16,
        m < n,
        fits(m, base, width),
        fits(n, base, width),
    ensures
        text_lt(fixed_width(m, base, width) + a, fixed_width(n, base, width) + b),
    decreases width,
{
    if width > 0 {
        let less = (width - 1) as nat;
        let x = fixed_width(m / base, base, less);
        let y = fixed_width(n / base, base, less);
        let c = digit((m % base) as int);
        let d = digit((n % base) as int);
        assert(fixed_width(m, base, width) + a =~= x + (seq![c] + a));
        assert(fixed_width(n, base, width) + b =~= y + (seq![d] + b));
        vstd::arithmetic::div_mod::lemma_fundamental_div_mod(m as int, base as int);
        vstd::arithmetic::div_mod::lemma_fundamental_div_mod(n as int, base as int);
        vstd::arithmetic::div_mod::lemma_div_is_ordered(m as int, n as int, base as int);
        vstd::arithmetic::div_mod::lemma_mod_bound(m as int, base as int);
        vstd::arithmetic::div_mod::lemma_mod_bound(n as int, base as int);
        if m / base < n / base {
            lemma_fixed_width_order(m / base, n / base, base, less, seq![c] + a, seq![d] + b);
        } else {
            assert(m / base == n / base);
            assert(m % base < n % base);
            assert(c < d);
            lemma_text_ascii(c, d, a, b);
            lemma_text_prefix(x, seq![c] + a, seq![d] + b);
        }
    }
}

/// A number has the width that its bound has.
proof fn lemma_fits_below(n: nat, bound: nat, base: nat, width: nat)
    requires
        base >= 2,
        n <= bound,
        fits(bound, base, width),
    ensures
        fits(n, base, width),
    decreases width,
{
    if width > 0 {
        vstd::arithmetic::div_mod::lemma_div_is_ordered(n as int, bound as int, base as int);
        lemma_fits_below(n / base, bound / base, base, (width - 1) as nat);
    }
}

/// A number of fixed width has that width.
pub proof fn lemma_fixed_width_len(n: nat, base: nat, width: nat)
    requires
        2 <= base,
    ensures
        fixed_width(n, base, width).len() == width,
    decreases width,
{
    if width > 0 {
        lemma_fixed_width_len(n / base, base, (width - 1) as nat);
    }
}

/// The widths that machine numbers need.
pub proof fn lemma_machine_widths(n: u64, m: u32)
    ensures
        fits(n as nat, 10, 20),
        fits(n as nat, 16, 16),
        fits(m as nat, 16, 8),
{
    reveal_with_fuel(fits, 21);
    assert(fits(u64::MAX as nat, 10, 20));
    assert(fits(u64::MAX as nat, 16, 16));
    assert(fits(u32::MAX as nat, 16, 8));
    lemma_fits_below(n as nat, u64::MAX as nat, 10, 20);
    lemma_fits_below(n as nat, u64::MAX as nat, 16, 16);
    lemma_fits_below(m as nat, u32::MAX as nat, 16, 8);
}

} // verus!
