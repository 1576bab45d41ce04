//! Character-level text helpers: equality, building strings, decimal numbers.
use vstd::prelude::*;
use vstd::string::*;

verus! {

/// Relies on `String::push`: appends one character at the end.
#[verifier::external_body]
pub(crate) fn push_char(s: &mut String, c: char)
    ensures
        final(s)@ == old(s)@.push(c),
{
    s.push(c);
}

/// The characters of `s`, in order.
pub fn chars_of(s: &str) -> (r: Vec<char>)
    ensures
        r@ == s@,
{
    let n = s.unicode_len();
    let mut r: Vec<char> = Vec::new();
    let mut i: usize = 0;
    while i < n
        invariant
            n == s@.len(),
            i <= n,
            r@ == s@.subrange(0, i as int),
        decreases n - i,
    {
        r.push(s.get_char(i));
        i = i + 1;
        assert(r@ =~= s@.subrange(0, i as int));
    }
    assert(r@ =~= s@);
    r
}

/// Appends `v[from..to]` to `out`.
pub fn append_range(out: &mut String, v: &Vec<char>, from: usize, to: usize)
    requires
        from <= to <= v@.len(),
    ensures
        final(out)@ == old(out)@ + v@.subrange(from as int, to as int),
{
    let mut i: usize = from;
    while i < to
        invariant
            from <= i <= to <= v@.len(),
            out@ == old(out)@ + v@.subrange(from as int, i as int),
        decreases to - i,
    {
        push_char(out, v[i]);
        i = i + 1;
        assert(out@ =~= old(out)@ + v@.subrange(from as int, i as int));
    }
}

/// Whether two strings hold the same characters.
pub fn str_eq(a: &str, b: &str) -> (r: bool)
    ensures
        r == (a@ == b@),
{
    let n = a.unicode_len();
    if n != b.unicode_len() {
        return false;
    }
    let mut i: usize = 0;
    while i < n
        invariant
            n == a@.len() == b@.len(),
            i <= n,
            forall|j: int| 0 <= j < i ==> a@[j] == b@[j],
        decreases n - i,
    {
        if a.get_char(i) != b.get_char(i) {
            return false;
        }
        i = i + 1;
    }
    assert(a@ =~= b@);
    true
}

/// The character for a decimal digit.
pub open spec fn digit_char(d: nat) -> char {
    if d == 0 { '0' }
    else if d == 1 { '1' }
    else if d == 2 { '2' }
    else if d == 3 { '3' }
    else if d == 4 { '4' }
    else if d == 5 { '5' }
    else if d == 6 { '6' }
    else if d == 7 { '7' }
    else if d == 8 { '8' }
    else { '9' }
}

/// Decimal digits of `n`, most significant first, without leading zeros.
pub open spec fn nat_digits(n: nat) -> Seq<char>
    decreases n,
{
    if n < 10 {
        seq![digit_char(n)]
    } else {
        nat_digits(n / 10).push(digit_char(n % 10))
    }
}

/// Decimal text of an integer, with a leading `-` when negative.
pub open spec fn int_decimal(n: int) -> Seq<char> {
    if n < 0 {
        seq!['-'] + nat_digits((-n) as nat)
    } else {
        nat_digits(n as nat)
    }
}

fn digit(d: u64) -> (c: char)
    requires
        d < 10,
    ensures
        c == digit_char(d as nat),
{
    if d == 0 { '0' }
    else if d == 1 { '1' }
    else if d == 2 { '2' }
    else if d == 3 { '3' }
    else if d == 4 { '4' }
    else if d == 5 { '5' }
    else if d == 6 { '6' }
    else if d == 7 { '7' }
    else if d == 8 { '8' }
    else { '9' }
}

fn push_digits(out: &mut String, n: u64)
    ensures
        final(out)@ == old(out)@ + nat_digits(n as nat),
    decreases n,
{
    if n >= 10 {
        push_digits(out, n / 10);
    }
    push_char(out, digit(n % 10));
    assert(final(out)@ =~= old(out)@ + nat_digits(n as nat));
}

/// Appends the decimal text of `n` to `out`.
pub fn push_decimal(out: &mut String, n: i64)
    ensures
        final(out)@ == old(out)@ + int_decimal(n as int),
{
    if n < 0 {
        push_char(out, '-');
        let m: u64 = (0i128 - n as i128) as u64;
        push_digits(out, m);
        assert(final(out)@ =~= old(out)@ + int_decimal(n as int));
    } else {
        push_digits(out, n as u64);
    }
}

proof fn lemma_nat_digits_shape(n: nat)
    ensures
        nat_digits(n).len() >= 1,
        forall|i: int| 0 <= i < nat_digits(n).len() ==> is_digit(#[trigger] nat_digits(n)[i]),
        n >= 10 ==> nat_digits(n).len() >= 2,
    decreases n,
{
    if n >= 10 {
        lemma_nat_digits_shape(n / 10);
    }
}

pub open spec fn is_digit(c: char) -> bool {
    '0' <= c <= '9'
}

proof fn lemma_nat_digits_injective(n: nat, m: nat)
    requires
        nat_digits(n) == nat_digits(m),
    ensures
        n == m,
    decreases n,
{
    lemma_nat_digits_shape(n);
    lemma_nat_digits_shape(m);
    if n >= 10 && m >= 10 {
        assert(nat_digits(n).drop_last() =~= nat_digits(n / 10));
        assert(nat_digits(m).drop_last() =~= nat_digits(m / 10));
        lemma_nat_digits_injective(n / 10, m / 10);
        assert(nat_digits(n).last() == digit_char(n % 10));
        assert(nat_digits(m).last() == digit_char(m % 10));
        assert(n % 10 == m % 10);
    } else if n < 10 && m < 10 {
        assert(nat_digits(n)[0] == digit_char(n));
        assert(nat_digits(m)[0] == digit_char(m));
    }
}

/// The decimal text of an integer holds no `:` and tells the integer apart
/// from every other.
pub proof fn lemma_int_decimal(n: int, m: int)
    ensures
        forall|i: int| 0 <= i < int_decimal(n).len() ==> #[trigger] int_decimal(n)[i] != ':',
        int_decimal(n) == int_decimal(m) ==> n == m,
{
    if n < 0 {
        lemma_nat_digits_shape((-n) as nat);
    } else {
        lemma_nat_digits_shape(n as nat);
    }
    if m < 0 {
        lemma_nat_digits_shape((-m) as nat);
    } else {
        lemma_nat_digits_shape(m as nat);
    }
    if int_decimal(n) == int_decimal(m) {
        if n < 0 && m < 0 {
            assert(nat_digits((-n) as nat) =~= int_decimal(n).drop_first());
            assert(nat_digits((-m) as nat) =~= int_decimal(m).drop_first());
            lemma_nat_digits_injective((-n) as nat, (-m) as nat);
        } else if n < 0 {
            assert(int_decimal(n)[0] == '-');
            assert(is_digit(nat_digits(m as nat)[0]));
        } else if m < 0 {
            assert(int_decimal(m)[0] == '-');
            assert(is_digit(nat_digits(n as nat)[0]));
        } else {
            lemma_nat_digits_injective(n as nat, m as nat);
        }
    }
}

/// Text of the form `decimal ++ ":" ++ rest` determines both the integer and the rest.
pub proof fn lemma_decimal_field(n: int, x: Seq<char>, m: int, y: Seq<char>)
    requires
        int_decimal(n) + seq![':'] + x == int_decimal(m) + seq![':'] + y,
    ensures
        n == m,
        x == y,
{
    lemma_int_decimal(n, m);
    lemma_int_decimal(m, n);
    let s = int_decimal(n) + seq![':'] + x;
    let ln = int_decimal(n).len() as int;
    let lm = int_decimal(m).len() as int;
    if ln < lm {
        assert(s[ln] == ':');
        assert(int_decimal(m)[ln] != ':');
    } else if lm < ln {
        assert(s[lm] == ':');
        assert(int_decimal(n)[lm] != ':');
    }
    assert(int_decimal(n) =~= s.subrange(0, ln));
    assert(int_decimal(m) =~= s.subrange(0, ln));
    assert(x =~= s.subrange(ln + 1, s.len() as int));
    assert(y =~= s.subrange(ln + 1, s.len() as int));
}

} // verus!
