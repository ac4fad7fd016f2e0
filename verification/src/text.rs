//! Text rendering used for event identifiers and contract ids: decimal
//! numbers and lower-case hexadecimal bytes, with their specifications.
use vstd::prelude::*;

verus! {

/// The ASCII digit for `d`, for `d < 10`.
pub open spec fn digit_char(d: nat) -> char {
    (48 + d) as char
}

/// The lower-case hexadecimal digit for `d`, for `d < 16`.
pub open spec fn hex_char(d: nat) -> char {
    if d < 10 {
        (48 + d) as char
    } else {
        (87 + d) as char
    }
}

/// Whether `c` is one of `0`..`9`.
pub open spec fn is_digit(c: char) -> bool {
    '0' <= c && c <= '9'
}

/// The decimal rendering of a natural number, without leading zeros.
pub open spec fn nat_decimal(n: nat) -> Seq<char>
    decreases n,
{
    if n < 10 {
        seq![digit_char(n)]
    } else {
        nat_decimal(n / 10).push(digit_char(n % 10))
    }
}

/// The decimal rendering of an integer: a `-` before negative numbers.
pub open spec fn int_decimal(n: int) -> Seq<char> {
    if n < 0 {
        seq!['-'] + nat_decimal((-n) as nat)
    } else {
        nat_decimal(n as nat)
    }
}

/// Two lower-case hexadecimal digits per byte, high nibble first.
pub open spec fn hex_lower(bytes: Seq<u8>) -> Seq<char>
    decreases bytes.len(),
{
    if bytes.len() == 0 {
        Seq::empty()
    } else {
        hex_lower(bytes.drop_last()) + seq![
            hex_char((bytes.last() / 16) as nat),
            hex_char((bytes.last() % 16) as nat),
        ]
    }
}

/// The number that a string of digits denotes.
pub open spec fn decimal_value(s: Seq<char>) -> int
    decreases s.len(),
{
    if s.len() == 0 {
        0
    } else {
        decimal_value(s.drop_last()) * 10 + (s.last() as int - 48)
    }
}

/// `String::push` of std: the string afterwards is the old one with `c` appended.
#[verifier::external_body]
pub(crate) fn push_char(s: &mut String, c: char)
    ensures
        final(s)@ == old(s)@.push(c),
{
    s.push(c);
}

fn digit(d: u64) -> (c: char)
    requires
        d < 10,
    ensures
        c == digit_char(d as nat),
{
    let b: u8 = 48u8 + (d as u8);
    b as char
}

fn hex_digit(d: u8) -> (c: char)
    requires
        d < 16,
    ensures
        c == hex_char(d as nat),
{
    if d < 10 {
        (48u8 + d) as char
    } else {
        (87u8 + d) as char
    }
}

/// Appends the decimal rendering of `n`.
pub fn push_decimal_u64(s: &mut String, n: u64)
    ensures
        final(s)@ == old(s)@ + nat_decimal(n as nat),
    decreases n,
{
    if n >= 10 {
        push_decimal_u64(s, n / 10);
    }
    let ghost mid = s@;
    push_char(s, digit(n % 10));
    proof {
        if n >= 10 {
            assert(nat_decimal(n as nat) == nat_decimal((n / 10) as nat).push(digit_char((n % 10) as nat)));
            assert(old(s)@ + nat_decimal(n as nat) =~= mid.push(digit_char((n % 10) as nat)));
        } else {
            assert(old(s)@ + nat_decimal(n as nat) =~= mid.push(digit_char((n % 10) as nat)));
        }
    }
}

/// Appends the decimal rendering of `n`, with a `-` before a negative number.
pub fn push_decimal_i64(s: &mut String, n: i64)
    ensures
        final(s)@ == old(s)@ + int_decimal(n as int),
{
    if n < 0 {
        push_char(s, '-');
        let ghost mid = s@;
        let m: u64 = if n == i64::MIN {
            9223372036854775808u64
        } else {
            (-n) as u64
        };
        push_decimal_u64(s, m);
        assert(old(s)@ + int_decimal(n as int) =~= mid + nat_decimal(m as nat));
    } else {
        push_decimal_u64(s, n as u64);
    }
}

/// Appends the lower-case hexadecimal rendering of `bytes`.
pub fn push_hex_lower(s: &mut String, bytes: &[u8])
    ensures
        final(s)@ == old(s)@ + hex_lower(bytes@),
{
    let ghost start = s@;
    let n = bytes.len();
    let mut i: usize = 0;
    assert(bytes@.take(0) =~= Seq::<u8>::empty());
    assert(start + hex_lower(bytes@.take(0)) =~= start);
    while i < n
        invariant
            n == bytes@.len(),
            i <= n,
            s@ == start + hex_lower(bytes@.take(i as int)),
        decreases n - i,
    {
        let b = bytes[i];
        let hi: u8 = b / 16;
        let lo: u8 = b % 16;
        push_char(s, hex_digit(hi));
        push_char(s, hex_digit(lo));
        proof {
            let t = bytes@.take(i + 1);
            assert(t.drop_last() =~= bytes@.take(i as int));
            assert(t.last() == b);
            assert(s@ =~= start + hex_lower(t));
        }
        i = i + 1;
    }
    assert(bytes@.take(n as int) =~= bytes@);
}

/// A decimal rendering is a non-empty string of digits that denotes the number.
pub proof fn lemma_nat_decimal(n: nat)
    ensures
        nat_decimal(n).len() >= 1,
        forall|i: int| 0 <= i < nat_decimal(n).len() ==> #[trigger] is_digit(nat_decimal(n)[i]),
        decimal_value(nat_decimal(n)) == n,
        n > 0 ==> nat_decimal(n)[0] != '0',
        n == 0 ==> nat_decimal(n) == seq!['0'],
    decreases n,
{
    let s = nat_decimal(n);
    if n >= 10 {
        lemma_nat_decimal(n / 10);
        assert(s[0] == nat_decimal(n / 10)[0]);
        assert(s.drop_last() =~= nat_decimal(n / 10));
        assert(s.last() == digit_char(n % 10));
        assert(n == (n / 10) * 10 + n % 10) by (nonlinear_arith);
        assert(decimal_value(s) == decimal_value(nat_decimal(n / 10)) * 10 + (n % 10));
    } else {
        assert(s.drop_last() =~= Seq::<char>::empty());
        assert(decimal_value(s.drop_last()) == 0);
        assert(decimal_value(s) == (s.last() as int - 48));
    }
}

/// Distinct natural numbers have distinct decimal renderings.
pub proof fn lemma_nat_decimal_injective(a: nat, b: nat)
    requires
        nat_decimal(a) == nat_decimal(b),
    ensures
        a == b,
{
    lemma_nat_decimal(a);
    lemma_nat_decimal(b);
}

/// The rendering of an integer holds no `_`, and distinct integers render differently.
pub proof fn lemma_int_decimal(a: int, b: int)
    ensures
        forall|i: int| 0 <= i < int_decimal(a).len() ==> #[trigger] int_decimal(a)[i] != '_',
        int_decimal(a) == int_decimal(b) ==> a == b,
{
    lemma_nat_decimal(if a < 0 { (-a) as nat } else { a as nat });
    lemma_nat_decimal(if b < 0 { (-b) as nat } else { b as nat });
    assert forall|i: int| 0 <= i < int_decimal(a).len() implies #[trigger] int_decimal(a)[i] != '_' by {
        if a < 0 {
            if i > 0 {
                assert(int_decimal(a)[i] == nat_decimal((-a) as nat)[i - 1]);
                assert(is_digit(nat_decimal((-a) as nat)[i - 1]));
            }
        } else {
            assert(is_digit(nat_decimal(a as nat)[i]));
        }
    }
    if int_decimal(a) == int_decimal(b) {
        let sa = int_decimal(a);
        if a < 0 && b < 0 {
            assert(sa.drop_first() =~= nat_decimal((-a) as nat));
            assert(int_decimal(b).drop_first() =~= nat_decimal((-b) as nat));
            lemma_nat_decimal_injective((-a) as nat, (-b) as nat);
        } else if a < 0 {
            assert(sa[0] == '-');
            assert(is_digit(nat_decimal(b as nat)[0]));
        } else if b < 0 {
            assert(int_decimal(b)[0] == '-');
            assert(is_digit(nat_decimal(a as nat)[0]));
        } else {
            lemma_nat_decimal_injective(a as nat, b as nat);
        }
    }
}

/// Two hexadecimal digits per byte.
pub proof fn lemma_hex_lower_len(bytes: Seq<u8>)
    ensures
        hex_lower(bytes).len() == 2 * bytes.len(),
    decreases bytes.len(),
{
    if bytes.len() > 0 {
        lemma_hex_lower_len(bytes.drop_last());
    }
}

/// Whether `c` is a lower-case hexadecimal digit.
pub open spec fn is_lower_hex(c: char) -> bool {
    ('0' <= c && c <= '9') || ('a' <= c && c <= 'f')
}

/// The value of a hexadecimal digit.
pub open spec fn hex_value(c: char) -> int {
    if c <= '9' {
        c as int - 48
    } else {
        c as int - 87
    }
}

proof fn lemma_hex_char(d: nat)
    requires
        d < 16,
    ensures
        is_lower_hex(hex_char(d)),
        hex_value(hex_char(d)) == d,
{
}

/// The lower-case hexadecimal rendering of bytes has two digits per byte,
/// each a lower-case hexadecimal digit, the first the high half of the byte
/// and the second the low half, so that the digits give the bytes back.
pub proof fn lemma_hex_lower_digits(bytes: Seq<u8>)
    ensures
        hex_lower(bytes).len() == 2 * bytes.len(),
        forall|i: int|
            0 <= i < bytes.len() ==> is_lower_hex(#[trigger] hex_lower(bytes)[2 * i]) && is_lower_hex(
                hex_lower(bytes)[2 * i + 1],
            ) && 16 * hex_value(hex_lower(bytes)[2 * i]) + hex_value(hex_lower(bytes)[2 * i + 1])
                == bytes[i],
    decreases bytes.len(),
{
    if bytes.len() > 0 {
        let init = bytes.drop_last();
        lemma_hex_lower_digits(init);
        let h = hex_lower(bytes);
        let g = hex_lower(init);
        let b = bytes.last();
        lemma_hex_char((b / 16) as nat);
        lemma_hex_char((b % 16) as nat);
        assert(16 * (b / 16) + b % 16 == b);
        assert forall|i: int| 0 <= i < bytes.len() implies is_lower_hex(#[trigger] h[2 * i])
            && is_lower_hex(h[2 * i + 1]) && 16 * hex_value(h[2 * i]) + hex_value(h[2 * i + 1])
            == bytes[i] by {
            if i < init.len() {
                assert(h[2 * i] == g[2 * i]);
                assert(h[2 * i + 1] == g[2 * i + 1]);
                assert(bytes[i] == init[i]);
            } else {
                assert(h[2 * i] == hex_char((b / 16) as nat));
                assert(h[2 * i + 1] == hex_char((b % 16) as nat));
            }
        }
    }
}

} // verus!
