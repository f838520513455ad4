//! Character-level helpers on strings: code point ordering, equality and
//! decimal formatting of integers.

use vstd::prelude::*;

verus! {

/// Lexicographic order on character sequences, comparing code points.
///
/// This is the order of Rust's `String`: UTF-8 encoding preserves code point
/// order, so comparing the encoded bytes and comparing the characters agree.
pub open spec fn chars_le(a: Seq<char>, b: Seq<char>) -> bool
    decreases a.len(),
{
    if a.len() == 0 {
        true
    } else if b.len() == 0 {
        false
    } else if a[0] != b[0] {
        (a[0] as int) < (b[0] as int)
    } else {
        chars_le(a.drop_first(), b.drop_first())
    }
}

/// `chars_le` is reflexive.
pub proof fn lemma_chars_le_reflexive(a: Seq<char>)
    ensures
        chars_le(a, a),
    decreases a.len(),
{
    if a.len() > 0 {
        lemma_chars_le_reflexive(a.drop_first());
    }
}

/// `chars_le` is transitive.
pub proof fn lemma_chars_le_transitive(a: Seq<char>, b: Seq<char>, c: Seq<char>)
    requires
        chars_le(a, b),
        chars_le(b, c),
    ensures
        chars_le(a, c),
    decreases a.len(),
{
    if a.len() > 0 && b.len() > 0 && c.len() > 0 {
        if a[0] == b[0] && b[0] == c[0] {
            lemma_chars_le_transitive(a.drop_first(), b.drop_first(), c.drop_first());
        }
    }
}

/// Any two sequences are ordered one way or the other.
pub proof fn lemma_chars_le_total(a: Seq<char>, b: Seq<char>)
    ensures
        chars_le(a, b) || chars_le(b, a),
    decreases a.len(),
{
    if a.len() > 0 && b.len() > 0 {
        if a[0] == b[0] {
            lemma_chars_le_total(a.drop_first(), b.drop_first());
        } else {
            assert((a[0] as int) != (b[0] as int));
        }
    }
}

/// Sequences ordered both ways are equal.
pub proof fn lemma_chars_le_antisymmetric(a: Seq<char>, b: Seq<char>)
    requires
        chars_le(a, b),
        chars_le(b, a),
    ensures
        a == b,
    decreases a.len(),
{
    if a.len() > 0 && b.len() > 0 {
        if a[0] == b[0] {
            lemma_chars_le_antisymmetric(a.drop_first(), b.drop_first());
            assert(a =~= seq![a[0]] + a.drop_first());
            assert(b =~= seq![b[0]] + b.drop_first());
        } else {
            assert((a[0] as int) != (b[0] as int));
        }
    } else {
        assert(a.len() == 0 && b.len() == 0);
        assert(a =~= b);
    }
}

/// The name order is the lexicographic order of code points: `a` comes no
/// later than `b` exactly when `a` is a prefix of `b`, or at the first
/// position where they differ `a` has the smaller code point.
pub proof fn lemma_chars_le_is_lexicographic(a: Seq<char>, b: Seq<char>)
    ensures
        chars_le(a, b) <==> (a.len() <= b.len() && a == b.take(a.len() as int)) || exists|i: int|
            0 <= i < a.len() && i < b.len() && a.take(i) == b.take(i) && (a[i] as int) < (
            #[trigger] b[i] as int),
    decreases a.len(),
{
    if a.len() == 0 {
        assert(a =~= b.take(0));
    } else if b.len() == 0 {
        assert(!(a.len() <= b.len()));
    } else if a[0] != b[0] {
        if a.len() <= b.len() && a == b.take(a.len() as int) {
            assert(a[0] == b.take(a.len() as int)[0]);
        }
        assert forall|i: int|
            0 <= i < a.len() && i < b.len() && a.take(i) == b.take(i) && (a[i] as int) < (
            #[trigger] b[i] as int) implies i == 0 by {
            if i > 0 {
                assert(a.take(i)[0] == b.take(i)[0]);
            }
        }
        if (a[0] as int) < (b[0] as int) {
            assert(a.take(0) =~= b.take(0));
            assert(0 < a.len() && 0 < b.len() && a.take(0) == b.take(0) && (a[0] as int) < (
            b[0] as int));
        }
    } else {
        let a1 = a.drop_first();
        let b1 = b.drop_first();
        lemma_chars_le_is_lexicographic(a1, b1);
        if a.len() <= b.len() && a == b.take(a.len() as int) {
            assert(a1 =~= b1.take(a1.len() as int));
        }
        if a1.len() <= b1.len() && a1 == b1.take(a1.len() as int) {
            assert forall|i: int| 0 <= i < a.len() implies #[trigger] a[i] == b.take(
                a.len() as int,
            )[i] by {
                if i > 0 {
                    assert(a[i] == a1[i - 1]);
                    assert(a1[i - 1] == b1.take(a1.len() as int)[i - 1]);
                }
            }
            assert(a =~= b.take(a.len() as int));
        }
        if exists|i: int|
            0 <= i < a1.len() && i < b1.len() && a1.take(i) == b1.take(i) && (a1[i] as int) < (
            #[trigger] b1[i] as int) {
            let i = choose|i: int|
                0 <= i < a1.len() && i < b1.len() && a1.take(i) == b1.take(i) && (a1[i] as int) < (
                #[trigger] b1[i] as int);
            assert(a.take(i + 1) =~= seq![a[0]] + a1.take(i));
            assert(b.take(i + 1) =~= seq![b[0]] + b1.take(i));
            assert(a[i + 1] == a1[i] && b[i + 1] == b1[i]);
        }
        if exists|i: int|
            0 <= i < a.len() && i < b.len() && a.take(i) == b.take(i) && (a[i] as int) < (
            #[trigger] b[i] as int) {
            let i = choose|i: int|
                0 <= i < a.len() && i < b.len() && a.take(i) == b.take(i) && (a[i] as int) < (
                #[trigger] b[i] as int);
            assert(i > 0);
            assert(a1.take(i - 1) =~= a.take(i).drop_first());
            assert(b1.take(i - 1) =~= b.take(i).drop_first());
            assert(a1[i - 1] == a[i] && b1[i - 1] == b[i]);
        }
    }
}

/// Two different characters are ordered by their code points.
pub proof fn lemma_chars_le_single(c1: char, c2: char)
    requires
        c1 != c2,
    ensures
        chars_le(seq![c1], seq![c2]) == ((c1 as int) < (c2 as int)),
{
    lemma_chars_le_is_lexicographic(seq![c1], seq![c2]);
    if (c1 as int) < (c2 as int) {
        assert(seq![c1].take(0) =~= seq![c2].take(0));
        assert(seq![c2][0] == c2);
    }
    if seq![c1] == seq![c2].take(1) {
        assert(seq![c1][0] == seq![c2].take(1)[0]);
    }
}

proof fn lemma_chars_le_skip(a: Seq<char>, b: Seq<char>, i: int)
    requires
        0 <= i < a.len(),
        i < b.len(),
        a[i] == b[i],
    ensures
        chars_le(a.skip(i), b.skip(i)) == chars_le(a.skip(i + 1), b.skip(i + 1)),
{
    assert(a.skip(i).drop_first() =~= a.skip(i + 1));
    assert(b.skip(i).drop_first() =~= b.skip(i + 1));
}

/// Whether `a` comes no later than `b` in code point order.
pub fn str_le(a: &str, b: &str) -> (r: bool)
    ensures
        r == chars_le(a@, b@),
{
    let la = a.unicode_len();
    let lb = b.unicode_len();
    let mut i: usize = 0;
    assert(a@.skip(0) =~= a@);
    assert(b@.skip(0) =~= b@);
    while i < la && i < lb
        invariant
            la == a@.len(),
            lb == b@.len(),
            i <= la,
            i <= lb,
            chars_le(a@, b@) == chars_le(a@.skip(i as int), b@.skip(i as int)),
        decreases la - i,
    {
        let ca = a.get_char(i);
        let cb = b.get_char(i);
        if ca != cb {
            assert(a@.skip(i as int)[0] == ca);
            assert(b@.skip(i as int)[0] == cb);
            return (ca as u32) < (cb as u32);
        }
        proof {
            lemma_chars_le_skip(a@, b@, i as int);
        }
        i = i + 1;
    }
    i == la
}

/// Whether two strings hold the same characters.
pub fn str_eq(a: &str, b: &str) -> (r: bool)
    ensures
        r == (a@ == b@),
{
    let la = a.unicode_len();
    let lb = b.unicode_len();
    if la != lb {
        return false;
    }
    let mut i: usize = 0;
    while i < la
        invariant
            la == a@.len(),
            lb == b@.len(),
            la == lb,
            i <= la,
            forall|j: int| 0 <= j < i ==> a@[j] == b@[j],
        decreases la - i,
    {
        if a.get_char(i) != b.get_char(i) {
            return false;
        }
        i = i + 1;
    }
    assert(a@ =~= b@);
    true
}

/// The character of a decimal digit.
pub open spec fn digit_char(d: nat) -> char {
    if d == 0 {
        '0'
    } else if d == 1 {
        '1'
    } else if d == 2 {
        '2'
    } else if d == 3 {
        '3'
    } else if d == 4 {
        '4'
    } else if d == 5 {
        '5'
    } else if d == 6 {
        '6'
    } else if d == 7 {
        '7'
    } else if d == 8 {
        '8'
    } else {
        '9'
    }
}

/// The decimal digits of a natural number, most significant first, without
/// leading zeros (zero itself is written `0`).
pub open spec fn decimal_digits(n: nat) -> Seq<char>
    decreases n,
{
    if n < 10 {
        seq![digit_char(n)]
    } else {
        decimal_digits(n / 10).push(digit_char(n % 10))
    }
}

/// An integer written in decimal, as `Display` writes it: a minus sign for
/// negative numbers, then the digits of the magnitude.
pub open spec fn decimal(x: int) -> Seq<char> {
    if x < 0 {
        seq!['-'] + decimal_digits((-x) as nat)
    } else {
        decimal_digits(x as nat)
    }
}

/// The number that a string of decimal digits denotes, read most significant
/// digit first, each digit counting by its distance from `0` in code points.
pub open spec fn digits_value(s: Seq<char>) -> int
    decreases s.len(),
{
    if s.len() == 0 {
        0
    } else {
        10 * digits_value(s.drop_last()) + ((s.last() as int) - ('0' as int))
    }
}

/// Whether a character is one of `0` to `9`.
pub open spec fn is_digit(c: char) -> bool {
    ('0' as int) <= (c as int) <= ('9' as int)
}

proof fn lemma_digit_char_code(d: nat)
    requires
        d < 10,
    ensures
        (digit_char(d) as int) == ('0' as int) + d,
{
    assert(('0' as int) == 48);
    if d == 0 {
    } else if d == 1 {
        assert(('1' as int) == 49);
    } else if d == 2 {
        assert(('2' as int) == 50);
    } else if d == 3 {
        assert(('3' as int) == 51);
    } else if d == 4 {
        assert(('4' as int) == 52);
    } else if d == 5 {
        assert(('5' as int) == 53);
    } else if d == 6 {
        assert(('6' as int) == 54);
    } else if d == 7 {
        assert(('7' as int) == 55);
    } else if d == 8 {
        assert(('8' as int) == 56);
    } else {
        assert(('9' as int) == 57);
    }
}

/// Decimal digits are digits, do not start with `0` unless the number is 0,
/// and denote the number they were written for.
pub proof fn lemma_decimal_digits_denote(n: nat)
    ensures
        decimal_digits(n).len() > 0,
        forall|i: int| 0 <= i < decimal_digits(n).len() ==> #[trigger] is_digit(
            decimal_digits(n)[i],
        ),
        n > 0 ==> decimal_digits(n)[0] != '0',
        digits_value(decimal_digits(n)) == n,
    decreases n,
{
    assert(('0' as int) == 48 && ('9' as int) == 57);
    lemma_digit_char_code(n % 10);
    if n >= 10 {
        lemma_decimal_digits_denote(n / 10);
        let d = decimal_digits(n);
        assert(d.drop_last() =~= decimal_digits(n / 10));
        assert(d.last() == digit_char(n % 10));
        assert(d[0] == decimal_digits(n / 10)[0]);
        assert(digits_value(d) == 10 * digits_value(d.drop_last()) + ((d.last() as int) - (
        '0' as int)));
        assert(n == 10 * (n / 10) + n % 10);
    } else {
        let d = decimal_digits(n);
        assert(d.drop_last() =~= Seq::<char>::empty());
        assert(digits_value(d.drop_last()) == 0);
        assert(d.last() == digit_char(n));
        assert(n % 10 == n);
    }
}

/// An integer written in decimal reads back as that integer: a leading `-`
/// exactly for negative numbers, then the digits of its magnitude. Different
/// integers are written differently.
pub proof fn lemma_decimal_denotes(x: int, y: int)
    ensures
        decimal(x).len() > 0,
        (decimal(x)[0] == '-') == (x < 0),
        x < 0 ==> digits_value(decimal(x).drop_first()) == -x,
        x >= 0 ==> digits_value(decimal(x)) == x,
        x != y ==> decimal(x) != decimal(y),
{
    lemma_decimal_digits_denote(if x < 0 { (-x) as nat } else { x as nat });
    lemma_decimal_digits_denote(if y < 0 { (-y) as nat } else { y as nat });
    assert(('0' as int) == 48 && ('-' as int) == 45);
    if x < 0 {
        assert(decimal(x).drop_first() =~= decimal_digits((-x) as nat));
    } else {
        assert(is_digit(decimal(x)[0]));
    }
    if y < 0 {
        assert(decimal(y).drop_first() =~= decimal_digits((-y) as nat));
    } else {
        assert(is_digit(decimal(y)[0]));
    }
}

fn digit_str(d: u32) -> (s: &'static str)
    requires
        d < 10,
    ensures
        s@ == seq![digit_char(d as nat)],
{
    if d == 0 {
        proof { reveal_strlit("0"); }
        "0"
    } else if d == 1 {
        proof { reveal_strlit("1"); }
        "1"
    } else if d == 2 {
        proof { reveal_strlit("2"); }
        "2"
    } else if d == 3 {
        proof { reveal_strlit("3"); }
        "3"
    } else if d == 4 {
        proof { reveal_strlit("4"); }
        "4"
    } else if d == 5 {
        proof { reveal_strlit("5"); }
        "5"
    } else if d == 6 {
        proof { reveal_strlit("6"); }
        "6"
    } else if d == 7 {
        proof { reveal_strlit("7"); }
        "7"
    } else if d == 8 {
        proof { reveal_strlit("8"); }
        "8"
    } else {
        proof { reveal_strlit("9"); }
        "9"
    }
}

fn push_decimal_digits(out: &mut String, n: u32)
    ensures
        final(out)@ == old(out)@ + decimal_digits(n as nat),
    decreases n,
{
    if n >= 10 {
        push_decimal_digits(out, n / 10);
    }
    out.append(digit_str(n % 10));
    proof {
        if n >= 10 {
            assert(decimal_digits(n as nat) == decimal_digits((n / 10) as nat).push(
                digit_char((n % 10) as nat),
            ));
        }
    }
    assert(final(out)@ =~= old(out)@ + decimal_digits(n as nat));
}

/// Appends `x` written in decimal.
pub fn push_decimal(out: &mut String, x: i32)
    ensures
        final(out)@ == old(out)@ + decimal(x as int),
{
    if x < 0 {
        proof { reveal_strlit("-"); }
        out.append("-");
        let magnitude: u32 = (0i64 - (x as i64)) as u32;
        push_decimal_digits(out, magnitude);
        assert(final(out)@ =~= old(out)@ + decimal(x as int));
    } else {
        push_decimal_digits(out, x as u32);
    }
}

} // verus!
