//! Decimal text for whole numbers and for money amounts.
//!
//! Money is carried as a signed count of cents; its text form is the usual
//! two-decimal notation, `-125.53` for -12553 cents.

use vstd::prelude::*;

verus! {

/// Largest admitted magnitude of a money amount, in cents.
pub const MAX_CENTS: i64 = 999_999_999_999_999;

/// True for the ten decimal digit characters.
pub open spec fn is_digit(c: char) -> bool {
    c == '0' || c == '1' || c == '2' || c == '3' || c == '4' || c == '5' || c == '6' || c == '7'
        || c == '8' || c == '9'
}

/// The numeric value of a digit character.
pub open spec fn digit_val(c: char) -> int {
    if c == '0' {
        0
    } else if c == '1' {
        1
    } else if c == '2' {
        2
    } else if c == '3' {
        3
    } else if c == '4' {
        4
    } else if c == '5' {
        5
    } else if c == '6' {
        6
    } else if c == '7' {
        7
    } else if c == '8' {
        8
    } else {
        9
    }
}

/// The digit character of a value below ten.
pub open spec fn digit_char(d: int) -> char {
    if d == 0 {
        '0'
    } else if d == 1 {
        '1'
    } else if d == 2 {
        '2'
    } else if d == 3 {
        '3'
    } else if d == 4 {
        '4'
    } else if d == 5 {
        '5'
    } else if d == 6 {
        '6'
    } else if d == 7 {
        '7'
    } else if d == 8 {
        '8'
    } else {
        '9'
    }
}

proof fn lemma_digit_char_val(d: int)
    requires
        0 <= d <= 9,
    ensures
        is_digit(digit_char(d)),
        digit_val(digit_char(d)) == d,
{
}

/// The decimal digits of `n`, most significant first.
pub open spec fn digits_of(n: nat) -> Seq<char>
    decreases n,
{
    if n < 10 {
        seq![digit_char(n as int)]
    } else {
        digits_of(n / 10).push(digit_char((n % 10) as int))
    }
}

/// The value of a digit sequence, read left to right.
pub open spec fn val_of(s: Seq<char>) -> int
    decreases s.len(),
{
    if s.len() == 0 {
        0
    } else {
        val_of(s.drop_last()) * 10 + digit_val(s.last())
    }
}

/// Every character of `s` is a digit.
pub open spec fn all_digits(s: Seq<char>) -> bool {
    forall|i: int| 0 <= i < s.len() ==> is_digit(s[i])
}

pub proof fn lemma_digits_of_val(n: nat)
    ensures
        all_digits(digits_of(n)),
        val_of(digits_of(n)) == n,
        1 <= digits_of(n).len(),
        n < 10 ==> digits_of(n).len() == 1,
    decreases n,
{
    if n < 10 {
        lemma_digit_char_val(n as int);
        assert(digits_of(n).drop_last() =~= Seq::<char>::empty());
        assert(digits_of(n).last() == digit_char(n as int));
        assert(val_of(digits_of(n)) == val_of(Seq::<char>::empty()) * 10 + digit_val(
            digit_char(n as int),
        ));
        assert(val_of(digits_of(n)) == n);
        assert(all_digits(digits_of(n)));
        assert(digits_of(n).len() == 1);
    } else {
        lemma_digits_of_val(n / 10);
        lemma_digit_char_val((n % 10) as int);
        assert(digits_of(n).drop_last() =~= digits_of(n / 10));
        assert(digits_of(n).last() == digit_char((n % 10) as int));
        assert(val_of(digits_of(n)) == val_of(digits_of(n / 10)) * 10 + digit_val(
            digit_char((n % 10) as int),
        ));
        vstd::arithmetic::div_mod::lemma_fundamental_div_mod(n as int, 10);
        assert(forall|i: int|
            0 <= i < digits_of(n).len() ==> is_digit(#[trigger] digits_of(n)[i]));
    }
}

/// A digit sequence never has a negative value.
pub proof fn lemma_val_of_nonneg(s: Seq<char>)
    requires
        all_digits(s),
    ensures
        val_of(s) >= 0,
    decreases s.len(),
{
    if s.len() > 0 {
        assert(all_digits(s.drop_last()));
        lemma_val_of_nonneg(s.drop_last());
        assert(is_digit(s.last()));
        assert(val_of(s.drop_last()) * 10 >= 0) by (nonlinear_arith)
            requires val_of(s.drop_last()) >= 0;
    }
}

/// Splitting a digit text splits its value by a power of ten.
pub proof fn lemma_val_of_concat(a: Seq<char>, b: Seq<char>)
    ensures
        val_of(a + b) == val_of(a) * pow10(b.len()) + val_of(b),
    decreases b.len(),
{
    if b.len() == 0 {
        assert(a + b =~= a);
        assert(pow10(b.len()) == 1);
        assert(val_of(b) == 0);
        assert(val_of(a) * 1 == val_of(a)) by (nonlinear_arith);
        assert(val_of(a + b) == val_of(a) * pow10(b.len()) + val_of(b));
    } else {
        lemma_val_of_concat(a, b.drop_last());
        assert((a + b).drop_last() =~= a + b.drop_last());
        assert((a + b).last() == b.last());
        let va = val_of(a);
        let p = pow10((b.len() - 1) as nat);
        let vbd = val_of(b.drop_last());
        let pi = p as int;
        assert(val_of(a + b) == (va * pi + vbd) * 10 + digit_val(b.last()));
        assert((va * pi + vbd) * 10 == va * (10 * pi) + vbd * 10) by (nonlinear_arith);
        assert(pow10(b.len()) == 10 * p);
        assert(val_of(b) == vbd * 10 + digit_val(b.last()));
        assert(va * pow10(b.len()) == va * (10 * pi)) by {
            assert(pow10(b.len()) as int == 10 * pi);
        }
        assert(val_of(a + b) == va * (10 * pi) + vbd * 10 + digit_val(b.last()));
        assert(val_of(a + b) == va * pow10(b.len()) + val_of(b));
    }
}

/// Ten to the `k` is positive.
pub proof fn lemma_pow10_pos(k: nat)
    ensures
        pow10(k) >= 1,
    decreases k,
{
    if k > 0 {
        lemma_pow10_pos((k - 1) as nat);
    }
}

/// A digit text is worth at least any of its prefixes.
pub proof fn lemma_val_of_le_concat(a: Seq<char>, b: Seq<char>)
    requires
        all_digits(a),
        all_digits(b),
    ensures
        val_of(a) <= val_of(a + b),
    decreases b.len(),
{
    lemma_val_of_concat(a, b);
    lemma_val_of_nonneg(a);
    lemma_val_of_nonneg(b);
    lemma_pow10_pos(b.len());
    assert(val_of(a) <= val_of(a) * pow10(b.len())) by (nonlinear_arith)
        requires
            val_of(a) >= 0,
            pow10(b.len()) >= 1,
    ;
}

/// Ten to the `k`.
pub open spec fn pow10(k: nat) -> nat
    decreases k,
{
    if k == 0 {
        1
    } else {
        10 * pow10((k - 1) as nat)
    }
}

/// Digit text never holds a line break.
pub proof fn lemma_digits_no_nl(n: nat)
    ensures
        crate::text::no_nl(digits_of(n)),
{
    lemma_digits_of_val(n);
    assert forall|i: int| 0 <= i < digits_of(n).len() implies digits_of(n)[i] != '\n' by {
        assert(is_digit(digits_of(n)[i]));
    }
}

/// Money text never holds a line break.
pub proof fn lemma_enc_money_no_nl(m: int)
    ensures
        crate::text::no_nl(enc_money(m)),
{
    let a = if m < 0 {
        (-m) as nat
    } else {
        m as nat
    };
    lemma_digits_no_nl(a / 100);
    let tail = seq!['.', digit_char(((a / 10) % 10) as int), digit_char((a % 10) as int)];
    assert(crate::text::no_nl(tail)) by {
        lemma_digit_char_val(((a / 10) % 10) as int);
        lemma_digit_char_val((a % 10) as int);
        assert(is_digit(tail[1]) && is_digit(tail[2]));
    }
    crate::text::lemma_no_nl_concat(digits_of(a / 100), tail);
    if m < 0 {
        crate::text::lemma_no_nl_concat(seq!['-'], enc_money_mag(a));
    }
}

/// Listing totals stay far inside the wide integer range: at most one
/// amount per row is added to each slot.
pub proof fn lemma_bound_step(i: int, n: int)
    requires
        0 <= i,
        i < n,
        n <= 18446744073709551615,
    ensures
        MAX_CENTS * (i + 2) < 170141183460469231731687303715884105727int,
        -(MAX_CENTS * (i + 2)) > -170141183460469231731687303715884105727int,
        MAX_CENTS * (i + 1) + MAX_CENTS == MAX_CENTS * (i + 2),
{
    assert(MAX_CENTS * (i + 2) <= MAX_CENTS * 18446744073709551617) by (nonlinear_arith)
        requires
            0 <= i,
            i + 2 <= 18446744073709551617,
    ;
}

/// The end of the run of digit characters that starts at `i`.
pub open spec fn run_end(s: Seq<char>, i: int) -> int
    decreases s.len() - i when 0 <= i <= s.len()
{
    if i < s.len() && is_digit(s[i]) {
        run_end(s, i + 1)
    } else {
        i
    }
}

/// What `run_end` delimits: a maximal run of digits.
pub proof fn lemma_run_end(s: Seq<char>, i: int)
    requires
        0 <= i <= s.len(),
    ensures
        i <= run_end(s, i) <= s.len(),
        forall|j: int| i <= j < run_end(s, i) ==> is_digit(s[j]),
        run_end(s, i) == s.len() || !is_digit(s[run_end(s, i)]),
    decreases s.len() - i,
{
    if i < s.len() && is_digit(s[i]) {
        lemma_run_end(s, i + 1);
    }
}

/// A run of digits closed off by a non-digit is exactly what `run_end` finds.
pub proof fn lemma_run_end_of(s: Seq<char>, i: int, e: int)
    requires
        0 <= i <= e <= s.len(),
        forall|j: int| i <= j < e ==> is_digit(s[j]),
        e == s.len() || !is_digit(s[e]),
    ensures
        run_end(s, i) == e,
    decreases e - i,
{
    if i < e {
        lemma_run_end_of(s, i + 1, e);
    }
}

/// Reads the digit run that starts at `i` as a number, refusing values
/// beyond `MAX_CENTS`.
pub fn parse_digit_run(s: &[char], i: usize) -> (r: Option<(u64, usize)>)
    requires
        i <= s@.len(),
    ensures
        match r {
            Some(p) => {
                &&& p.1 as int == run_end(s@, i as int)
                &&& i < p.1 <= s@.len()
                &&& p.0 as int == val_of(s@.subrange(i as int, p.1 as int))
                &&& p.0 <= MAX_CENTS as u64
            },
            None => run_end(s@, i as int) == i || val_of(
                s@.subrange(i as int, run_end(s@, i as int)),
            ) > MAX_CENTS as int,
        },
{
    proof {
        lemma_run_end(s@, i as int);
    }
    let ghost e = run_end(s@, i as int);
    let n = s.len();
    let mut j: usize = i;
    let mut acc: u64 = 0;
    let mut any = false;
    while j < n && digit_at(s, j)
        invariant
            i <= j <= n,
            n == s@.len(),
            run_end(s@, i as int) == e,
            i <= e <= n,
            forall|k: int| i <= k < e ==> is_digit(s@[k]),
            e == s@.len() || !is_digit(s@[e as int]),
            forall|k: int| i <= k < j ==> is_digit(s@[k]),
            j <= e,
            acc as int == val_of(s@.subrange(i as int, j as int)),
            acc <= MAX_CENTS as u64,
            any == (j != i),
        decreases n - j,
    {
        let d = match digit_of(s[j]) {
            Some(d) => d,
            None => {
                proof {
                    assert(false);
                }
                0
            },
        };
        proof {
            assert(s@.subrange(i as int, j as int + 1).drop_last() =~= s@.subrange(
                i as int,
                j as int,
            ));
            if j + 1 > e {
                assert(is_digit(s@[e as int]));
                assert(false);
            }
        }
        if acc > 99_999_999_999_999u64 {
            proof {
                let pre = s@.subrange(i as int, j as int + 1);
                let post = s@.subrange(j as int + 1, e as int);
                assert(all_digits(pre));
                assert(all_digits(post));
                lemma_val_of_le_concat(pre, post);
                assert(pre + post =~= s@.subrange(i as int, e as int));
                assert(val_of(pre) == acc * 10 + digit_val(s@[j as int]));
                assert(acc as int * 10 > MAX_CENTS as int) by (nonlinear_arith)
                    requires acc > 99_999_999_999_999u64;
            }
            return None;
        }
        acc = acc * 10 + (d as u64);
        j += 1;
        any = true;
    }
    proof {
        if j < e {
            assert(is_digit(s@[j as int]));
            assert(false);
        }
        assert(j == e);
    }
    if any {
        Some((acc, j))
    } else {
        None
    }
}

/// Digit test at an index of a character slice.
pub fn digit_at(s: &[char], j: usize) -> (b: bool)
    requires
        j < s@.len(),
    ensures
        b == is_digit(s@[j as int]),
{
    digit_of(s[j]).is_some()
}

/// The numeric value of a digit character, if it is one.
pub fn digit_of(c: char) -> (r: Option<u8>)
    ensures
        match r {
            Some(d) => is_digit(c) && d as int == digit_val(c) && d <= 9,
            None => !is_digit(c),
        },
{
    match c {
        '0' => Some(0),
        '1' => Some(1),
        '2' => Some(2),
        '3' => Some(3),
        '4' => Some(4),
        '5' => Some(5),
        '6' => Some(6),
        '7' => Some(7),
        '8' => Some(8),
        '9' => Some(9),
        _ => None,
    }
}

/// The digit character of a small value.
pub fn digit_to_char(d: u8) -> (r: char)
    requires
        d <= 9,
    ensures
        r == digit_char(d as int),
{
    match d {
        0 => '0',
        1 => '1',
        2 => '2',
        3 => '3',
        4 => '4',
        5 => '5',
        6 => '6',
        7 => '7',
        8 => '8',
        _ => '9',
    }
}

/// The digit text of an unsigned value.
pub fn u64_digits(n: u64) -> (r: Vec<char>)
    ensures
        r@ == digits_of(n as nat),
    decreases n,
{
    let d = (n % 10) as u8;
    let c: char = match d {
        0 => '0',
        1 => '1',
        2 => '2',
        3 => '3',
        4 => '4',
        5 => '5',
        6 => '6',
        7 => '7',
        8 => '8',
        _ => '9',
    };
    if n < 10 {
        let mut v: Vec<char> = Vec::new();
        v.push(c);
        assert(v@ =~= digits_of(n as nat));
        v
    } else {
        let mut v = u64_digits(n / 10);
        v.push(c);
        assert(v@ =~= digits_of(n as nat));
        v
    }
}

/// The two-decimal text of an unsigned count of cents.
pub open spec fn enc_money_mag(a: nat) -> Seq<char> {
    digits_of(a / 100) + seq![
        '.',
        digit_char(((a / 10) % 10) as int),
        digit_char((a % 10) as int),
    ]
}

/// The two-decimal text of a signed count of cents.
pub open spec fn enc_money(m: int) -> Seq<char> {
    if m < 0 {
        seq!['-'] + enc_money_mag((-m) as nat)
    } else {
        enc_money_mag(m as nat)
    }
}

/// Renders a count of cents in the two-decimal notation.
pub fn money_to_chars(m: i64) -> (r: Vec<char>)
    requires
        -MAX_CENTS <= m <= MAX_CENTS,
    ensures
        r@ == enc_money(m as int),
{
    let mut v: Vec<char> = Vec::new();
    let a: u64 = if m < 0 {
        v.push('-');
        (-m) as u64
    } else {
        m as u64
    };
    let whole = u64_digits(a / 100);
    crate::text::push_all(&mut v, whole.as_slice());
    v.push('.');
    v.push(digit_to_char(((a / 10) % 10) as u8));
    v.push(digit_to_char((a % 10) as u8));
    proof {
        if m < 0 {
            assert(v@ =~= seq!['-'] + enc_money_mag((-m) as nat));
        } else {
            assert(v@ =~= enc_money_mag(m as nat));
        }
    }
    v
}

/// Reading a two-decimal money text, mirroring `parse_money`.
pub open spec fn spec_parse_money(s: Seq<char>, i: int) -> Option<(int, int)> {
    let neg = i < s.len() && s[i] == '-';
    let p = if neg {
        i + 1
    } else {
        i
    };
    let e = run_end(s, p);
    let whole = val_of(s.subrange(p, e));
    if e == p || whole > 9_999_999_999_999 {
        None
    } else if e + 3 <= s.len() && s[e] == '.' && is_digit(s[e + 1]) && is_digit(s[e + 2]) {
        let mag = whole * 100 + digit_val(s[e + 1]) * 10 + digit_val(s[e + 2]);
        Some(
            (
                if neg {
                    -mag
                } else {
                    mag
                },
                e + 3,
            ),
        )
    } else {
        None
    }
}

/// Reads a money value at position `i`; `None` on any other shape of text.
pub fn parse_money(s: &[char], i: usize) -> (r: Option<(i64, usize)>)
    requires
        i <= s@.len(),
    ensures
        match r {
            Some(p) => {
                &&& spec_parse_money(s@, i as int) == Some((p.0 as int, p.1 as int))
                &&& i < p.1 <= s@.len()
                &&& -MAX_CENTS <= p.0 <= MAX_CENTS
            },
            None => spec_parse_money(s@, i as int).is_none(),
        },
{
    let n = s.len();
    let neg = i < n && s[i] == '-';
    let p: usize = if neg {
        i + 1
    } else {
        i
    };
    proof {
        lemma_run_end(s@, p as int);
    }
    match parse_digit_run(s, p) {
        None => {
            proof {
                let e = run_end(s@, p as int);
                if e != p {
                    assert(val_of(s@.subrange(p as int, e)) > MAX_CENTS as int);
                }
            }
            None
        },
        Some((whole, e)) => {
            if whole > 9_999_999_999_999u64 {
                return None;
            }
            if n >= 3 && e <= n - 3 {
                let dot = s[e];
                if dot != '.' {
                    return None;
                }
                let d1 = match digit_of(s[e + 1]) {
                    Some(d) => d,
                    None => {
                        return None;
                    },
                };
                let d2 = match digit_of(s[e + 2]) {
                    Some(d) => d,
                    None => {
                        return None;
                    },
                };
                let mag: u64 = whole * 100 + (d1 as u64) * 10 + (d2 as u64);
                let v: i64 = if neg {
                    -(mag as i64)
                } else {
                    mag as i64
                };
                Some((v, e + 3))
            } else {
                None
            }
        },
    }
}

/// Parsing inverts rendering for money text.
pub proof fn lemma_parse_money_enc(s: Seq<char>, i: int, m: int)
    requires
        -MAX_CENTS <= m <= MAX_CENTS,
        0 <= i,
        i + enc_money(m).len() <= s.len(),
        s.subrange(i, i + enc_money(m).len() as int) == enc_money(m),
    ensures
        spec_parse_money(s, i) == Some((m, i + enc_money(m).len() as int)),
{
    let a = if m < 0 {
        (-m) as nat
    } else {
        m as nat
    };
    let w = a / 100;
    lemma_digits_of_val(w);
    let d = digits_of(w);
    let l = enc_money(m).len() as int;
    let p = if m < 0 {
        i + 1
    } else {
        i
    };
    assert(enc_money_mag(a).len() == d.len() + 3);
    // the character layout under the digits and the trailer
    assert forall|k: int| 0 <= k < d.len() implies s[p + k] == d[k] by {
        if m < 0 {
            assert(s[p + k] == enc_money(m)[1 + k]);
            assert(enc_money(m)[1 + k] == enc_money_mag(a)[k]);
        } else {
            assert(s[p + k] == enc_money(m)[k]);
        }
        assert(enc_money_mag(a)[k] == d[k]);
    }
    let e = p + d.len() as int;
    assert(s[e] == '.') by {
        if m < 0 {
            assert(s[e] == enc_money(m)[1 + d.len() as int]);
        } else {
            assert(s[e] == enc_money(m)[d.len() as int]);
        }
    }
    assert(s[e + 1] == digit_char(((a / 10) % 10) as int) && s[e + 2] == digit_char(
        (a % 10) as int,
    )) by {
        if m < 0 {
            assert(s[e + 1] == enc_money(m)[2 + d.len() as int]);
            assert(s[e + 2] == enc_money(m)[3 + d.len() as int]);
        } else {
            assert(s[e + 1] == enc_money(m)[d.len() as int + 1]);
            assert(s[e + 2] == enc_money(m)[d.len() as int + 2]);
        }
    }
    lemma_digit_char_val(((a / 10) % 10) as int);
    lemma_digit_char_val((a % 10) as int);
    if m < 0 {
        assert(s[i] == enc_money(m)[0]);
        assert(s[i] == '-');
    } else {
        assert(s[i] == enc_money(m)[0]);
        assert(s[i] == d[0]);
        assert(is_digit(s[i]));
        assert(s[i] != '-');
    }
    assert(s.subrange(p, e) =~= d);
    assert forall|j: int| p <= j < e implies is_digit(s[j]) by {
        assert(s[j] == d[j - p]);
    }
    lemma_run_end_of(s, p, e);
    assert(val_of(s.subrange(p, e)) == w);
    assert(w <= 9_999_999_999_999) by (nonlinear_arith)
        requires
            w == a / 100,
            a <= MAX_CENTS,
    ;
    assert(w * 100 + ((a / 10) % 10) * 10 + a % 10 == a) by (nonlinear_arith)
        requires w == a / 100;
    if m < 0 {
        assert(spec_parse_money(s, i) == Some((m, e + 3)));
        assert(e + 3 == i + l);
    } else {
        assert(spec_parse_money(s, i) == Some((m, e + 3)));
        assert(e + 3 == i + l);
    }
}

} // verus!
