//! Character-level building blocks: decimal and hexadecimal digits, zero
//! padding, and the conversions between `String`/`&str` and character vectors
//! that the formatting and parsing code of the library is built on.

use vstd::prelude::*;

verus! {

/// The character of a digit value below 16 (lower-case hexadecimal letters).
pub open spec fn digit_char(d: nat) -> char {
    if d == 0 { '0' }
    else if d == 1 { '1' }
    else if d == 2 { '2' }
    else if d == 3 { '3' }
    else if d == 4 { '4' }
    else if d == 5 { '5' }
    else if d == 6 { '6' }
    else if d == 7 { '7' }
    else if d == 8 { '8' }
    else if d == 9 { '9' }
    else if d == 10 { 'a' }
    else if d == 11 { 'b' }
    else if d == 12 { 'c' }
    else if d == 13 { 'd' }
    else if d == 14 { 'e' }
    else { 'f' }
}

/// Digits of `n` in base `base` (2..=16), most significant first, no leading
/// zeros; zero is written as a single `'0'`.
pub open spec fn digits(n: nat, base: nat) -> Seq<char>
    decreases n,
{
    if base < 2 || n < base {
        seq![digit_char(n % 16)]
    } else {
        proof {
            lemma_div_smaller(n, base);
        }
        digits(n / base, base).push(digit_char(n % base))
    }
}

/// Dividing by a base of at least 2 makes a number of at least that base smaller.
pub proof fn lemma_div_smaller(n: nat, base: nat)
    requires
        2 <= base <= n,
    ensures
        n / base < n,
{
    assert(n / base < n) by (nonlinear_arith)
        requires
            2 <= base <= n,
    ;
}

/// Decimal notation of `n`.
pub open spec fn decimal(n: nat) -> Seq<char> {
    digits(n, 10)
}

/// Lower-case hexadecimal notation of `n` (as `{:x}` writes it).
pub open spec fn hex(n: nat) -> Seq<char> {
    digits(n, 16)
}

/// `s` preceded by `'0'` characters up to a total length of at least `width`.
pub open spec fn zero_padded(s: Seq<char>, width: nat) -> Seq<char> {
    if s.len() >= width {
        s
    } else {
        Seq::new((width - s.len()) as nat, |i: int| '0') + s
    }
}

/// Decimal notation of `n`, zero-padded to `width` (as `{:0width$}` writes it).
pub open spec fn padded_decimal(n: nat, width: nat) -> Seq<char> {
    zero_padded(decimal(n), width)
}

/// Is `c` an ASCII decimal digit?
pub open spec fn is_digit(c: char) -> bool {
    '0' <= c && c <= '9'
}

/// Value of an ASCII decimal digit.
pub open spec fn digit_value(c: char) -> nat {
    (c as int - '0' as int) as nat
}

pub proof fn lemma_digits_len(n: nat, base: nat)
    requires
        2 <= base <= 16,
    ensures
        digits(n, base).len() >= 1,
    decreases n,
{
    if n >= base {
        lemma_div_smaller(n, base);
        lemma_digits_len(n / base, base);
    }
}

fn digit(d: u64) -> (c: char)
    requires
        d < 16,
    ensures
        c == digit_char(d as nat),
{
    match d {
        0 => '0',
        1 => '1',
        2 => '2',
        3 => '3',
        4 => '4',
        5 => '5',
        6 => '6',
        7 => '7',
        8 => '8',
        9 => '9',
        10 => 'a',
        11 => 'b',
        12 => 'c',
        13 => 'd',
        14 => 'e',
        _ => 'f',
    }
}

/// Appends the digits of `n` in base `base` to `out`.
pub fn push_digits(out: &mut Vec<char>, n: u64, base: u64)
    requires
        2 <= base <= 16,
    ensures
        final(out)@ == old(out)@ + digits(n as nat, base as nat),
    decreases n,
{
    if n >= base {
        proof {
            lemma_div_smaller(n as nat, base as nat);
        }
        push_digits(out, n / base, base);
    }
    out.push(digit(n % base));
    proof {
        if n < base {
            assert(n % base == n) by (nonlinear_arith)
                requires
                    n < base,
            ;
            assert(n as nat % 16 == n as nat);
        }
        assert(digits(n as nat, base as nat) =~= if n < base {
            seq![digit_char(n as nat % 16)]
        } else {
            digits(n as nat / base as nat, base as nat).push(digit_char(n as nat % base as nat))
        });
    }
}

/// Appends the decimal notation of a 128-bit `n` to `out`.
pub fn push_decimal_u128(out: &mut Vec<char>, n: u128)
    ensures
        final(out)@ == old(out)@ + decimal(n as nat),
    decreases n,
{
    if n >= 10 {
        proof {
            lemma_div_smaller(n as nat, 10);
        }
        push_decimal_u128(out, n / 10);
    }
    out.push(digit((n % 10) as u64));
    proof {
        if n < 10 {
            assert(n as nat % 16 == n as nat);
        }
        assert(decimal(n as nat) =~= if n < 10 {
            seq![digit_char(n as nat % 16)]
        } else {
            digits(n as nat / 10, 10).push(digit_char(n as nat % 10))
        });
    }
}

/// Appends the decimal notation of `n`, zero-padded to `width`, to `out`.
pub fn push_padded_decimal(out: &mut Vec<char>, n: u64, width: usize)
    ensures
        final(out)@ == old(out)@ + padded_decimal(n as nat, width as nat),
{
    let mut ds: Vec<char> = Vec::new();
    push_digits(&mut ds, n, 10);
    assert(ds@ =~= decimal(n as nat));
    let ghost start = out@;
    if ds.len() < width {
        let pad = width - ds.len();
        let mut i: usize = 0;
        while i < pad
            invariant
                i <= pad,
                out@ =~= start + Seq::new(i as nat, |k: int| '0'),
            decreases pad - i,
        {
            out.push('0');
            i = i + 1;
        }
    }
    let mut j: usize = 0;
    let ghost mid = out@;
    while j < ds.len()
        invariant
            j <= ds.len(),
            out@ =~= mid + ds@.subrange(0, j as int),
        decreases ds.len() - j,
    {
        out.push(ds[j]);
        j = j + 1;
    }
    proof {
        assert(ds@.subrange(0, ds@.len() as int) =~= ds@);
    }
}

/// Appends all characters of `s` to `out`.
pub fn push_str(out: &mut Vec<char>, s: &str)
    ensures
        final(out)@ == old(out)@ + s@,
{
    let n = s.unicode_len();
    let ghost start = out@;
    let mut i: usize = 0;
    while i < n
        invariant
            i <= n,
            n == s@.len(),
            out@ =~= start + s@.subrange(0, i as int),
        decreases n - i,
    {
        out.push(s.get_char(i));
        i = i + 1;
    }
    proof {
        assert(s@.subrange(0, n as int) =~= s@);
    }
}

/// The characters of `s` as a vector.
pub fn str_chars(s: &str) -> (v: Vec<char>)
    ensures
        v@ == s@,
{
    let mut v: Vec<char> = Vec::new();
    push_str(&mut v, s);
    assert(v@ =~= s@);
    v
}

/// Builds a `String` from characters: `std`'s `String: FromIterator<char>`,
/// which (by its documentation) concatenates the characters in order.
#[verifier::external_body]
pub fn string_from_chars(v: &Vec<char>) -> (s: String)
    ensures
        s@ == v@,
{
    v.iter().collect()
}

/// `a` and `b` hold the same characters.
pub fn chars_eq(a: &Vec<char>, b: &Vec<char>) -> (r: bool)
    ensures
        r == (a@ == b@),
{
    if a.len() != b.len() {
        return false;
    }
    let mut i: usize = 0;
    while i < a.len()
        invariant
            i <= a.len(),
            a.len() == b.len(),
            forall|k: int| 0 <= k < i ==> a@[k] == b@[k],
        decreases a.len() - i,
    {
        if a[i] != b[i] {
            return false;
        }
        i = i + 1;
    }
    assert(a@ =~= b@);
    true
}

/// `a` and `b` are the same text.
pub fn str_eq(a: &str, b: &str) -> (r: bool)
    ensures
        r == (a@ == b@),
{
    let va = str_chars(a);
    let vb = str_chars(b);
    chars_eq(&va, &vb)
}

/// The texts of a list of strings.
pub open spec fn strs_view(v: Seq<String>) -> Seq<Seq<char>> {
    v.map_values(|x: String| x@)
}

/// `i` is the first position of `s` in `v`.
pub open spec fn is_first_match(v: Seq<Seq<char>>, s: Seq<char>, i: int) -> bool {
    0 <= i < v.len() && v[i] == s && forall|k: int| 0 <= k < i ==> v[k] != s
}

/// First position of `s` in `v`.
pub fn find_str(v: &Vec<String>, s: &str) -> (r: Option<usize>)
    ensures
        match r {
            Some(i) => is_first_match(strs_view(v@), s@, i as int),
            None => !strs_view(v@).contains(s@),
        },
{
    let mut i: usize = 0;
    while i < v.len()
        invariant
            i <= v@.len(),
            forall|k: int| 0 <= k < i ==> strs_view(v@)[k] != s@,
        decreases v.len() - i,
    {
        if str_eq(v[i].as_str(), s) {
            return Some(i);
        }
        i = i + 1;
    }
    proof {
        assert forall|k: int| 0 <= k < strs_view(v@).len() implies strs_view(v@)[k] != s@ by {}
    }
    None
}

/// `a` and `b` hold the same texts in the same order.
pub fn strs_eq(a: &Vec<String>, b: &Vec<String>) -> (r: bool)
    ensures
        r == (strs_view(a@) == strs_view(b@)),
{
    if a.len() != b.len() {
        assert(strs_view(a@).len() != strs_view(b@).len());
        return false;
    }
    let mut i: usize = 0;
    while i < a.len()
        invariant
            i <= a@.len() == b@.len(),
            forall|k: int| 0 <= k < i ==> strs_view(a@)[k] == strs_view(b@)[k],
        decreases a.len() - i,
    {
        if !str_eq(a[i].as_str(), b[i].as_str()) {
            assert(strs_view(a@)[i as int] != strs_view(b@)[i as int]);
            return false;
        }
        i = i + 1;
    }
    assert(strs_view(a@) =~= strs_view(b@));
    true
}

/// `a` comes before `b` in the lexicographic order of their characters
/// (the order of `str`'s `Ord`, which compares the UTF-8 bytes: for valid
/// text that is the order of the code points).
pub open spec fn lex_lt(a: Seq<char>, b: Seq<char>) -> bool
    decreases a.len(),
{
    if a.len() == 0 {
        b.len() > 0
    } else if b.len() == 0 {
        false
    } else if a[0] != b[0] {
        a[0] < b[0]
    } else {
        lex_lt(a.drop_first(), b.drop_first())
    }
}

/// No text comes before itself, and of two texts at most one comes first.
pub proof fn lex_lt_asymmetric(a: Seq<char>, b: Seq<char>)
    ensures
        !(lex_lt(a, b) && lex_lt(b, a)),
        !lex_lt(a, a),
    decreases a.len(),
{
    if a.len() > 0 && b.len() > 0 && a[0] == b[0] {
        lex_lt_asymmetric(a.drop_first(), b.drop_first());
    }
    if a.len() > 0 {
        lex_lt_asymmetric(a.drop_first(), a.drop_first());
    }
}

/// Of two different texts one comes first.
pub proof fn lex_lt_total(a: Seq<char>, b: Seq<char>)
    ensures
        lex_lt(a, b) || a == b || lex_lt(b, a),
    decreases a.len(),
{
    if a.len() > 0 && b.len() > 0 && a[0] == b[0] {
        lex_lt_total(a.drop_first(), b.drop_first());
        if a.drop_first() == b.drop_first() {
            assert(a =~= seq![a[0]] + a.drop_first());
            assert(b =~= seq![b[0]] + b.drop_first());
        }
    } else if a.len() == 0 && b.len() == 0 {
        assert(a =~= b);
    }
}

/// The order is transitive.
pub proof fn lex_lt_transitive(a: Seq<char>, b: Seq<char>, c: Seq<char>)
    requires
        lex_lt(a, b),
        lex_lt(b, c),
    ensures
        lex_lt(a, c),
    decreases a.len(),
{
    if a.len() > 0 && b.len() > 0 && c.len() > 0 && a[0] == b[0] && b[0] == c[0] {
        lex_lt_transitive(a.drop_first(), b.drop_first(), c.drop_first());
    }
}

/// Does `a` come before `b`?
pub fn str_less(a: &str, b: &str) -> (r: bool)
    ensures
        r == lex_lt(a@, b@),
{
    let n = a.unicode_len();
    let m = b.unicode_len();
    let mut i: usize = 0;
    assert(a@.subrange(0, n as int) =~= a@);
    assert(b@.subrange(0, m as int) =~= b@);
    while i < n && i < m
        invariant
            i <= n == a@.len(),
            i <= m == b@.len(),
            a@.subrange(0, i as int) == b@.subrange(0, i as int),
            lex_lt(a@, b@) == lex_lt(a@.subrange(i as int, n as int), b@.subrange(i as int, m as int)),
        decreases n - i,
    {
        let ca = a.get_char(i);
        let cb = b.get_char(i);
        let ghost sa = a@.subrange(i as int, n as int);
        let ghost sb = b@.subrange(i as int, m as int);
        assert(sa[0] == ca && sb[0] == cb);
        if ca != cb {
            return ca < cb;
        }
        assert(sa.drop_first() =~= a@.subrange(i + 1, n as int));
        assert(sb.drop_first() =~= b@.subrange(i + 1, m as int));
        assert(a@.subrange(0, i + 1) =~= a@.subrange(0, i as int).push(ca));
        assert(b@.subrange(0, i + 1) =~= b@.subrange(0, i as int).push(cb));
        i = i + 1;
    }
    i < m
}

/// A copy of a list of strings.
pub fn copy_strs(v: &Vec<String>) -> (r: Vec<String>)
    ensures
        r@ == v@,
{
    let mut r: Vec<String> = Vec::new();
    let mut i: usize = 0;
    while i < v.len()
        invariant
            i <= v@.len(),
            r@ =~= v@.subrange(0, i as int),
        decreases v.len() - i,
    {
        r.push(v[i].clone());
        i = i + 1;
    }
    assert(v@.subrange(0, v@.len() as int) =~= v@);
    r
}

} // verus!
